use alloy::primitives::Address;
use order_book_listener::listeners::order_book::batch_queue::BatchQueue;
use order_book_listener::listeners::order_book::error::{ListenerError, BATCH_QUEUE_CAP};
use order_book_listener::listeners::order_book::listener::{
    DataOutcome, FileAction, OrderBookListener, StreamStep,
};
use order_book_listener::listeners::order_book::messages::{EventBatch, InternalMessage};
use order_book_listener::listeners::order_book::snapshot_check::{check_snapshot, SnapshotVerdict};
use order_book_listener::listeners::order_book::source::ParseFailureReport;
use order_book_listener::order_book::book::Snapshot;
use order_book_listener::order_book::coin_map::CoinMap;
use order_book_listener::order_book::multi_book::Snapshots;
use order_book_listener::order_book::types::{Coin, Px, Side, Sz};
use order_book_listener::types::inner::InnerL4Order;
use order_book_listener::types::node_data::{
    Batch, EventSource, NodeDataFill, NodeDataOrderDiff, NodeDataOrderStatus,
};
use order_book_listener::types::{L4Order, OrderDiff};

const SECOND: u64 = 1_000_000_000;

type Listener = OrderBookListener<&'static str>;

fn coin(name: &str) -> Coin {
    Coin::new(name.to_string())
}

fn resting(name: &str, oid: u64, px: u64) -> InnerL4Order {
    InnerL4Order {
        user: Address::ZERO,
        coin: coin(name),
        side: Side::Bid,
        limit_px: Px { units: px },
        sz: Sz { units: 1 },
        oid,
        timestamp: 0,
        trigger_condition: String::new(),
        is_trigger: false,
        trigger_px: String::new(),
        is_position_tpsl: false,
        reduce_only: false,
        order_type: String::new(),
        tif: None,
        cloid: None,
    }
}

fn snapshots(books: Vec<(&str, Vec<InnerL4Order>)>) -> Snapshots<InnerL4Order> {
    let mut map = CoinMap::new();
    for (name, bids) in books {
        map.insert(coin(name), Snapshot { bids, asks: vec![] });
    }
    Snapshots::new(map)
}

fn one_book() -> Snapshots<InnerL4Order> {
    snapshots(vec![("BTC", vec![resting("BTC", 1, 100)])])
}

fn status(oid: u64) -> NodeDataOrderStatus {
    NodeDataOrderStatus {
        time: 1,
        user: Address::ZERO,
        status: "open".to_string(),
        order: L4Order {
            user: None,
            coin: "BTC".to_string(),
            side: Side::Bid,
            limit_px: "1".to_string(),
            sz: "1".to_string(),
            oid,
            timestamp: 0,
            trigger_condition: String::new(),
            is_trigger: false,
            trigger_px: String::new(),
            is_position_tpsl: false,
            reduce_only: false,
            order_type: String::new(),
            tif: None,
            cloid: None,
        },
    }
}

fn diff(oid: u64, px: &str, raw_book_diff: OrderDiff) -> NodeDataOrderDiff {
    NodeDataOrderDiff {
        user: Address::ZERO,
        oid,
        px: px.to_string(),
        coin: "BTC".to_string(),
        raw_book_diff,
    }
}

fn statuses(block: u64, events: Vec<NodeDataOrderStatus>) -> EventBatch {
    EventBatch::Orders(Batch::new(block, block * 100, events))
}

fn diffs(block: u64, events: Vec<NodeDataOrderDiff>) -> EventBatch {
    EventBatch::BookDiffs(Batch::new(block, block * 100, events))
}

fn fills(block: u64) -> EventBatch {
    let events: Vec<NodeDataFill> = Vec::new();
    EventBatch::Fills(Batch::new(block, block * 100, events))
}

fn ready() -> Listener {
    let mut listener = Listener::new(true, false);
    listener.init_from_snapshot(one_book(), 10, Some(5_000), 0);
    listener
}

fn height(listener: &Listener) -> Option<u64> {
    listener.height()
}

#[test]
fn a_queue_takes_later_blocks_only() {
    let mut queue: BatchQueue<u8> = BatchQueue::new();
    assert!(matches!(queue.push(Batch::new(5, 0, vec![])), Ok(true)));
    assert!(matches!(queue.push(Batch::new(5, 0, vec![])), Ok(false)));
    assert!(matches!(queue.push(Batch::new(4, 0, vec![])), Ok(false)));
    assert!(matches!(queue.push(Batch::new(7, 0, vec![])), Ok(true)));
    assert_eq!(queue.front().map(|batch| batch.block_number()), Some(5));
    assert_eq!(queue.pop_front().map(|batch| batch.block_number()), Some(5));
    assert_eq!(queue.pop_front().map(|batch| batch.block_number()), Some(7));
    assert!(queue.pop_front().is_none());
    assert!(matches!(queue.push(Batch::new(7, 0, vec![])), Ok(false)));
    queue.clear();
    assert!(queue.front().is_none());
    assert!(matches!(queue.push(Batch::new(1, 0, vec![])), Ok(true)));
}

#[test]
fn a_queue_holds_so_many_and_no_more() {
    let mut queue: BatchQueue<u8> = BatchQueue::new();
    for block in 0..BATCH_QUEUE_CAP as u64 {
        assert!(matches!(queue.push(Batch::new(block, 0, vec![])), Ok(true)));
    }
    assert!(matches!(queue.push(Batch::new(0, 0, vec![])), Ok(false)));
    match queue.push(Batch::new(u64::MAX, 0, vec![])) {
        Err(error) => assert_eq!(
            error.message(),
            "BatchQueue overflow: 60000 unprocessed batches (cap 60000). Listener consumer is starved."
        ),
        Ok(_) => panic!("the queue is full"),
    }
    assert!(queue.pop_front().is_some());
    assert!(matches!(queue.push(Batch::new(u64::MAX, 0, vec![])), Ok(true)));
}

#[test]
fn the_earliest_common_block_is_taken() {
    let mut listener = Listener::new(false, false);
    for block in [3, 4, 6, 8] {
        listener.receive_batch(statuses(block, vec![])).unwrap();
    }
    for block in [1, 2, 5, 6, 7, 8] {
        listener.receive_batch(diffs(block, vec![])).unwrap();
    }
    for block in [6, 8] {
        let (statuses, diffs) = listener.pop_cache().unwrap().into_parts();
        assert_eq!((statuses.block_number(), diffs.block_number()), (block, block));
    }
    assert!(listener.pop_cache().is_none());
}

#[test]
fn a_new_listener_has_nothing() {
    let listener = Listener::new(true, true);
    assert!(!listener.is_ready());
    assert!(listener.ignores_spot());
    assert!(listener.universe().is_empty());
    assert!(listener.compute_snapshot().is_none());
    assert_eq!(listener.block_time_lag_ms(Some(1)), None);
    assert!(!listener.in_init_grace_period(0));
    assert!(!listener.has_active_parse_stall(u64::MAX));
}

#[test]
fn a_listener_starts_from_a_snapshot_and_the_blocks_that_wait() {
    let mut listener = Listener::new(true, false);
    for block in [9, 11, 12] {
        listener.receive_batch(statuses(block, vec![])).unwrap();
        listener.receive_batch(diffs(block, vec![])).unwrap();
    }
    assert!(!listener.is_ready());
    listener.init_from_snapshot(one_book(), 10, Some(9_000), 3 * SECOND);
    assert!(listener.is_ready());
    assert_eq!(height(&listener), Some(12));
    assert_eq!(listener.block_time_lag_ms(Some(9_250)), Some(250));
    assert!(listener.in_init_grace_period(302 * SECOND));
    assert!(!listener.in_init_grace_period(303 * SECOND));
    assert_eq!(listener.universe().len(), 1);
}

#[test]
fn a_listener_waits_for_the_next_snapshot_where_a_block_fails() {
    let mut listener = Listener::new(true, false);
    listener.receive_batch(statuses(11, vec![])).unwrap();
    listener.receive_batch(diffs(11, vec![diff(77, "1", OrderDiff::Remove)])).unwrap();
    listener.init_from_snapshot(one_book(), 10, None, 0);
    assert!(!listener.is_ready());
    assert!(listener.pop_cache().is_none());
    listener.init_from_snapshot(one_book(), 20, None, 0);
    assert!(listener.is_ready());
    assert_eq!(listener.block_time_lag_ms(Some(5)), Some(5));
}

#[test]
fn a_complete_block_moves_the_state_on_and_is_passed_on() {
    let mut listener = ready();
    listener.begin_caching();
    listener.receive_batch(statuses(11, vec![status(2)])).unwrap();
    assert_eq!(height(&listener), Some(10));
    let opened = diff(2, "200", OrderDiff::New { sz: "3".to_string() });
    listener.receive_batch(diffs(11, vec![opened])).unwrap();
    assert_eq!(height(&listener), Some(11));
    let messages = listener.take_messages();
    assert_eq!(messages.len(), 1);
    match &messages[0] {
        InternalMessage::L4BookUpdates { diff_batch, status_batch } => {
            assert_eq!(diff_batch.block_number(), 11);
            assert_eq!(status_batch.block_number(), 11);
        }
        _ => panic!("a block was worked in"),
    }
    assert!(listener.take_messages().is_empty());
    let cache = listener.take_cache();
    assert_eq!(cache.len(), 1);
    assert!(listener.take_cache().is_empty());
    let timed = listener.compute_snapshot().unwrap();
    assert_eq!(timed.snapshot.as_ref().get(&coin("BTC")).unwrap().bids.len(), 2);
}

#[test]
fn collected_blocks_give_the_state() {
    let mut listener = ready();
    listener.begin_caching();
    let mut copy = listener.clone_state().unwrap();
    for block in 11..14 {
        listener.receive_batch(statuses(block, vec![status(block)])).unwrap();
        let opened = diff(block, "7", OrderDiff::New { sz: "3".to_string() });
        listener.receive_batch(diffs(block, vec![opened])).unwrap();
    }
    for pair in listener.take_cache() {
        let (statuses, diffs) = pair.into_parts();
        copy.apply_updates(statuses, diffs).unwrap();
    }
    let timed = listener.compute_snapshot().unwrap();
    let ours = copy.compute_snapshot();
    assert_eq!(ours.height, timed.height);
    assert!(
        ours.snapshot.as_ref().get(&coin("BTC")).unwrap().bids
            == timed.snapshot.as_ref().get(&coin("BTC")).unwrap().bids
    );
}

#[test]
fn nothing_is_passed_on_where_nobody_listens() {
    let mut listener = Listener::new(false, false);
    listener.receive_batch(fills(1)).unwrap();
    assert!(listener.take_messages().is_empty());
}

fn fill_blocks(listener: &mut Listener) -> Vec<u64> {
    listener
        .take_messages()
        .iter()
        .map(|message| match message {
            InternalMessage::Fills { batch } => batch.block_number(),
            _ => panic!("only fills came in"),
        })
        .collect()
}

#[test]
fn fills_are_passed_on_for_new_blocks_only() {
    let mut listener = Listener::new(true, false);
    for block in [4, 3, 4] {
        listener.receive_batch(fills(block)).unwrap();
    }
    assert_eq!(fill_blocks(&mut listener), vec![4]);
    listener.receive_batch(fills(6)).unwrap();
    listener.receive_batch(statuses(9, vec![])).unwrap();
    listener.receive_batch(fills(5)).unwrap();
    listener.receive_batch(fills(7)).unwrap();
    assert_eq!(fill_blocks(&mut listener), vec![6, 7]);
}

#[test]
fn old_fills_stay_old_after_the_state_is_given_up() {
    let mut listener = ready();
    listener.process_data(b"x\n", vec![Some(fills(8))], EventSource::Fills).unwrap();
    listener.receive_batch(statuses(11, vec![])).unwrap();
    let failing = diffs(11, vec![diff(9, "1", OrderDiff::Remove)]);
    assert!(listener.process_data(b"x\n", vec![Some(failing)], EventSource::OrderDiffs).is_err());
    listener.take_messages();
    listener.receive_batch(fills(8)).unwrap();
    assert!(listener.take_messages().is_empty());
}

#[test]
fn reports_outlive_the_state() {
    let passed_over = |oid: u64| {
        let mut update = diff(
            oid,
            "1",
            OrderDiff::Update { orig_sz: "1".to_string(), new_sz: "2".to_string() },
        );
        update.coin = "NEW".to_string();
        update
    };
    let mut listener = ready();
    listener.receive_batch(statuses(11, vec![])).unwrap();
    listener.receive_batch(diffs(11, vec![passed_over(3)])).unwrap();
    listener.receive_batch(statuses(12, vec![])).unwrap();
    let failing = diffs(12, vec![diff(9, "1", OrderDiff::Remove)]);
    assert!(listener.stream_lines(vec![Ok(failing)], EventSource::OrderDiffs).is_err());
    let reports = listener.take_skipped();
    assert_eq!(reports.len(), 1);
    assert_eq!((reports[0].oid, reports[0].height), (3, 11));
    assert!(listener.take_skipped().is_empty());

    let mut listener = Listener::new(true, false);
    listener.receive_batch(statuses(11, vec![])).unwrap();
    let batch = vec![passed_over(4), diff(9, "1", OrderDiff::Remove)];
    listener.receive_batch(diffs(11, batch)).unwrap();
    listener.init_from_snapshot(one_book(), 10, None, 0);
    assert!(!listener.is_ready());
    assert_eq!(listener.take_skipped().len(), 1);
}

#[test]
fn accepted_gaps_outlive_the_state() {
    let mut listener = ready();
    listener.receive_batch(statuses(20, vec![])).unwrap();
    let failing = diffs(20, vec![diff(9, "1", OrderDiff::Remove)]);
    assert!(listener.stream_lines(vec![Ok(failing)], EventSource::OrderDiffs).is_err());
    let gaps = listener.take_gaps();
    assert_eq!(gaps.len(), 1);
    assert_eq!((gaps[0].height, gaps[0].expected, gaps[0].got), (10, 11, 20));
    let mut listener = ready();
    for batch in [statuses(20, vec![]), diffs(20, vec![])] {
        listener.receive_batch(batch).unwrap();
    }
    assert_eq!(listener.take_gaps().len(), 1);
    assert!(listener.take_gaps().is_empty());
}

#[test]
fn a_marker_anywhere_in_a_diff_asks_for_a_fresh_start() {
    let marker = "\u{1}é[gap-grace-resync]";
    let marked = |coin: &str, px: &str, sz: &str| {
        let mut diff = diff(1, px, OrderDiff::New { sz: sz.to_string() });
        diff.coin = coin.to_string();
        ListenerError::MissingOrder { diff }
    };
    for error in [marked(marker, "", ""), marked("", marker, ""), marked("", "", marker)] {
        assert!(error.is_gap_grace_resync());
        assert!(error.message().contains("[gap-grace-resync]"));
    }
    for error in [
        marked("[gap-grace", "-resync]", "["),
        ListenerError::UnexpectedBlock { expected: 1, got: 3, time: 0 },
    ] {
        assert!(!error.is_gap_grace_resync());
        assert!(!error.message().contains("[gap-grace-resync]"));
    }
}

#[test]
fn the_first_batch_of_a_new_file_is_noted() {
    let mut listener = ready();
    let source = EventSource::OrderStatuses;
    listener.finish_file_creation(source, "file", "new.json".to_string());
    let lines = vec![Some(statuses(11, vec![])), Some(statuses(12, vec![]))];
    listener.process_data(b"a\nb\n", lines, source).unwrap();
    let noted = listener.take_first_batches();
    assert_eq!(noted.len(), 1);
    assert_eq!(
        noted[0].message(),
        "[hour-rollover-diag] live-file first batch: source=OrderStatuses new_file=new.json \
         first_block=11 state.height=Some(10)"
    );
    assert!(listener.take_first_batches().is_empty());
}

#[test]
fn a_closed_file_does_the_same_as_one_that_is_written() {
    let mut stream = ready();
    let mut data = ready();
    for listener in [&mut stream, &mut data] {
        listener.receive_batch(diffs(11, vec![])).unwrap();
    }
    let source = EventSource::OrderStatuses;
    stream.stream_lines(vec![Ok(statuses(11, vec![]))], source).unwrap();
    stream.finish_stream();
    data.process_data(b"x\n", vec![Some(statuses(11, vec![]))], source).unwrap();
    assert_eq!(height(&stream), height(&data));
    assert_eq!(stream.take_messages().len(), data.take_messages().len());
}

#[test]
fn the_latest_block_time_never_falls() {
    let mut listener = Listener::new(false, false);
    listener.receive_batch(statuses(20, vec![])).unwrap();
    listener.receive_batch(fills(5)).unwrap();
    assert_eq!(listener.block_time_lag_ms(Some(2_000)), Some(0));
    assert_eq!(listener.block_time_lag_ms(Some(3_500)), Some(1_500));
    assert_eq!(listener.block_time_lag_ms(Some(1_999)), None);
    assert_eq!(listener.block_time_lag_ms(None), None);
    assert_eq!(listener.block_time_lag_ms(Some(u128::MAX)), None);
}

#[test]
fn data_is_taken_in_and_the_views_are_published() {
    let mut listener = ready();
    let outcome = listener
        .process_data(b"x\n\ny\n", vec![Some(statuses(11, vec![])), Some(statuses(12, vec![]))],
            EventSource::OrderStatuses)
        .unwrap();
    assert_eq!(outcome, DataOutcome::Finished);
    let messages = listener.take_messages();
    assert_eq!(messages.len(), 1);
    assert!(matches!(&messages[0], InternalMessage::Snapshot { time: 0, .. }));
    let outcome = listener
        .process_data(b"z\n", vec![Some(diffs(11, vec![]))], EventSource::OrderDiffs)
        .unwrap();
    assert_eq!(outcome, DataOutcome::Finished);
    let messages = listener.take_messages();
    assert_eq!(messages.len(), 2);
    assert!(matches!(&messages[0], InternalMessage::L4BookUpdates { .. }));
    match &messages[1] {
        InternalMessage::Snapshot { l2_snapshots, time } => {
            assert_eq!(*time, 1_100);
            assert!(l2_snapshots.as_ref().contains(&coin("BTC")));
        }
        _ => panic!("the views of the new block are due"),
    }
    listener.process_data(b"", vec![], EventSource::Fills).unwrap();
    assert!(listener.take_messages().is_empty());
}

#[test]
fn a_line_that_cannot_be_read_is_read_again() {
    let mut listener = ready();
    let data = b"first\nsec";
    let outcome = listener
        .process_data(data, vec![Some(statuses(11, vec![])), None], EventSource::OrderStatuses)
        .unwrap();
    assert_eq!(outcome, DataOutcome::Torn { rewind: 3 });
    let outcome = listener
        .process_data(b"a\n\nb\nc\n", vec![None], EventSource::OrderStatuses)
        .unwrap();
    assert_eq!(outcome, DataOutcome::Torn { rewind: 7 });
    assert!(listener.is_ready());
}

#[test]
fn it_makes_no_difference_in_how_many_pieces_lines_come() {
    let lines = || vec![Some(statuses(11, vec![])), Some(statuses(13, vec![]))];
    let mut whole = ready();
    whole.process_data(b"a\nb\n", lines(), EventSource::OrderStatuses).unwrap();
    let mut pieces = ready();
    for (data, line) in [b"a\n", b"b\n"].into_iter().zip(lines()) {
        pieces.process_data(data, vec![line], EventSource::OrderStatuses).unwrap();
    }
    for listener in [&mut whole, &mut pieces] {
        listener.receive_batch(diffs(13, vec![])).unwrap();
        assert_eq!(height(listener), Some(13));
    }
}

#[test]
fn data_that_fails_ends_the_state() {
    let mut listener = ready();
    listener.receive_batch(statuses(11, vec![])).unwrap();
    let error = listener
        .process_data(b"x\n", vec![Some(diffs(11, vec![diff(9, "1", OrderDiff::Remove)]))],
            EventSource::OrderDiffs)
        .unwrap_err();
    assert!(matches!(error, ListenerError::MissingOrder { .. }));
    assert!(!listener.is_ready());
    assert!(listener.take_messages().is_empty());
}

#[test]
fn an_error_that_asks_for_it_starts_the_listener_anew() {
    let mut listener = ready();
    listener.receive_batch(statuses(11, vec![])).unwrap();
    listener.receive_batch(statuses(12, vec![])).unwrap();
    let marked = diff(9, "[gap-grace-resync]", OrderDiff::Remove);
    let outcome = listener
        .process_data(b"x\ny\n", vec![Some(diffs(11, vec![marked])), Some(diffs(12, vec![]))],
            EventSource::OrderDiffs)
        .unwrap();
    assert_eq!(outcome, DataOutcome::Resynced);
    assert!(!listener.is_ready());
    assert_eq!(listener.block_time_lag_ms(Some(u64::MAX as u128 / 4)), None);
    assert!(!listener.in_init_grace_period(0));
    listener.receive_batch(statuses(1, vec![])).unwrap();
    listener.receive_batch(diffs(1, vec![])).unwrap();
    assert!(listener.pop_cache().is_some());
}

#[test]
fn a_closed_file_is_streamed() {
    let mut listener = ready();
    listener.receive_batch(diffs(11, vec![])).unwrap();
    let source = EventSource::OrderStatuses;
    let lines = vec![Ok(statuses(11, vec![])), Ok(statuses(12, vec![]))];
    assert_eq!(listener.stream_lines(lines, source).unwrap(), StreamStep::Continue);
    listener.finish_stream();
    assert_eq!(height(&listener), Some(11));
    assert_eq!(listener.take_messages().len(), 2);
    let lines = vec![Ok(statuses(13, vec![])), Err("EOF".to_string()), Err("more".to_string())];
    let error = listener.stream_lines(lines, source).unwrap_err();
    assert_eq!(error.message(), "Stream parse error in closed OrderStatuses file: EOF");
    assert!(listener.is_ready());
    let marked = diff(9, "[gap-grace-resync]", OrderDiff::Remove);
    let lines = vec![Ok(diffs(12, vec![marked])), Ok(diffs(13, vec![]))];
    assert_eq!(
        listener.stream_lines(lines, EventSource::OrderDiffs).unwrap(),
        StreamStep::Stop
    );
    assert!(!listener.is_ready());
    assert!(listener.pop_cache().is_none());
}

#[test]
fn a_closed_file_that_fails_ends_the_state() {
    let mut listener = ready();
    listener.stream_lines(vec![Ok(statuses(11, vec![]))], EventSource::OrderStatuses).unwrap();
    let failing = diffs(11, vec![diff(9, "1", OrderDiff::Remove)]);
    let error = listener.stream_lines(vec![Ok(failing)], EventSource::OrderDiffs).unwrap_err();
    assert!(matches!(error, ListenerError::MissingOrder { .. }));
    assert!(!listener.is_ready());
}

#[test]
fn a_closed_file_may_come_in_pieces() {
    let lines = || vec![Ok(statuses(11, vec![])), Ok(statuses(13, vec![]))];
    let mut whole = ready();
    whole.stream_lines(lines(), EventSource::OrderStatuses).unwrap();
    let mut pieces = ready();
    for line in lines() {
        pieces.stream_lines(vec![line], EventSource::OrderStatuses).unwrap();
    }
    for listener in [&mut whole, &mut pieces] {
        listener.receive_batch(diffs(13, vec![])).unwrap();
        assert_eq!(height(listener), Some(13));
    }
}

#[test]
fn files_are_switched_and_tracked() {
    let mut listener = Listener::new(false, false);
    let source = EventSource::Fills;
    assert_eq!(listener.process_update(true, source), FileAction::SwitchTo);
    assert_eq!(listener.process_update(false, source), FileAction::TrackFromEnd);
    assert!(!listener.is_reading(source));
    *listener.file_mut(source) = Some("first");
    assert!(listener.is_reading(source));
    assert!(!listener.is_reading(EventSource::OrderDiffs));
    assert_eq!(listener.process_update(false, source), FileAction::ReadMore);
    assert_eq!(listener.begin_file_creation(source), Some("first"));
    assert!(!listener.is_reading(source));
    listener.finish_file_creation(source, "second", "second.json".to_string());
    assert_eq!(*listener.file_mut(source), Some("second"));
    assert_eq!(
        listener.take_pending_first_batch_log(source),
        Some("second.json".to_string())
    );
    assert_eq!(listener.take_pending_first_batch_log(source), None);
    listener.set_pending_first_batch_log(source, "third.json".to_string());
    listener.process_data(b"x\n", vec![Some(fills(1))], source).unwrap();
    assert_eq!(listener.take_pending_first_batch_log(source), None);
}

#[test]
fn a_stuck_place_is_reported_less_and_less() {
    let mut listener = Listener::new(false, false);
    let source = EventSource::OrderDiffs;
    for second in 0..3 {
        assert_eq!(
            listener.record_parse_failure(source, Some(40), second * SECOND),
            ParseFailureReport::Loud
        );
    }
    assert_eq!(
        listener.record_parse_failure(source, Some(40), 3 * SECOND),
        ParseFailureReport::StillStuck { offset: Some(40), attempts: 4, stuck_for: 3 * SECOND }
    );
    assert_eq!(
        listener.record_parse_failure(source, Some(40), 62 * SECOND),
        ParseFailureReport::Silent
    );
    assert_eq!(
        listener.record_parse_failure(source, Some(40), 63 * SECOND),
        ParseFailureReport::StillStuck { offset: Some(40), attempts: 6, stuck_for: 63 * SECOND }
    );
    assert_eq!(
        listener.record_parse_failure(source, Some(41), 64 * SECOND),
        ParseFailureReport::Loud
    );
}

#[test]
fn failures_at_an_unknown_place_are_always_loud() {
    let mut listener = Listener::new(false, false);
    for second in 0..9 {
        assert_eq!(
            listener.record_parse_failure(EventSource::Fills, None, second * SECOND),
            ParseFailureReport::Loud
        );
    }
}

#[test]
fn a_stall_is_a_place_that_is_stuck_for_long() {
    let mut listener = Listener::new(false, false);
    let source = EventSource::OrderStatuses;
    for second in 0..3 {
        listener.record_parse_failure(source, Some(40), second * SECOND);
    }
    assert!(!listener.has_active_parse_stall(100 * SECOND));
    listener.record_parse_failure(source, Some(40), 4 * SECOND);
    assert!(!listener.has_active_parse_stall(30 * SECOND));
    assert!(listener.has_active_parse_stall(31 * SECOND));
    listener.process_data(b"x\n", vec![Some(statuses(1, vec![]))], source).unwrap();
    assert!(!listener.has_active_parse_stall(31 * SECOND));
    assert_eq!(listener.parse_fail_tracker_mut(source).fail_count, 0);
}

#[test]
fn without_a_state_the_listener_starts_from_the_snapshot() {
    let mut listener = Listener::new(false, false);
    listener.begin_caching();
    let state = listener.clone_state();
    let cache = listener.take_cache();
    let verdict = check_snapshot(state, cache, 10, one_book(), false);
    assert!(matches!(verdict, SnapshotVerdict::Initialize { .. }));
    listener.settle_snapshot(verdict, 10, Some(1), 2);
    assert_eq!(height(&listener), Some(10));
}

#[test]
fn a_snapshot_is_held_against_the_state_at_its_height() {
    let mut listener = ready();
    listener.begin_caching();
    let state = listener.clone_state();
    for block in [11, 12] {
        listener.receive_batch(statuses(block, vec![])).unwrap();
        listener.receive_batch(diffs(block, vec![])).unwrap();
    }
    let cache = listener.take_cache();
    let verdict = |height: u64, expected: Snapshots<InnerL4Order>| {
        check_snapshot(state.clone(), cache.clone(), height, expected, false)
    };
    assert!(matches!(verdict(12, one_book()), SnapshotVerdict::Consistent));
    assert!(matches!(verdict(11, one_book()), SnapshotVerdict::Consistent));
    assert!(matches!(
        verdict(13, one_book()),
        SnapshotVerdict::NotEnoughUpdates { state_height: 12 }
    ));
    assert!(matches!(
        verdict(9, one_book()),
        SnapshotVerdict::SnapshotLagging { state_height: 10 }
    ));
    let other = snapshots(vec![("BTC", vec![resting("BTC", 1, 101)])]);
    assert!(matches!(verdict(12, other), SnapshotVerdict::Mismatch { .. }));
}

#[test]
fn a_block_that_fails_on_the_copy_ends_the_comparison() {
    let mut listener = ready();
    listener.receive_batch(statuses(11, vec![status(2)])).unwrap();
    let opened = diff(2, "1", OrderDiff::New { sz: "3".to_string() });
    listener.receive_batch(diffs(11, vec![opened])).unwrap();
    listener.begin_caching();
    listener.receive_batch(statuses(12, vec![])).unwrap();
    listener.receive_batch(diffs(12, vec![diff(2, "1", OrderDiff::Remove)])).unwrap();
    let cache = listener.take_cache();
    let stale = ready().clone_state();
    assert!(matches!(
        check_snapshot(stale, cache, 12, one_book(), false),
        SnapshotVerdict::CatchUpFailed { error: ListenerError::MissingOrder { .. } }
    ));
}

#[test]
fn books_that_the_listener_lacks_are_grafted_in() {
    let mut listener = ready();
    let expected = || {
        snapshots(vec![
            ("BTC", vec![resting("BTC", 1, 100)]),
            ("NEW", vec![resting("NEW", 5, 3)]),
        ])
    };
    let state = listener.clone_state();
    let verdict = check_snapshot(state, listener.take_cache(), 10, expected(), false);
    assert!(matches!(verdict, SnapshotVerdict::ExtraBooks { .. }));
    listener.settle_snapshot(verdict, 10, None, 0);
    assert_eq!(listener.universe().len(), 2);
    let state = listener.clone_state();
    let verdict = check_snapshot(state, listener.take_cache(), 10, expected(), false);
    assert!(matches!(verdict, SnapshotVerdict::Consistent));
}

#[test]
fn a_mismatch_leaves_the_listener_as_it_is() {
    let mut listener = ready();
    let other = snapshots(vec![("BTC", vec![resting("BTC", 1, 101)])]);
    let state = listener.clone_state();
    let verdict = check_snapshot(state, listener.take_cache(), 10, other, false);
    listener.settle_snapshot(verdict, 10, None, 0);
    assert_eq!(height(&listener), Some(10));
    let timed = listener.compute_snapshot().unwrap();
    assert_eq!(timed.snapshot.as_ref().get(&coin("BTC")).unwrap().bids[0].limit_px.units, 100);
}
