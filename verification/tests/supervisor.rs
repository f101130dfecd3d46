use order_book_listener::listeners::order_book::fetch_plan::{FetchPlan, FetchStep, PostOutcome};
use order_book_listener::listeners::order_book::listener::OrderBookListener;
use order_book_listener::listeners::order_book::supervisor::{
    is_quiet_due, next_action, processing_error, FilePlace, ListenAction, ListenEvent, StopReason,
};
use order_book_listener::order_book::coin_map::CoinMap;
use order_book_listener::order_book::multi_book::Snapshots;
use order_book_listener::types::node_data::EventSource;

const SECOND: u64 = 1_000_000_000;

type Listener = OrderBookListener<u8>;

fn waiting() -> Listener {
    Listener::new(false, true)
}

fn ready() -> Listener {
    let mut listener = waiting();
    listener.init_from_snapshot(Snapshots::new(CoinMap::new()), 1, Some(1_000_000), 0);
    listener
}

fn no_answer() -> PostOutcome {
    PostOutcome::NoAnswer { connect: true, timeout: false, request: false }
}

#[test]
fn a_node_that_is_out_of_reach_is_asked_five_times() {
    let mut plan = FetchPlan::new();
    let mut waits = Vec::new();
    loop {
        assert_eq!(plan.attempt() as usize, waits.len() + 1);
        match plan.after(no_answer()) {
            FetchStep::RetryAfter { secs, plan: next } => {
                waits.push(secs);
                plan = next;
            }
            FetchStep::GiveUpAfter { secs } => {
                waits.push(secs);
                break;
            }
            other => panic!("the node is out of reach: {other:?}"),
        }
    }
    assert_eq!(waits, vec![1, 2, 4, 8, 16]);
    assert_eq!(waits.iter().sum::<u64>(), 31);
}

#[test]
fn an_answer_ends_the_attempts() {
    assert!(matches!(FetchPlan::new().after(PostOutcome::Accepted), FetchStep::Done));
    assert!(matches!(FetchPlan::new().after(PostOutcome::Rejected), FetchStep::GiveUp));
    let odd = PostOutcome::NoAnswer { connect: false, timeout: false, request: false };
    assert!(matches!(FetchPlan::new().after(odd), FetchStep::GiveUp));
    let slow = PostOutcome::NoAnswer { connect: false, timeout: true, request: false };
    assert!(matches!(FetchPlan::new().after(slow), FetchStep::RetryAfter { secs: 1, .. }));
    let broken = PostOutcome::NoAnswer { connect: false, timeout: false, request: true };
    assert!(matches!(FetchPlan::new().after(broken), FetchStep::RetryAfter { secs: 1, .. }));
}

fn place(in_order_statuses: bool, in_fills: bool, in_order_diffs: bool, is_file: bool) -> FilePlace {
    FilePlace { in_order_statuses, in_fills, in_order_diffs, is_file }
}

#[test]
fn files_go_to_their_streams() {
    let listener = waiting();
    let action = |created: bool, modified: bool, place: FilePlace| {
        next_action(ListenEvent::FileEvent { created, modified, place }, false, false, &listener)
    };
    assert!(matches!(
        action(true, false, place(true, false, false, true)),
        ListenAction::ProcessUpdate { created: true, event_source: EventSource::OrderStatuses }
    ));
    assert!(matches!(
        action(false, true, place(false, true, false, true)),
        ListenAction::ProcessUpdate { created: false, event_source: EventSource::Fills }
    ));
    assert!(matches!(
        action(false, true, place(false, false, true, true)),
        ListenAction::ProcessUpdate { created: false, event_source: EventSource::OrderDiffs }
    ));
    assert!(matches!(action(true, false, place(true, false, false, false)), ListenAction::Wait));
    assert!(matches!(action(true, false, place(false, false, false, true)), ListenAction::Wait));
    assert!(matches!(action(false, false, place(true, false, false, true)), ListenAction::Wait));
}

fn stop_message(action: ListenAction) -> String {
    match action {
        ListenAction::Stop { reason } => reason.message(),
        other => panic!("the listener is to stop: {other:?}"),
    }
}

#[test]
fn failures_stop_the_listener() {
    let listener = waiting();
    let message = |event: ListenEvent| stop_message(next_action(event, false, false, &listener));
    assert_eq!(
        message(ListenEvent::WatcherFailed { reason: "gone".to_string() }),
        "Watcher error: gone"
    );
    assert_eq!(message(ListenEvent::WatcherClosed), "Channel closed.");
    assert_eq!(
        message(ListenEvent::FetchFailed { reason: "refused".to_string() }),
        "Abci state reading error: refused"
    );
    assert_eq!(message(ListenEvent::FetchSenderGone), "Snapshot fetch task sender dropped");
    assert!(matches!(
        next_action(ListenEvent::FetchDone, false, false, &listener),
        ListenAction::Wait
    ));
}

#[test]
fn snapshots_are_fetched_one_at_a_time() {
    let listener = waiting();
    assert!(matches!(
        next_action(ListenEvent::SnapshotTick, false, false, &listener),
        ListenAction::FetchSnapshot
    ));
    assert!(matches!(
        next_action(ListenEvent::SnapshotTick, false, true, &listener),
        ListenAction::Wait
    ));
}

fn quiet(last_file_event: u64, now: u64) -> ListenEvent {
    ListenEvent::QuietTick { last_file_event: last_file_event * SECOND, now: now * SECOND }
}

#[test]
fn quiet_is_due_after_half_a_minute() {
    assert!(!is_quiet_due(5 * SECOND, 35 * SECOND - 1));
    assert!(is_quiet_due(5 * SECOND, 35 * SECOND));
    assert!(!is_quiet_due(5 * SECOND, 0));
}

#[test]
fn silence_stops_a_listener_that_is_ready() {
    assert!(matches!(
        next_action(quiet(5, 500), false, false, &waiting()),
        ListenAction::Wait
    ));
    assert!(matches!(
        next_action(quiet(5, 34), true, false, &ready()),
        ListenAction::Wait
    ));
    assert_eq!(
        stop_message(next_action(quiet(5, 35), false, true, &ready())),
        "No file events for 30s — watcher may have stopped or hl-node fell badly behind"
    );
}

#[test]
fn lost_events_stop_the_listener() {
    let tick = || ListenEvent::LagTick { wall_clock_ms: None, now: 0 };
    for event in [quiet(0, 30), tick()] {
        assert_eq!(
            stop_message(next_action(event, true, true, &waiting())),
            "fs event channel overflowed — listener consumer was starved"
        );
    }
}

#[test]
fn lag_stops_a_listener_that_nothing_excuses() {
    let tick = |wall_clock_ms: u128, now: u64| ListenEvent::LagTick {
        wall_clock_ms: Some(wall_clock_ms),
        now,
    };
    let late = 400 * SECOND;
    assert_eq!(
        stop_message(next_action(tick(1_120_001, late), false, false, &ready())),
        "Listener block_time lag 120001 ms exceeds 120000 ms — consumer is starved"
    );
    let waits = |listener: &Listener, event: ListenEvent, in_flight: bool| {
        matches!(next_action(event, false, in_flight, listener), ListenAction::Wait)
    };
    assert!(waits(&ready(), tick(1_120_000, late), false));
    assert!(waits(&ready(), tick(1_120_001, late), true));
    assert!(waits(&ready(), tick(1_120_001, 299 * SECOND), false));
    assert!(waits(&waiting(), tick(1_120_001, late), false));
    let mut stalled = ready();
    for second in 0..4 {
        stalled.record_parse_failure(EventSource::Fills, Some(1), second * SECOND);
    }
    assert!(waits(&stalled, tick(1_120_001, late), false));
}

#[test]
fn reasons_are_put_in_words() {
    assert_eq!(
        StopReason::Lagging { lag_ms: -5 }.message(),
        "Listener block_time lag -5 ms exceeds 120000 ms — consumer is starved"
    );
    assert_eq!(
        processing_error(EventSource::OrderStatuses, "x"),
        "Order status processing error: x"
    );
    assert_eq!(processing_error(EventSource::Fills, "x"), "Fill update processing error: x");
    assert_eq!(processing_error(EventSource::OrderDiffs, "x"), "Book diff processing error: x");
}
