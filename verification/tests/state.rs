use alloy::primitives::Address;
use order_book_listener::listeners::order_book::consistency::{
    validate_snapshot_consistency, ConsistencyError,
};
use order_book_listener::listeners::order_book::error::ListenerError;
use order_book_listener::listeners::order_book::state::{AcceptedGap, OrderBookState};
use order_book_listener::order_book::book::Snapshot;
use order_book_listener::order_book::coin_map::CoinMap;
use order_book_listener::order_book::decimal::DecimalError;
use order_book_listener::order_book::multi_book::Snapshots;
use order_book_listener::order_book::types::{Coin, Px, Side, Sz};
use order_book_listener::types::inner::InnerL4Order;
use order_book_listener::types::node_data::{Batch, NodeDataOrderDiff, NodeDataOrderStatus};
use order_book_listener::types::{L4Order, OrderDiff};

const UNIT: u64 = 100_000_000;

fn coin(name: &str) -> Coin {
    Coin::new(name.to_string())
}

fn resting(name: &str, side: Side, px: u64, sz: u64, oid: u64) -> InnerL4Order {
    InnerL4Order {
        user: Address::ZERO,
        coin: coin(name),
        side,
        limit_px: Px { units: px * UNIT },
        sz: Sz { units: sz * UNIT },
        oid,
        timestamp: 0,
        trigger_condition: "N/A".to_string(),
        is_trigger: false,
        trigger_px: "0.0".to_string(),
        is_position_tpsl: false,
        reduce_only: false,
        order_type: "Limit".to_string(),
        tif: Some("Gtc".to_string()),
        cloid: None,
    }
}

fn snapshots(books: Vec<(&str, Vec<InnerL4Order>, Vec<InnerL4Order>)>) -> Snapshots<InnerL4Order> {
    let mut map = CoinMap::new();
    for (name, bids, asks) in books {
        map.insert(coin(name), Snapshot { bids, asks });
    }
    Snapshots::new(map)
}

fn status(name: &str, side: Side, px: &str, oid: u64, time: u64) -> NodeDataOrderStatus {
    NodeDataOrderStatus {
        time,
        user: Address::ZERO,
        status: "open".to_string(),
        order: L4Order {
            user: None,
            coin: name.to_string(),
            side,
            limit_px: px.to_string(),
            sz: "1".to_string(),
            oid,
            timestamp: 0,
            trigger_condition: "N/A".to_string(),
            is_trigger: false,
            trigger_px: "0.0".to_string(),
            is_position_tpsl: false,
            reduce_only: false,
            order_type: "Limit".to_string(),
            tif: Some("Gtc".to_string()),
            cloid: None,
        },
    }
}

fn diff(name: &str, oid: u64, px: &str, raw_book_diff: OrderDiff) -> NodeDataOrderDiff {
    NodeDataOrderDiff {
        user: Address::ZERO,
        oid,
        px: px.to_string(),
        coin: name.to_string(),
        raw_book_diff,
    }
}

fn new(sz: &str) -> OrderDiff {
    OrderDiff::New { sz: sz.to_string() }
}

fn update(sz: &str) -> OrderDiff {
    OrderDiff::Update { orig_sz: "1".to_string(), new_sz: sz.to_string() }
}

fn apply(
    state: &mut OrderBookState,
    block: u64,
    statuses: Vec<NodeDataOrderStatus>,
    diffs: Vec<NodeDataOrderDiff>,
) -> Result<(), ListenerError> {
    state.apply_updates(
        Batch::new(block, block * 1000, statuses),
        Batch::new(block, block * 1000, diffs),
    )
}

fn start(ignore_spot: bool) -> OrderBookState {
    OrderBookState::from_snapshot(
        snapshots(vec![(
            "BTC",
            vec![resting("BTC", Side::Bid, 100, 1, 1)],
            vec![resting("BTC", Side::Ask, 102, 1, 2)],
        )]),
        10,
        0,
        true,
        ignore_spot,
    )
}

fn bids(state: &OrderBookState, name: &str) -> Vec<(u64, u64, u64)> {
    let timed = state.compute_snapshot();
    let book = timed.snapshot.as_ref().get(&coin(name)).unwrap();
    book.bids.iter().map(|order| (order.oid, order.limit_px.units / UNIT, order.sz.units / UNIT)).collect()
}

#[test]
fn a_block_is_worked_in() {
    let mut state = start(false);
    apply(
        &mut state,
        11,
        vec![status("BTC", Side::Bid, "101", 3, 7)],
        vec![
            diff("BTC", 3, "101", new("5")),
            diff("BTC", 1, "100", update("4")),
            diff("BTC", 2, "102", OrderDiff::Remove),
        ],
    )
    .unwrap();
    assert_eq!(state.height(), 11);
    assert_eq!(bids(&state, "BTC"), vec![(3, 101, 5), (1, 100, 4)]);
    let timed = state.compute_snapshot();
    assert_eq!((timed.time, timed.height), (11_000, 11));
    assert!(timed.snapshot.as_ref().get(&coin("BTC")).unwrap().asks.is_empty());
}

#[test]
fn an_order_comes_and_goes_within_a_block() {
    let mut state = start(false);
    apply(
        &mut state,
        11,
        vec![status("BTC", Side::Bid, "101", 3, 7)],
        vec![diff("BTC", 3, "101", new("5")), diff("BTC", 3, "101", OrderDiff::Remove)],
    )
    .unwrap();
    assert_eq!(bids(&state, "BTC"), vec![(1, 100, 1)]);
}

#[test]
fn a_triggered_order_rests_at_the_price_of_the_diff() {
    let mut state = start(false);
    let mut triggered = status("BTC", Side::Bid, "90", 3, 777);
    triggered.status = "triggered".to_string();
    triggered.order.is_trigger = true;
    triggered.order.trigger_px = "95".to_string();
    apply(&mut state, 11, vec![triggered], vec![diff("BTC", 3, "99", new("2"))]).unwrap();
    assert_eq!(bids(&state, "BTC"), vec![(1, 100, 1), (3, 99, 2)]);
    let timed = state.compute_snapshot();
    let order = &timed.snapshot.as_ref().get(&coin("BTC")).unwrap().bids[1];
    assert!(!order.is_trigger);
    assert_eq!(order.timestamp, 777);
    assert_eq!(order.trigger_px, "0.0");
}

#[test]
fn a_status_that_puts_nothing_on_the_book_opens_no_order() {
    let mut state = start(false);
    let mut immediate = status("BTC", Side::Bid, "101", 3, 7);
    immediate.order.tif = Some("Ioc".to_string());
    let error =
        apply(&mut state, 11, vec![immediate], vec![diff("BTC", 3, "101", new("5"))]).unwrap_err();
    assert!(matches!(error, ListenerError::MissingOpeningStatus { .. }));
}

#[test]
fn a_block_that_is_in_the_books_changes_nothing() {
    let mut state = start(false);
    let block = || {
        (vec![status("BTC", Side::Bid, "101", 3, 7)], vec![diff("BTC", 3, "101", new("5"))])
    };
    let (statuses, diffs) = block();
    apply(&mut state, 11, statuses, diffs).unwrap();
    let (statuses, diffs) = block();
    apply(&mut state, 11, statuses, diffs).unwrap();
    assert_eq!(state.height(), 11);
    assert_eq!(bids(&state, "BTC"), vec![(3, 101, 5), (1, 100, 1)]);
    apply(&mut state, 4, vec![], vec![diff("BTC", 99, "1", OrderDiff::Remove)]).unwrap();
    assert_eq!(state.height(), 11);
}

#[test]
fn a_gap_is_tolerated_once() {
    let mut state = start(false);
    apply(&mut state, 20, vec![], vec![]).unwrap();
    assert_eq!(state.height(), 20);
    let gaps = state.take_gaps();
    assert_eq!(gaps, vec![AcceptedGap { height: 10, expected: 11, got: 20 }]);
    assert_eq!(
        gaps[0].message(),
        "[fresh-start] accepting initial gap: self.height=10 expected=11 got=20 gap_blocks=10 — \
         snapshot state is authoritative"
    );
    assert!(state.take_gaps().is_empty());
    let error = apply(&mut state, 22, vec![], vec![]).unwrap_err();
    assert!(matches!(error, ListenerError::UnexpectedBlock { expected: 21, got: 22, time: 22_000 }));
    assert_eq!(error.message(), "Expecting block 21, got block 22");
    assert_eq!(state.height(), 20);
}

#[test]
fn a_block_in_order_ends_the_grace() {
    let mut state = start(false);
    apply(&mut state, 11, vec![], vec![]).unwrap();
    assert!(apply(&mut state, 13, vec![], vec![]).is_err());
    assert!(state.take_gaps().is_empty());
}

#[test]
fn a_block_that_fails_does_not_count() {
    let mut state = start(false);
    let error = apply(
        &mut state,
        15,
        vec![],
        vec![diff("BTC", 1, "100", update("7")), diff("BTC", 99, "1", OrderDiff::Remove)],
    )
    .unwrap_err();
    assert!(matches!(error, ListenerError::MissingOrder { .. }));
    assert_eq!(
        error.message(),
        "Unable to find order on the book NodeDataOrderDiff { user: \
         0x0000000000000000000000000000000000000000, oid: 99, px: \"1\", coin: \"BTC\", \
         raw_book_diff: Remove }"
    );
    assert_eq!(state.height(), 14);
    assert_eq!(bids(&state, "BTC"), vec![(1, 100, 7)]);
}

#[test]
fn numbers_that_cannot_be_read_are_refused() {
    let mut state = start(false);
    let error = apply(&mut state, 11, vec![], vec![diff("BTC", 1, "100", update("x"))]).unwrap_err();
    assert!(matches!(error, ListenerError::BadNumber { error: DecimalError::Malformed }));
    assert_eq!(error.message(), "invalid decimal number");
    let error = apply(
        &mut state,
        11,
        vec![status("BTC", Side::Bid, "101", 3, 7)],
        vec![diff("BTC", 3, "999999999999999", new("5"))],
    )
    .unwrap_err();
    assert!(matches!(error, ListenerError::BadNumber { error: DecimalError::TooLarge }));
    assert_eq!(error.message(), "decimal number out of range");
}

#[test]
fn spot_coins_are_passed_over_where_they_are_ignored() {
    let block = || {
        (vec![status("@1", Side::Bid, "5", 3, 7)], vec![diff("@1", 3, "5", new("1"))])
    };
    let mut ignoring = start(true);
    let (statuses, diffs) = block();
    apply(&mut ignoring, 11, statuses, diffs).unwrap();
    assert_eq!(ignoring.compute_universe().len(), 1);
    let mut heeding = start(false);
    let (statuses, diffs) = block();
    apply(&mut heeding, 11, statuses, diffs).unwrap();
    assert_eq!(heeding.compute_universe().len(), 2);
    assert_eq!(bids(&heeding, "@1"), vec![(3, 5, 1)]);
}

#[test]
fn changes_of_a_coin_without_a_book_are_passed_over() {
    let mut state = start(false);
    apply(
        &mut state,
        11,
        vec![],
        vec![diff("NEW", 5, "1", update("2")), diff("NEW", 5, "1", OrderDiff::Remove)],
    )
    .unwrap();
    assert_eq!(state.height(), 11);
    assert_eq!(state.compute_universe().len(), 1);
}

#[test]
fn reports_of_a_coin_without_a_book_are_spaced() {
    let mut state = start(false);
    let name = coin("NEW");
    assert!(state.should_warn_not_yet_grafted(&name, 1_000));
    assert!(!state.should_warn_not_yet_grafted(&name, 1_199));
    assert!(state.should_warn_not_yet_grafted(&coin("OTHER"), 1_199));
    assert!(state.should_warn_not_yet_grafted(&name, 1_200));
    assert!(!state.should_warn_not_yet_grafted(&name, 1_201));
}

#[test]
fn a_grafted_coin_is_reported_anew() {
    let mut state = start(false);
    assert!(state.should_warn_not_yet_grafted(&coin("NEW"), 1_000));
    let mut extras = CoinMap::new();
    extras.insert(coin("NEW"), Snapshot { bids: vec![], asks: vec![] });
    state.absorb_extra_books(extras, true);
    assert!(state.should_warn_not_yet_grafted(&coin("NEW"), 1_001));
}

#[test]
fn views_are_handed_out_once_per_block() {
    let mut state = start(false);
    assert!(state.l2_snapshots(false).is_some());
    let (time, _) = state.l2_snapshots(true).unwrap();
    assert_eq!(time, 0);
    assert!(state.l2_snapshots(true).is_none());
    apply(&mut state, 11, vec![], vec![]).unwrap();
    let (time, _) = state.l2_snapshots(true).unwrap();
    assert_eq!(time, 11_000);
    apply(&mut state, 11, vec![], vec![]).unwrap();
    assert!(state.l2_snapshots(true).is_none());
}

#[test]
fn other_coins_stay_as_they_are() {
    let mut state = start(false);
    apply(
        &mut state,
        11,
        vec![status("ETH", Side::Bid, "7", 3, 7)],
        vec![diff("ETH", 3, "7", new("1"))],
    )
    .unwrap();
    assert_eq!(bids(&state, "BTC"), vec![(1, 100, 1)]);
    assert_eq!(bids(&state, "ETH"), vec![(3, 7, 1)]);
}

#[test]
fn a_state_agrees_with_its_own_snapshot() {
    let state = start(false);
    let extras = validate_snapshot_consistency(
        &state.compute_snapshot().snapshot,
        state.compute_snapshot().snapshot,
        false,
    )
    .unwrap();
    assert_eq!(extras.len(), 0);
    let again = OrderBookState::from_snapshot(state.compute_snapshot().snapshot, 10, 0, true, false);
    assert_eq!(bids(&again, "BTC"), bids(&state, "BTC"));
}

#[test]
fn books_that_the_state_lacks_are_handed_back_and_grafted_in() {
    let mut state = start(true);
    let expected = || {
        snapshots(vec![
            (
                "BTC",
                vec![resting("BTC", Side::Bid, 100, 1, 1)],
                vec![resting("BTC", Side::Ask, 102, 1, 2)],
            ),
            ("NEW", vec![resting("NEW", Side::Bid, 3, 1, 8)], vec![]),
            ("@9", vec![resting("@9", Side::Bid, 3, 1, 9)], vec![]),
        ])
    };
    let extras =
        validate_snapshot_consistency(&state.compute_snapshot().snapshot, expected(), true).unwrap();
    assert_eq!(extras.len(), 1);
    assert!(extras.contains(&coin("NEW")));
    state.absorb_extra_books(extras, true);
    assert_eq!(bids(&state, "NEW"), vec![(8, 3, 1)]);
    let extras =
        validate_snapshot_consistency(&state.compute_snapshot().snapshot, expected(), true).unwrap();
    assert_eq!(extras.len(), 0);
}

#[test]
fn spot_books_are_not_grafted_in_where_they_are_ignored() {
    let mut state = start(true);
    let mut extras = CoinMap::new();
    extras.insert(coin("@9"), Snapshot { bids: vec![], asks: vec![] });
    state.absorb_extra_books(extras, true);
    assert_eq!(state.compute_universe().len(), 1);
}

#[test]
fn an_order_that_differs_is_a_fault() {
    let local = start(false).compute_snapshot().snapshot;
    let expected = snapshots(vec![(
        "BTC",
        vec![resting("BTC", Side::Bid, 100, 1, 1)],
        vec![resting("BTC", Side::Ask, 102, 9, 2)],
    )]);
    match validate_snapshot_consistency(&local, expected, false) {
        Err(ConsistencyError::OrdersDoNotMatch { coin, expected, received }) => {
            assert_eq!(coin.value(), "BTC");
            assert_eq!(expected.sz, Sz { units: 9 * UNIT });
            assert_eq!(received.sz, Sz { units: UNIT });
        }
        _ => panic!("an order differs"),
    }
}

#[test]
fn an_order_of_another_account_is_a_fault() {
    let local = start(false).compute_snapshot().snapshot;
    let mut other = resting("BTC", Side::Bid, 100, 1, 1);
    other.user = Address::repeat_byte(7);
    let expected =
        snapshots(vec![("BTC", vec![other], vec![resting("BTC", Side::Ask, 102, 1, 2)])]);
    assert!(matches!(
        validate_snapshot_consistency(&local, expected, false),
        Err(ConsistencyError::OrdersDoNotMatch { .. })
    ));
}

#[test]
fn a_book_with_orders_that_the_snapshot_lacks_is_a_fault() {
    let local = start(false).compute_snapshot().snapshot;
    match validate_snapshot_consistency(&local, snapshots(vec![]), false) {
        Err(ConsistencyError::MissingBook { coin }) => assert_eq!(coin.value(), "BTC"),
        _ => panic!("the book is missing"),
    }
    let empty = snapshots(vec![("BTC", vec![], vec![])]);
    assert!(validate_snapshot_consistency(&empty, snapshots(vec![]), false).is_ok());
}

#[test]
fn an_order_that_the_local_book_lacks_is_a_fault() {
    let local = start(false).compute_snapshot().snapshot;
    let expected = snapshots(vec![(
        "BTC",
        vec![resting("BTC", Side::Bid, 100, 1, 1), resting("BTC", Side::Bid, 99, 1, 5)],
        vec![resting("BTC", Side::Ask, 102, 1, 2)],
    )]);
    match validate_snapshot_consistency(&local, expected, false) {
        Err(ConsistencyError::MissingOrder { coin, expected }) => {
            assert_eq!(coin.value(), "BTC");
            assert_eq!(expected.oid, 5);
        }
        _ => panic!("an order is missing"),
    }
}

#[test]
fn an_order_that_only_the_local_book_has_is_a_fault() {
    let local = start(false).compute_snapshot().snapshot;
    let expected =
        snapshots(vec![("BTC", vec![resting("BTC", Side::Bid, 100, 1, 1)], vec![])]);
    match validate_snapshot_consistency(&local, expected, false) {
        Err(ConsistencyError::UnexpectedOrder { coin, received }) => {
            assert_eq!(coin.value(), "BTC");
            assert_eq!(received.oid, 2);
        }
        _ => panic!("an order is too many"),
    }
}

#[test]
fn books_of_anything_that_can_be_compared_are_held_against_each_other() {
    let numbers = |bids: Vec<u32>| {
        let mut map = CoinMap::new();
        map.insert(coin("BTC"), Snapshot { bids, asks: vec![] });
        Snapshots::new(map)
    };
    let check = |local: Vec<u32>, expected: Vec<u32>| {
        validate_snapshot_consistency(&numbers(local), numbers(expected), false)
    };
    assert!(check(vec![1, 2], vec![1, 2]).is_ok());
    assert!(matches!(
        check(vec![1], vec![1, 2]),
        Err(ConsistencyError::MissingOrder { expected: 2, .. })
    ));
    assert!(matches!(
        check(vec![1, 2], vec![1]),
        Err(ConsistencyError::UnexpectedOrder { received: 2, .. })
    ));
    assert!(matches!(
        check(vec![3, 2], vec![1]),
        Err(ConsistencyError::OrdersDoNotMatch { expected: 1, received: 3, .. })
    ));
    assert!(matches!(check(vec![], vec![7]), Err(ConsistencyError::MissingOrder { expected: 7, .. })));
}

#[test]
fn the_first_fault_of_a_coin_is_named() {
    let numbers = |bids: Vec<u32>, asks: Vec<u32>| {
        let mut map = CoinMap::new();
        map.insert(coin("BTC"), Snapshot { bids, asks });
        Snapshots::new(map)
    };
    let check = |bids: Vec<u32>, asks: Vec<u32>| {
        validate_snapshot_consistency(&numbers(bids, asks), numbers(vec![1, 2, 3], vec![9]), false)
    };
    assert!(matches!(
        check(vec![1, 5, 6, 7], vec![8]),
        Err(ConsistencyError::OrdersDoNotMatch { expected: 2, received: 5, .. })
    ));
    assert!(matches!(
        check(vec![1, 2], vec![8]),
        Err(ConsistencyError::MissingOrder { expected: 3, .. })
    ));
    assert!(matches!(
        check(vec![1, 2, 3], vec![8, 9]),
        Err(ConsistencyError::OrdersDoNotMatch { expected: 9, received: 8, .. })
    ));
}

#[test]
fn faults_are_put_in_words() {
    let mut order = resting("BTC", Side::Bid, 1, 2, 3);
    order.user = Address::repeat_byte(0xab);
    order.order_type = "a \"b\"".to_string();
    let text = "InnerL4Order { user: 0xabababababababababababababababababababab, coin: \"BTC\", \
                side: Bid, limit_px: 100000000, sz: 200000000, oid: 3, timestamp: 0, \
                trigger_condition: \"N/A\", is_trigger: false, trigger_px: \"0.0\", \
                is_position_tpsl: false, reduce_only: false, order_type: \"a \\\"b\\\"\", \
                tif: Some(\"Gtc\"), cloid: None }";
    let mismatch = ConsistencyError::OrdersDoNotMatch {
        coin: coin("BTC"),
        expected: order.clone(),
        received: order.clone(),
    };
    assert_eq!(
        mismatch.message(),
        format!("Orders do not match, expected: {text} received: {text}")
    );
    let missing = ConsistencyError::MissingOrder { coin: coin("BTC"), expected: order.clone() };
    assert_eq!(
        missing.message(),
        format!("Orders do not match, expected: {text} received: none")
    );
    let unexpected = ConsistencyError::UnexpectedOrder { coin: coin("BTC"), received: order };
    assert_eq!(
        unexpected.message(),
        format!("Orders do not match, expected: none received: {text}")
    );
    let book: ConsistencyError<InnerL4Order> = ConsistencyError::MissingBook { coin: coin("BTC") };
    assert_eq!(book.message(), "Missing BTC book");
}

#[test]
fn diffs_are_put_in_words() {
    let mut changed = diff("B\\C", 7, "1\n", update("2"));
    changed.user = Address::repeat_byte(1);
    let error = ListenerError::MissingOrder { diff: changed.clone() };
    let derived = format!("{changed:?}");
    assert_eq!(error.message(), format!("Unable to find order on the book {derived}"));
    for odd in ["\u{1}", "\u{7f}", "\u{9f}", "é", "\u{301}", "\u{200b}", "'", "\0\t\r"] {
        let changed = diff(odd, 7, "1", new(odd));
        let derived = format!("{changed:?}");
        let error = ListenerError::MissingOrder { diff: changed };
        assert_eq!(error.message(), format!("Unable to find order on the book {derived}"));
    }
    let error = ListenerError::MissingOrder { diff: diff("BTC", 7, "1", new("\u{1}")) };
    assert!(error.message().ends_with("raw_book_diff: New { sz: \"\\u{1}\" } }"));
    let error = ListenerError::MissingOpeningStatus { diff: diff("BTC", 7, "1", new("2")) };
    assert_eq!(
        error.message(),
        "Unable to find order opening status NodeDataOrderDiff { user: \
         0x0000000000000000000000000000000000000000, oid: 7, px: \"1\", coin: \"BTC\", \
         raw_book_diff: New { sz: \"2\" } }"
    );
}

#[test]
fn diffs_that_were_passed_over_are_reported_once_in_a_while() {
    let mut state = start(false);
    let block = || vec![diff("NEW", 5, "1", update("2")), diff("NEW", 6, "1", OrderDiff::Remove)];
    apply(&mut state, 11, vec![], block()).unwrap();
    let reports = state.take_skipped();
    assert_eq!(reports.len(), 1);
    assert_eq!(
        reports[0].message(),
        "Skipping Update for not-yet-grafted coin NEW oid 5 at block 11; waiting for \
         absorb_extra_books"
    );
    assert!(state.take_skipped().is_empty());
    for height in 12..211 {
        apply(&mut state, height, vec![], block()).unwrap();
    }
    assert!(state.take_skipped().is_empty());
    let removal = vec![diff("NEW", 6, "1", OrderDiff::Remove)];
    apply(&mut state, 211, vec![], removal).unwrap();
    let reports = state.take_skipped();
    assert_eq!(reports.len(), 1);
    assert_eq!(
        reports[0].message(),
        "Skipping Remove for not-yet-grafted coin NEW oid 6 at block 211; waiting for \
         absorb_extra_books"
    );
}

#[test]
fn a_block_does_the_same_without_its_spot_diffs() {
    let mut whole = start(true);
    let mut part = start(true);
    let kept = || diff("BTC", 1, "100", update("7"));
    let spot = || diff("@1", 9, "1", OrderDiff::Remove);
    apply(&mut whole, 11, vec![], vec![spot(), kept(), spot()]).unwrap();
    apply(&mut part, 11, vec![], vec![kept()]).unwrap();
    assert_eq!(bids(&whole, "BTC"), bids(&part, "BTC"));
    assert_eq!(whole.height(), part.height());
}

#[test]
fn spot_books_are_not_compared_where_they_are_ignored() {
    let local = snapshots(vec![("@1", vec![resting("@1", Side::Bid, 1, 1, 1)], vec![])]);
    let expected = || snapshots(vec![("@1", vec![resting("@1", Side::Bid, 1, 2, 1)], vec![])]);
    assert!(validate_snapshot_consistency(&local, expected(), true).is_ok());
    assert!(validate_snapshot_consistency(&local, expected(), false).is_err());
}
