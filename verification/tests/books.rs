use alloy::primitives::Address;
use order_book_listener::listeners::order_book::l2::{compute_l2_snapshots, L2SnapshotParams};
use order_book_listener::order_book::book::{OrderBook, Snapshot};
use order_book_listener::order_book::coin_map::CoinMap;
use order_book_listener::order_book::multi_book::{OrderBooks, Snapshots};
use order_book_listener::order_book::types::{Coin, Px, Side, Sz};
use order_book_listener::types::inner::{InnerL4Order, InnerLevel};
use order_book_listener::types::{L2Book, L4BookUpdates, Level};

const UNIT: u64 = 100_000_000;

fn order(coin: &str, side: Side, px: u64, sz: u64, oid: u64) -> InnerL4Order {
    InnerL4Order {
        user: Address::ZERO,
        coin: Coin::new(coin.to_string()),
        side,
        limit_px: Px { units: px },
        sz: Sz { units: sz },
        oid,
        timestamp: 0,
        trigger_condition: String::new(),
        is_trigger: false,
        trigger_px: String::new(),
        is_position_tpsl: false,
        reduce_only: false,
        order_type: "Limit".to_string(),
        tif: None,
        cloid: None,
    }
}

fn oids(orders: &[InnerL4Order]) -> Vec<u64> {
    orders.iter().map(|order| order.oid).collect()
}

#[test]
fn orders_stand_in_price_time_priority() {
    let mut book = OrderBook::new();
    for (side, px, oid) in [
        (Side::Bid, 100, 1),
        (Side::Bid, 101, 2),
        (Side::Bid, 100, 3),
        (Side::Ask, 105, 4),
        (Side::Ask, 103, 5),
        (Side::Ask, 105, 6),
        (Side::Ask, 104, 7),
    ] {
        book.add_order(order("BTC", side, px, 1, oid));
    }
    assert_eq!(oids(book.bids()), vec![2, 1, 3]);
    assert_eq!(oids(book.asks()), vec![5, 7, 4, 6]);
}

#[test]
fn a_change_of_size_keeps_the_place() {
    let mut book = OrderBook::new();
    book.add_order(order("BTC", Side::Bid, 100, 1, 1));
    book.add_order(order("BTC", Side::Bid, 100, 1, 2));
    assert!(book.modify_sz(1, Sz { units: 9 }));
    assert!(!book.modify_sz(77, Sz { units: 9 }));
    assert_eq!(oids(book.bids()), vec![1, 2]);
    assert_eq!(book.bids()[0].sz, Sz { units: 9 });
    assert_eq!(book.bids()[1].sz, Sz { units: 1 });
}

#[test]
fn an_order_that_comes_and_goes_leaves_the_book_as_it_was() {
    let mut book = OrderBook::new();
    book.add_order(order("BTC", Side::Ask, 100, 1, 1));
    book.add_order(order("BTC", Side::Ask, 102, 1, 2));
    book.add_order(order("BTC", Side::Ask, 101, 1, 3));
    assert!(book.cancel_order(3));
    assert!(!book.cancel_order(3));
    assert_eq!(oids(book.asks()), vec![1, 2]);
}

#[test]
fn a_snapshot_gives_the_book_back() {
    let mut book = OrderBook::new();
    book.add_order(order("BTC", Side::Bid, 100, 1, 1));
    book.add_order(order("BTC", Side::Bid, 99, 2, 2));
    book.add_order(order("BTC", Side::Ask, 101, 3, 3));
    let again = OrderBook::from_snapshot(book.to_snapshot(), true);
    assert!(*again.bids() == *book.bids());
    assert!(*again.asks() == *book.asks());
}

#[test]
fn trigger_orders_are_left_out_where_asked() {
    let mut waiting = order("BTC", Side::Bid, 100, 1, 1);
    waiting.is_trigger = true;
    let snapshot = || Snapshot {
        bids: vec![waiting.clone(), order("BTC", Side::Bid, 99, 1, 2)],
        asks: vec![],
    };
    assert_eq!(oids(OrderBook::from_snapshot(snapshot(), true).bids()), vec![2]);
    assert_eq!(oids(OrderBook::from_snapshot(snapshot(), false).bids()), vec![1, 2]);
}

#[test]
fn orders_are_equal_by_all_that_they_say() {
    let first = order("BTC", Side::Bid, 100, 1, 1);
    assert!(first == first.clone());
    let mut other = first.clone();
    other.user = Address::repeat_byte(1);
    assert!(first != other);
    let mut other = first.clone();
    other.coin = Coin::new("ETH".to_string());
    assert!(first != other);
    let mut other = first.clone();
    other.cloid = Some("0x1".to_string());
    assert!(first != other);
    let mut other = first.clone();
    other.timestamp = 1;
    assert!(first != other);
}

#[test]
fn a_coin_map_keeps_the_last_value() {
    let btc = Coin::new("BTC".to_string());
    let eth = Coin::new("ETH".to_string());
    let mut map: CoinMap<u64> = CoinMap::new();
    map.insert(btc.clone(), 1);
    map.insert(eth.clone(), 2);
    map.insert(btc.clone(), 3);
    assert_eq!(map.len(), 2);
    assert_eq!(map.get(&btc), Some(&3));
    assert_eq!(map.remove(&btc), Some(3));
    assert_eq!(map.remove(&btc), None);
    assert!(!map.contains(&btc));
    assert_eq!(map.get(&eth), Some(&2));
}

fn books() -> OrderBooks {
    let mut snapshots = CoinMap::new();
    snapshots.insert(
        Coin::new("BTC".to_string()),
        Snapshot {
            bids: vec![
                order("BTC", Side::Bid, 65_432 * UNIT, 2 * UNIT, 1),
                order("BTC", Side::Bid, 65_432 * UNIT, 3 * UNIT, 2),
                order("BTC", Side::Bid, 65_431 * UNIT, UNIT, 3),
            ],
            asks: vec![
                order("BTC", Side::Ask, 65_433 * UNIT, UNIT, 4),
                order("BTC", Side::Ask, 65_440 * UNIT, UNIT, 5),
            ],
        },
    );
    snapshots.insert(
        Coin::new("ETH".to_string()),
        Snapshot { bids: vec![], asks: vec![order("ETH", Side::Ask, 3_000 * UNIT, UNIT, 6)] },
    );
    OrderBooks::from_snapshots(Snapshots::new(snapshots), true)
}

fn level(px: u64, sz: u64, n: usize) -> InnerLevel {
    InnerLevel { px: u128::from(px * UNIT), sz: u128::from(sz * UNIT), n }
}

#[test]
fn views_add_up_the_orders_at_each_rounding() {
    let all = compute_l2_snapshots(&books());
    let views = all.as_ref().get(&Coin::new("BTC".to_string())).unwrap();
    let at = |figures: Option<u32>, mantissa: Option<u64>| {
        let view = views.get(&L2SnapshotParams::new(figures, mantissa)).unwrap();
        (view.bids.clone(), view.asks.clone())
    };
    assert_eq!(
        at(None, None),
        (
            vec![level(65_432, 5, 2), level(65_431, 1, 1)],
            vec![level(65_433, 1, 1), level(65_440, 1, 1)],
        )
    );
    assert_eq!(
        at(Some(5), Some(2)),
        (
            vec![level(65_432, 5, 2), level(65_430, 1, 1)],
            vec![level(65_434, 1, 1), level(65_440, 1, 1)],
        )
    );
    assert_eq!(
        at(Some(5), Some(5)),
        (vec![level(65_430, 6, 3)], vec![level(65_435, 1, 1), level(65_440, 1, 1)])
    );
    assert_eq!(at(Some(4), None), (vec![level(65_430, 6, 3)], vec![level(65_440, 2, 2)]));
    assert_eq!(at(Some(3), None), (vec![level(65_400, 6, 3)], vec![level(65_500, 2, 2)]));
    assert_eq!(at(Some(2), None), (vec![level(65_000, 6, 3)], vec![level(66_000, 2, 2)]));
}

#[test]
fn only_the_published_roundings_have_a_view() {
    let all = compute_l2_snapshots(&books());
    assert_eq!(all.as_ref().len(), 2);
    let views = all.as_ref().get(&Coin::new("ETH".to_string())).unwrap();
    for (figures, mantissa) in
        [(None, None), (Some(5), None), (Some(5), Some(2)), (Some(5), Some(5)), (Some(2), None)]
    {
        assert!(views.get(&L2SnapshotParams::new(figures, mantissa)).is_some());
    }
    for (figures, mantissa) in
        [(None, Some(2)), (Some(1), None), (Some(6), None), (Some(4), Some(2)), (Some(5), Some(1))]
    {
        assert!(views.get(&L2SnapshotParams::new(figures, mantissa)).is_none());
    }
}

#[test]
fn snapshots_of_all_books_are_taken() {
    let books = books();
    let snapshots = books.to_snapshots_par();
    assert_eq!(snapshots.as_ref().len(), 2);
    let btc = snapshots.as_ref().get(&Coin::new("BTC".to_string())).unwrap();
    assert_eq!(oids(&btc.bids), vec![1, 2, 3]);
    assert_eq!(oids(&btc.asks), vec![4, 5]);
}

#[test]
fn messages_are_made_of_their_parts() {
    let level = Level::new("1".to_string(), "2".to_string(), 3);
    assert_eq!(level.n, 3);
    let book = L2Book::from_l2_snapshot("BTC".to_string(), [vec![level], vec![]], 9);
    assert_eq!(book.coin, "BTC");
    assert_eq!(book.time, 9);
    assert_eq!(book.levels[0][0].px, "1");
    assert!(book.levels[1].is_empty());
    let updates = L4BookUpdates::new(5, 6);
    assert_eq!((updates.time, updates.height), (5, 6));
    assert!(updates.order_statuses.is_empty() && updates.book_diffs.is_empty());
}
