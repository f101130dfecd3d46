use alloy::primitives::Address;
use order_book_listener::order_book::types::Side;
use order_book_listener::types::node_data::{FillsBySide, NodeDataFill};
use order_book_listener::types::{Fill, Trade};

fn fill(side: Side, tid: u64, coin: &str, crossed: bool) -> NodeDataFill {
    NodeDataFill(
        Address::ZERO,
        Fill {
            coin: coin.to_string(),
            px: "100".into(),
            sz: "1".into(),
            side,
            time: 0,
            start_position: "0".into(),
            dir: "Buy".into(),
            closed_pnl: "0".into(),
            hash: "0x0".into(),
            oid: 0,
            crossed,
            fee: "0".into(),
            tid,
            fee_token: "USDC".into(),
            liquidation: None,
        },
    )
}

#[test]
fn from_fills_ask_bid_pair_returns_trade() {
    let mut h = FillsBySide::new();
    h.insert(Side::Ask, fill(Side::Ask, 1, "BTC", true));
    h.insert(Side::Bid, fill(Side::Bid, 1, "BTC", false));
    let trade = Trade::from_fills(h).expect("normal Ask+Bid pair must produce a trade");
    assert_eq!(trade.tid, 1);
    assert_eq!(trade.coin, "BTC");
    // The ask took, so the trade is on the ask's side.
    assert_eq!(trade.side, Side::Ask);
}

#[test]
fn from_fills_bid_taker_records_bid_side() {
    let mut h = FillsBySide::new();
    h.insert(Side::Ask, fill(Side::Ask, 7, "ETH", false));
    h.insert(Side::Bid, fill(Side::Bid, 7, "ETH", true));
    let trade = Trade::from_fills(h).unwrap();
    assert_eq!(trade.side, Side::Bid);
}

#[test]
fn from_fills_missing_bid_returns_none() {
    let mut h = FillsBySide::new();
    h.insert(Side::Ask, fill(Side::Ask, 1, "BTC", true));
    assert!(Trade::from_fills(h).is_none());
}

#[test]
fn from_fills_missing_ask_returns_none() {
    let mut h = FillsBySide::new();
    h.insert(Side::Bid, fill(Side::Bid, 1, "BTC", false));
    assert!(Trade::from_fills(h).is_none());
}

#[test]
fn from_fills_mismatched_coin_returns_none() {
    let mut h = FillsBySide::new();
    h.insert(Side::Ask, fill(Side::Ask, 1, "BTC", true));
    h.insert(Side::Bid, fill(Side::Bid, 1, "ETH", false));
    assert!(Trade::from_fills(h).is_none());
}

#[test]
fn from_fills_mismatched_tid_returns_none() {
    let mut h = FillsBySide::new();
    h.insert(Side::Ask, fill(Side::Ask, 1, "BTC", true));
    h.insert(Side::Bid, fill(Side::Bid, 2, "BTC", false));
    assert!(Trade::from_fills(h).is_none());
}

#[test]
fn trade_tells_what_the_ask_says_and_the_buyer_first() {
    let seller = Address::repeat_byte(1);
    let buyer = Address::repeat_byte(2);
    let NodeDataFill(_, mut ask) = fill(Side::Ask, 5, "SOL", true);
    ask.px = "12.5".into();
    ask.sz = "3".into();
    ask.hash = "0xab".into();
    ask.time = 77;
    let mut fills = FillsBySide::new();
    fills.insert(Side::Bid, NodeDataFill(buyer, fill(Side::Bid, 5, "SOL", false).1));
    fills.insert(Side::Ask, NodeDataFill(seller, ask));
    let trade = Trade::from_fills(fills).unwrap();
    assert_eq!(trade.px, "12.5");
    assert_eq!(trade.sz, "3");
    assert_eq!(trade.hash, "0xab");
    assert_eq!(trade.time, 77);
    assert_eq!(trade.users, [buyer, seller]);
}

#[test]
fn a_later_fill_of_a_side_replaces_the_earlier() {
    let mut fills = FillsBySide::new();
    fills.insert(Side::Ask, fill(Side::Ask, 1, "BTC", true));
    fills.insert(Side::Bid, fill(Side::Bid, 9, "BTC", false));
    fills.insert(Side::Ask, fill(Side::Ask, 9, "BTC", false));
    let trade = Trade::from_fills(fills).unwrap();
    assert_eq!(trade.tid, 9);
    assert_eq!(trade.side, Side::Bid);
}
