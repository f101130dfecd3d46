//! What a trade says of the two fills that make it.

use crate::order_book::types::Side;
use crate::types::node_data::{FillsBySide, NodeDataFill};
use crate::types::{fills_match, is_trade_of, makes_trade, Trade};
use vstd::prelude::*;

verus! {

/// Of every trade the first account is the one that bought and the second the one that sold,
/// whichever of them took.
pub proof fn lemma_buyer_stands_first(trade: Trade, ask: NodeDataFill, bid: NodeDataFill)
    requires
        is_trade_of(trade, ask, bid),
    ensures
        trade.users@.len() == 2,
        trade.users@[0] == bid.0,
        trade.users@[1] == ask.0,
{
}

/// The side of a trade is that of the taker: it sold exactly where the ask's fill crossed.
pub proof fn lemma_side_is_the_takers(trade: Trade, ask: NodeDataFill, bid: NodeDataFill)
    requires
        is_trade_of(trade, ask, bid),
    ensures
        trade.side == Side::Ask <==> ask.1.crossed,
        trade.side == Side::Bid <==> !ask.1.crossed,
{
}

/// A trade says of itself what the seller's fill says: market, price, size, transaction, time and
/// number.
pub proof fn lemma_trade_is_as_the_ask_says(trade: Trade, ask: NodeDataFill, bid: NodeDataFill)
    requires
        is_trade_of(trade, ask, bid),
    ensures
        trade.coin@ == ask.1.coin@,
        trade.px@ == ask.1.px@,
        trade.sz@ == ask.1.sz@,
        trade.hash@ == ask.1.hash@,
        trade.time == ask.1.time,
        trade.tid == ask.1.tid,
{
}

/// Two trades of the same fills say the same.
pub proof fn lemma_fills_make_one_trade(
    a: Trade,
    b: Trade,
    ask: NodeDataFill,
    bid: NodeDataFill,
)
    requires
        is_trade_of(a, ask, bid),
        is_trade_of(b, ask, bid),
    ensures
        a.coin@ == b.coin@,
        a.side == b.side,
        a.px@ == b.px@,
        a.sz@ == b.sz@,
        a.hash@ == b.hash@,
        a.time == b.time,
        a.tid == b.tid,
        a.users@ == b.users@,
{
}

/// Two fills match by their market and their trade number alone: not by accounts, prices or
/// sizes. It makes no difference which of them is looked at first.
pub proof fn lemma_fills_match_by_market_and_number(ask: NodeDataFill, bid: NodeDataFill)
    ensures
        ask.1.coin@ == bid.1.coin@ && ask.1.tid == bid.1.tid ==> fills_match(ask, bid),
        ask.1.coin@ != bid.1.coin@ ==> !fills_match(ask, bid),
        ask.1.tid != bid.1.tid ==> !fills_match(ask, bid),
        fills_match(ask, bid) == fills_match(bid, ask),
{
}

/// A fill of each side makes a trade where market and trade number are the same, whoever they
/// belong to and whatever else they say. One side alone makes none.
pub proof fn lemma_which_fills_make_a_trade(fills: FillsBySide, ask: NodeDataFill, bid: NodeDataFill)
    ensures
        fills.ask is None || fills.bid is None ==> !makes_trade(fills),
        fills.ask == Some(ask) && fills.bid == Some(bid) ==> (makes_trade(fills) <==> ask.1.coin@
            == bid.1.coin@ && ask.1.tid == bid.1.tid),
{
}

} // verus!
