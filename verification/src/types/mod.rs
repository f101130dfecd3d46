//! The messages that the node writes and the subscribers read.

use crate::order_book::types::Side;
use crate::types::node_data::{FillsBySide, NodeDataFill, NodeDataOrderDiff, NodeDataOrderStatus};
use alloy::primitives::Address;
use vstd::prelude::*;

pub mod inner;
pub mod node_data;
pub mod order_laws;
pub mod trade_laws;

verus! {

/// A trade between two accounts.
#[derive(Debug)]
pub struct Trade {
    pub coin: String,
    pub side: Side,
    pub px: String,
    pub sz: String,
    pub hash: String,
    pub time: u64,
    pub tid: u64,
    /// The buyer, then the seller.
    pub users: [Address; 2],
}

/// One price level of an aggregated book.
#[derive(Debug, PartialEq, Eq)]
pub struct Level {
    pub px: String,
    pub sz: String,
    pub n: usize,
}

impl Level {
    pub fn new(px: String, sz: String, n: usize) -> (level: Level)
        ensures
            level.px == px,
            level.sz == sz,
            level.n == n,
    {
        Level { px, sz, n }
    }
}

/// An aggregated book at a point in time.
#[derive(Debug)]
pub struct L2Book {
    pub coin: String,
    pub time: u64,
    pub levels: [Vec<Level>; 2],
}

impl L2Book {
    pub fn from_l2_snapshot(coin: String, snapshot: [Vec<Level>; 2], time: u64) -> (book: L2Book)
        ensures
            book.coin == coin,
            book.time == time,
            book.levels == snapshot,
    {
        L2Book { coin, time, levels: snapshot }
    }
}

/// A book order by order: all of it, or what changed.
#[derive(Debug)]
pub enum L4Book {
    Snapshot { coin: String, time: u64, height: u64, levels: [Vec<L4Order>; 2] },
    Updates(L4BookUpdates),
}

/// A fill of each side that trades with the other.
pub open spec fn fills_match(ask: NodeDataFill, bid: NodeDataFill) -> bool {
    &&& ask.1.coin@ == bid.1.coin@
    &&& ask.1.tid == bid.1.tid
}

/// The trade that a matching pair of fills makes: what the ask's fill says, the side of the
/// taker, the buyer before the seller.
pub open spec fn is_trade_of(trade: Trade, ask: NodeDataFill, bid: NodeDataFill) -> bool {
    &&& trade.coin@ == ask.1.coin@
    &&& trade.side == if ask.1.crossed {
        Side::Ask
    } else {
        Side::Bid
    }
    &&& trade.px == ask.1.px
    &&& trade.sz == ask.1.sz
    &&& trade.hash == ask.1.hash
    &&& trade.time == ask.1.time
    &&& trade.tid == ask.1.tid
    &&& trade.users@ == seq![bid.0, ask.0]
}

/// The fills make a trade: there is one of each side, and they match.
pub open spec fn makes_trade(fills: FillsBySide) -> bool {
    fills.ask is Some && fills.bid is Some && fills_match(fills.ask->0, fills.bid->0)
}

impl Trade {
    /// Builds a trade from a pair of fills, one of each side, that share coin and trade id.
    ///
    /// Fills can arrive with one side only (a self-trade, the bookkeeping of a liquidation);
    /// such a set, and one whose sides disagree on coin or trade id, makes no trade.
    pub fn from_fills(fills: FillsBySide) -> (trade: Option<Trade>)
        ensures
            trade is Some <==> {
                &&& fills.ask is Some
                &&& fills.bid is Some
                &&& fills_match(fills.ask->0, fills.bid->0)
            },
            trade is Some <==> makes_trade(fills),
            trade matches Some(trade) ==> is_trade_of(trade, fills.ask->0, fills.bid->0),
            trade matches Some(trade) ==> trade.users@[0] == (fills.bid->0).0,
            trade matches Some(trade) ==> trade.users@[1] == (fills.ask->0).0,
    {
        let (seller, ask_fill) = match fills.ask {
            Some(NodeDataFill(seller, ask_fill)) => (seller, ask_fill),
            None => {
                return None;
            },
        };
        let (buyer, bid_fill) = match fills.bid {
            Some(NodeDataFill(buyer, bid_fill)) => (buyer, bid_fill),
            None => {
                return None;
            },
        };
        if ask_fill.coin != bid_fill.coin || ask_fill.tid != bid_fill.tid {
            return None;
        }
        let ask_is_taker = ask_fill.crossed;
        let side = if ask_is_taker {
            Side::Ask
        } else {
            Side::Bid
        };
        let users = [buyer, seller];
        assert(users@ =~= seq![buyer, seller]);
        Some(
            Trade {
                coin: ask_fill.coin,
                side,
                px: ask_fill.px,
                sz: ask_fill.sz,
                hash: ask_fill.hash,
                time: ask_fill.time,
                tid: ask_fill.tid,
                users,
            },
        )
    }
}

/// What changed in the books in one block.
#[derive(Debug)]
pub struct L4BookUpdates {
    pub time: u64,
    pub height: u64,
    pub order_statuses: Vec<NodeDataOrderStatus>,
    pub book_diffs: Vec<NodeDataOrderDiff>,
}

impl L4BookUpdates {
    pub fn new(time: u64, height: u64) -> (updates: L4BookUpdates)
        ensures
            updates.time == time,
            updates.height == height,
            updates.order_statuses@ == Seq::<NodeDataOrderStatus>::empty(),
            updates.book_diffs@ == Seq::<NodeDataOrderDiff>::empty(),
    {
        L4BookUpdates { time, height, order_statuses: Vec::new(), book_diffs: Vec::new() }
    }
}

/// An order as the node writes it.
#[derive(Debug)]
pub struct L4Order {
    /// Stands outside the order in the node's own format.
    pub user: Option<Address>,
    pub coin: String,
    pub side: Side,
    pub limit_px: String,
    pub sz: String,
    pub oid: u64,
    pub timestamp: u64,
    pub trigger_condition: String,
    pub is_trigger: bool,
    pub trigger_px: String,
    pub is_position_tpsl: bool,
    pub reduce_only: bool,
    pub order_type: String,
    pub tif: Option<String>,
    pub cloid: Option<String>,
}

/// A copy of an optional text.
pub(crate) fn copy_text(text: &Option<String>) -> (copy: Option<String>)
    ensures
        copy == *text,
{
    match text {
        Some(text) => Some(text.clone()),
        None => None,
    }
}

impl Clone for L4Order {
    fn clone(&self) -> (copy: L4Order)
        ensures
            copy == *self,
    {
        L4Order {
            user: self.user,
            coin: self.coin.clone(),
            side: self.side,
            limit_px: self.limit_px.clone(),
            sz: self.sz.clone(),
            oid: self.oid,
            timestamp: self.timestamp,
            trigger_condition: self.trigger_condition.clone(),
            is_trigger: self.is_trigger,
            trigger_px: self.trigger_px.clone(),
            is_position_tpsl: self.is_position_tpsl,
            reduce_only: self.reduce_only,
            order_type: self.order_type.clone(),
            tif: copy_text(&self.tif),
            cloid: copy_text(&self.cloid),
        }
    }
}

/// What happened to an order on the book, in the node's words.
#[derive(Debug)]
pub enum OrderDiff {
    New { sz: String },
    Update { orig_sz: String, new_sz: String },
    Remove,
}

impl Clone for OrderDiff {
    fn clone(&self) -> (copy: OrderDiff)
        ensures
            copy == *self,
    {
        match self {
            OrderDiff::New { sz } => OrderDiff::New { sz: sz.clone() },
            OrderDiff::Update { orig_sz, new_sz } => OrderDiff::Update {
                orig_sz: orig_sz.clone(),
                new_sz: new_sz.clone(),
            },
            OrderDiff::Remove => OrderDiff::Remove,
        }
    }
}

/// One account's part of a trade.
#[derive(Debug)]
pub struct Fill {
    pub coin: String,
    pub px: String,
    pub sz: String,
    pub side: Side,
    pub time: u64,
    pub start_position: String,
    pub dir: String,
    pub closed_pnl: String,
    pub hash: String,
    pub oid: u64,
    pub crossed: bool,
    pub fee: String,
    pub tid: u64,
    pub fee_token: String,
    pub liquidation: Option<Liquidation>,
}

/// The liquidation that a fill was part of.
#[derive(Debug)]
pub struct Liquidation {
    pub liquidated_user: String,
    pub mark_px: String,
    pub method: String,
}

} // verus!
