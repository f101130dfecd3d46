//! What the node writes to its data directories, block by block.

use crate::order_book::types::{Coin, Side};
use crate::types::{Fill, L4Order, OrderDiff};
use alloy::primitives::Address;
use vstd::prelude::*;

verus! {

/// The three streams that the node writes.
#[derive(Clone, Copy, Debug, PartialEq, Eq, Structural)]
pub enum EventSource {
    Fills,
    OrderStatuses,
    OrderDiffs,
}

/// The events of one block in one stream.
#[derive(Debug)]
pub struct Batch<E> {
    block_number: u64,
    block_time: u64,
    events: Vec<E>,
}

/// The block, its time in milliseconds since the epoch, and its events.
pub ghost struct BatchView<E> {
    pub number: u64,
    pub time: u64,
    pub events: Seq<E>,
}

impl<E> View for Batch<E> {
    type V = BatchView<E>;

    closed spec fn view(&self) -> BatchView<E> {
        BatchView { number: self.block_number, time: self.block_time, events: self.events@ }
    }
}

impl<E> Batch<E> {
    pub fn new(block_number: u64, block_time: u64, events: Vec<E>) -> (batch: Batch<E>)
        ensures
            batch@.number == block_number,
            batch@.time == block_time,
            batch@.events == events@,
    {
        Batch { block_number, block_time, events }
    }

    pub fn block_number(&self) -> (number: u64)
        ensures
            number == self@.number,
    {
        self.block_number
    }

    pub fn block_time(&self) -> (time: u64)
        ensures
            time == self@.time,
    {
        self.block_time
    }

    pub fn events(self) -> (events: Vec<E>)
        ensures
            events@ == self@.events,
    {
        self.events
    }
}

impl Clone for Batch<NodeDataOrderStatus> {
    fn clone(&self) -> (copy: Batch<NodeDataOrderStatus>)
        ensures
            copy@ == self@,
    {
        let events = self.events.clone();
        assert(events@ =~= self.events@);
        Batch { block_number: self.block_number, block_time: self.block_time, events }
    }
}

impl Clone for Batch<NodeDataOrderDiff> {
    fn clone(&self) -> (copy: Batch<NodeDataOrderDiff>)
        ensures
            copy@ == self@,
    {
        let events = self.events.clone();
        assert(events@ =~= self.events@);
        Batch { block_number: self.block_number, block_time: self.block_time, events }
    }
}

/// A fill and the account that it belongs to.
#[derive(Debug)]
pub struct NodeDataFill(pub Address, pub Fill);

/// At most one fill of each side.
#[derive(Debug)]
pub struct FillsBySide {
    pub ask: Option<NodeDataFill>,
    pub bid: Option<NodeDataFill>,
}

impl FillsBySide {
    pub fn new() -> (fills: FillsBySide)
        ensures
            fills.ask is None,
            fills.bid is None,
    {
        FillsBySide { ask: None, bid: None }
    }

    /// Puts a fill in, in place of the one that the side had.
    pub fn insert(&mut self, side: Side, fill: NodeDataFill)
        ensures
            side == Side::Ask ==> final(self).ask == Some(fill) && final(self).bid == old(self).bid,
            side == Side::Bid ==> final(self).bid == Some(fill) && final(self).ask == old(self).ask,
    {
        match side {
            Side::Ask => {
                self.ask = Some(fill);
            },
            Side::Bid => {
                self.bid = Some(fill);
            },
        }
    }
}

/// A change of an order's status.
#[derive(Debug)]
pub struct NodeDataOrderStatus {
    /// Milliseconds since the epoch.
    pub time: u64,
    pub user: Address,
    pub status: String,
    pub order: L4Order,
}

impl Clone for NodeDataOrderStatus {
    fn clone(&self) -> (copy: NodeDataOrderStatus)
        ensures
            copy == *self,
    {
        NodeDataOrderStatus {
            time: self.time,
            user: self.user,
            status: self.status.clone(),
            order: self.order.clone(),
        }
    }
}

/// The time in force of an order that must fill at once.
pub open spec fn is_immediate(tif: Option<String>) -> bool {
    tif matches Some(tif) && tif@ == "Ioc"@
}

/// The status says that the order now rests on the book: an ordinary order that was opened
/// and may rest, or a trigger order that was triggered.
pub open spec fn enters_book(status: NodeDataOrderStatus) -> bool {
    if status.order.is_trigger {
        status.status@ == "triggered"@
    } else {
        status.status@ == "open"@ && !is_immediate(status.order.tif)
    }
}

impl NodeDataOrderStatus {
    pub fn is_inserted_into_book(&self) -> (inserted: bool)
        ensures
            inserted == enters_book(*self),
    {
        if self.order.is_trigger {
            let triggered: String = "triggered".to_string();
            self.status == triggered
        } else {
            let open: String = "open".to_string();
            let ioc: String = "Ioc".to_string();
            let immediate = match &self.order.tif {
                Some(tif) => *tif == ioc,
                None => false,
            };
            self.status == open && !immediate
        }
    }
}

/// A change of an order on the book.
#[derive(Debug)]
pub struct NodeDataOrderDiff {
    pub user: Address,
    pub oid: u64,
    pub px: String,
    pub coin: String,
    pub raw_book_diff: OrderDiff,
}

impl Clone for NodeDataOrderDiff {
    fn clone(&self) -> (copy: NodeDataOrderDiff)
        ensures
            copy == *self,
    {
        NodeDataOrderDiff {
            user: self.user,
            oid: self.oid,
            px: self.px.clone(),
            coin: self.coin.clone(),
            raw_book_diff: self.raw_book_diff.clone(),
        }
    }
}

impl NodeDataOrderDiff {
    pub fn coin(&self) -> (coin: Coin)
        ensures
            coin@ == self.coin@,
    {
        Coin::new(self.coin.clone())
    }
}

} // verus!
