//! The book of one coin: its resting orders, in price-time priority.

use crate::order_book::types::{Px, Side, Sz};
use crate::types::inner::{InnerL4Order, OrderView};
use vstd::prelude::*;

verus! {

/// The resting orders of a coin, best price first on each side, and first come first at a price.
#[verifier::ext_equal]
pub ghost struct BookView {
    pub bids: Seq<OrderView>,
    pub asks: Seq<OrderView>,
}

/// What each of some orders says.
pub open spec fn order_views(orders: Seq<InnerL4Order>) -> Seq<OrderView> {
    orders.map_values(|order: InnerL4Order| order@)
}

/// An order at price `a` is served before a later one at price `b`.
pub open spec fn goes_first(side: Side, a: u64, b: u64) -> bool {
    match side {
        Side::Ask => a <= b,
        Side::Bid => a >= b,
    }
}

/// Where a new order at price `px` queues up: behind the leading orders that go first.
pub open spec fn queue_place(orders: Seq<OrderView>, side: Side, px: u64) -> nat
    decreases orders.len(),
{
    if orders.len() == 0 || !goes_first(side, orders[0].limit_px, px) {
        0
    } else {
        1 + queue_place(orders.drop_first(), side, px)
    }
}

/// The position of the first order with id `oid`, or the number of orders.
pub open spec fn place_of(orders: Seq<OrderView>, oid: u64) -> nat
    decreases orders.len(),
{
    if orders.len() == 0 || orders[0].oid == oid {
        0
    } else {
        1 + place_of(orders.drop_first(), oid)
    }
}

impl BookView {
    pub open spec fn empty() -> BookView {
        BookView { bids: Seq::empty(), asks: Seq::empty() }
    }

    /// The book with one more order.
    pub open spec fn with_order(self, order: OrderView) -> BookView {
        match order.side {
            Side::Bid => BookView {
                bids: self.bids.insert(
                    queue_place(self.bids, Side::Bid, order.limit_px) as int,
                    order,
                ),
                ..self
            },
            Side::Ask => BookView {
                asks: self.asks.insert(
                    queue_place(self.asks, Side::Ask, order.limit_px) as int,
                    order,
                ),
                ..self
            },
        }
    }

    /// An order with id `oid` rests on the book.
    pub open spec fn holds(self, oid: u64) -> bool {
        place_of(self.bids, oid) < self.bids.len() || place_of(self.asks, oid) < self.asks.len()
    }

    /// The book with another size for the order with id `oid`.
    pub open spec fn with_size(self, oid: u64, sz: u64) -> BookView {
        let bid = place_of(self.bids, oid) as int;
        let ask = place_of(self.asks, oid) as int;
        if bid < self.bids.len() {
            BookView {
                bids: self.bids.update(bid, OrderView { sz, ..self.bids[bid] }),
                ..self
            }
        } else if ask < self.asks.len() {
            BookView {
                asks: self.asks.update(ask, OrderView { sz, ..self.asks[ask] }),
                ..self
            }
        } else {
            self
        }
    }

    /// The book without the order with id `oid`.
    pub open spec fn without(self, oid: u64) -> BookView {
        let bid = place_of(self.bids, oid) as int;
        let ask = place_of(self.asks, oid) as int;
        if bid < self.bids.len() {
            BookView { bids: self.bids.remove(bid), ..self }
        } else if ask < self.asks.len() {
            BookView { asks: self.asks.remove(ask), ..self }
        } else {
            self
        }
    }

    /// The book with some more orders, one after the other, trigger orders left out where asked.
    pub open spec fn with_orders(self, orders: Seq<OrderView>, ignore_triggers: bool) -> BookView
        decreases orders.len(),
    {
        if orders.len() == 0 {
            self
        } else {
            let before = self.with_orders(orders.drop_last(), ignore_triggers);
            if ignore_triggers && orders.last().is_trigger {
                before
            } else {
                before.with_order(orders.last())
            }
        }
    }

    /// The book that is built from the orders of a snapshot.
    pub open spec fn loaded(self, ignore_triggers: bool) -> BookView {
        BookView::empty().with_orders(self.bids, ignore_triggers).with_orders(
            self.asks,
            ignore_triggers,
        )
    }

    /// Every order stands on its own side, and each side is in price order.
    pub open spec fn in_priority(self) -> bool {
        &&& side_in_priority(self.bids, Side::Bid)
        &&& side_in_priority(self.asks, Side::Ask)
    }

    /// No order waits for a trigger.
    pub open spec fn has_no_triggers(self) -> bool {
        &&& forall|i: int| 0 <= i < self.bids.len() ==> !(#[trigger] self.bids[i]).is_trigger
        &&& forall|i: int| 0 <= i < self.asks.len() ==> !(#[trigger] self.asks[i]).is_trigger
    }
}

/// The orders are of the side, and in its price order.
pub open spec fn side_in_priority(orders: Seq<OrderView>, side: Side) -> bool {
    &&& forall|i: int| 0 <= i < orders.len() ==> (#[trigger] orders[i]).side == side
    &&& forall|i: int, j: int|
        0 <= i < j < orders.len() ==> goes_first(
            side,
            (#[trigger] orders[i]).limit_px,
            (#[trigger] orders[j]).limit_px,
        )
}

proof fn lemma_queue_place(orders: Seq<OrderView>, side: Side, px: u64, at: int)
    requires
        0 <= at <= orders.len(),
        forall|i: int| 0 <= i < at ==> goes_first(side, (#[trigger] orders[i]).limit_px, px),
        at < orders.len() ==> !goes_first(side, orders[at].limit_px, px),
    ensures
        queue_place(orders, side, px) == at,
    decreases at,
{
    if at > 0 {
        let rest = orders.drop_first();
        assert forall|i: int| 0 <= i < at - 1 implies goes_first(
            side,
            (#[trigger] rest[i]).limit_px,
            px,
        ) by {
            assert(rest[i] == orders[i + 1]);
        }
        assert(orders[0].limit_px == orders[0].limit_px);
        lemma_queue_place(rest, side, px, at - 1);
    }
}

proof fn lemma_queue_place_bounds(orders: Seq<OrderView>, side: Side, px: u64)
    ensures
        queue_place(orders, side, px) <= orders.len(),
        forall|i: int|
            0 <= i < queue_place(orders, side, px) ==> goes_first(
                side,
                (#[trigger] orders[i]).limit_px,
                px,
            ),
        queue_place(orders, side, px) < orders.len() ==> !goes_first(
            side,
            orders[queue_place(orders, side, px) as int].limit_px,
            px,
        ),
    decreases orders.len(),
{
    if orders.len() > 0 && goes_first(side, orders[0].limit_px, px) {
        let rest = orders.drop_first();
        lemma_queue_place_bounds(rest, side, px);
        assert forall|i: int| 0 <= i < queue_place(orders, side, px) implies goes_first(
            side,
            (#[trigger] orders[i]).limit_px,
            px,
        ) by {
            if i > 0 {
                assert(orders[i] == rest[i - 1]);
            }
        }
    }
}

proof fn lemma_place_of(orders: Seq<OrderView>, oid: u64, at: int)
    requires
        0 <= at <= orders.len(),
        forall|i: int| 0 <= i < at ==> (#[trigger] orders[i]).oid != oid,
        at < orders.len() ==> orders[at].oid == oid,
    ensures
        place_of(orders, oid) == at,
    decreases at,
{
    if at > 0 {
        let rest = orders.drop_first();
        assert forall|i: int| 0 <= i < at - 1 implies (#[trigger] rest[i]).oid != oid by {
            assert(rest[i] == orders[i + 1]);
        }
        assert(orders[0].oid != oid);
        lemma_place_of(rest, oid, at - 1);
    }
}

proof fn lemma_place_of_bounds(orders: Seq<OrderView>, oid: u64)
    ensures
        place_of(orders, oid) <= orders.len(),
        place_of(orders, oid) < orders.len() ==> orders[place_of(orders, oid) as int].oid == oid,
    decreases orders.len(),
{
    if orders.len() > 0 && orders[0].oid != oid {
        lemma_place_of_bounds(orders.drop_first(), oid);
    }
}

proof fn lemma_side_insert(orders: Seq<OrderView>, order: OrderView)
    requires
        side_in_priority(orders, order.side),
    ensures
        side_in_priority(
            orders.insert(
                queue_place(orders, order.side, order.limit_px) as int,
                order,
            ),
            order.side,
        ),
{
    let side = order.side;
    let at = queue_place(orders, side, order.limit_px) as int;
    lemma_queue_place_bounds(orders, side, order.limit_px);
    let after = orders.insert(at, order);
    assert forall|i: int| 0 <= i < after.len() implies (#[trigger] after[i]).side == side by {
        if i < at {
            assert(after[i] == orders[i]);
        } else if i > at {
            assert(after[i] == orders[i - 1]);
        }
    }
    assert forall|i: int, j: int| 0 <= i < j < after.len() implies goes_first(
        side,
        (#[trigger] after[i]).limit_px,
        (#[trigger] after[j]).limit_px,
    ) by {
        if i < at {
            assert(after[i] == orders[i]);
            if j < at {
                assert(after[j] == orders[j]);
            } else if j > at {
                assert(after[j] == orders[j - 1]);
            }
        } else {
            assert(after[j] == orders[j - 1]);
            if i == at {
                // The first order behind the new one does not go first, and all others stand
                // behind that one.
                assert(!goes_first(side, orders[at].limit_px, order.limit_px));
                if j - 1 > at {
                    assert(goes_first(side, orders[at].limit_px, orders[j - 1].limit_px));
                }
            } else {
                assert(after[i] == orders[i - 1]);
            }
        }
    }
}

/// A new order keeps the book in priority.
pub proof fn lemma_with_order_in_priority(book: BookView, order: OrderView)
    requires
        book.in_priority(),
    ensures
        book.with_order(order).in_priority(),
{
    match order.side {
        Side::Bid => lemma_side_insert(book.bids, order),
        Side::Ask => lemma_side_insert(book.asks, order),
    }
}

/// A change of size keeps the book in priority.
pub proof fn lemma_with_size_in_priority(book: BookView, oid: u64, sz: u64)
    requires
        book.in_priority(),
    ensures
        book.with_size(oid, sz).in_priority(),
{
    let after = book.with_size(oid, sz);
    assert forall|i: int| 0 <= i < after.bids.len() implies (#[trigger] after.bids[i]).side
        == book.bids[i].side && after.bids[i].limit_px == book.bids[i].limit_px by {}
    assert forall|i: int| 0 <= i < after.asks.len() implies (#[trigger] after.asks[i]).side
        == book.asks[i].side && after.asks[i].limit_px == book.asks[i].limit_px by {}
}

proof fn lemma_side_remove(orders: Seq<OrderView>, side: Side, at: int)
    requires
        side_in_priority(orders, side),
        0 <= at < orders.len(),
    ensures
        side_in_priority(orders.remove(at), side),
{
    let after = orders.remove(at);
    assert forall|i: int| 0 <= i < after.len() implies #[trigger] after[i] == orders[if i < at {
        i
    } else {
        i + 1
    }] by {}
}

/// A removal keeps the book in priority.
pub proof fn lemma_without_in_priority(book: BookView, oid: u64)
    requires
        book.in_priority(),
    ensures
        book.without(oid).in_priority(),
{
    let bid = place_of(book.bids, oid) as int;
    let ask = place_of(book.asks, oid) as int;
    if bid < book.bids.len() {
        lemma_side_remove(book.bids, Side::Bid, bid);
    } else if ask < book.asks.len() {
        lemma_side_remove(book.asks, Side::Ask, ask);
    }
}

proof fn lemma_with_orders_in_priority(
    book: BookView,
    orders: Seq<OrderView>,
    ignore_triggers: bool,
)
    requires
        book.in_priority(),
    ensures
        book.with_orders(orders, ignore_triggers).in_priority(),
    decreases orders.len(),
{
    if orders.len() > 0 {
        lemma_with_orders_in_priority(book, orders.drop_last(), ignore_triggers);
        lemma_with_order_in_priority(
            book.with_orders(orders.drop_last(), ignore_triggers),
            orders.last(),
        );
    }
}

/// A book that is built from a snapshot is in priority, whatever the snapshot holds.
pub proof fn lemma_loaded_in_priority(snapshot: BookView, ignore_triggers: bool)
    ensures
        snapshot.loaded(ignore_triggers).in_priority(),
{
    lemma_with_orders_in_priority(BookView::empty(), snapshot.bids, ignore_triggers);
    lemma_with_orders_in_priority(
        BookView::empty().with_orders(snapshot.bids, ignore_triggers),
        snapshot.asks,
        ignore_triggers,
    );
}

proof fn lemma_reload_bids(bids: Seq<OrderView>, ignore_triggers: bool)
    requires
        side_in_priority(bids, Side::Bid),
        ignore_triggers ==> forall|i: int|
            0 <= i < bids.len() ==> !(#[trigger] bids[i]).is_trigger,
    ensures
        BookView::empty().with_orders(bids, ignore_triggers) == (BookView {
            bids,
            asks: Seq::empty(),
        }),
    decreases bids.len(),
{
    let loaded = BookView::empty().with_orders(bids, ignore_triggers);
    if bids.len() > 0 {
        let init = bids.drop_last();
        let last = bids.last();
        lemma_reload_bids(init, ignore_triggers);
        assert(bids[bids.len() - 1].side == Side::Bid);
        assert forall|i: int| 0 <= i < init.len() implies goes_first(
            Side::Bid,
            (#[trigger] init[i]).limit_px,
            last.limit_px,
        ) by {
            assert(bids[i].limit_px == init[i].limit_px);
            assert(bids[bids.len() - 1].limit_px == last.limit_px);
        }
        lemma_queue_place(init, Side::Bid, last.limit_px, init.len() as int);
        assert(init.insert(init.len() as int, last) =~= bids);
    } else {
        assert(bids =~= Seq::empty());
    }
}

proof fn lemma_reload_asks(book: BookView, asks: Seq<OrderView>, ignore_triggers: bool)
    requires
        book.asks.len() == 0,
        side_in_priority(asks, Side::Ask),
        ignore_triggers ==> forall|i: int|
            0 <= i < asks.len() ==> !(#[trigger] asks[i]).is_trigger,
    ensures
        book.with_orders(asks, ignore_triggers) == (BookView { bids: book.bids, asks }),
    decreases asks.len(),
{
    if asks.len() > 0 {
        let init = asks.drop_last();
        let last = asks.last();
        lemma_reload_asks(book, init, ignore_triggers);
        assert(asks[asks.len() - 1].side == Side::Ask);
        assert forall|i: int| 0 <= i < init.len() implies goes_first(
            Side::Ask,
            (#[trigger] init[i]).limit_px,
            last.limit_px,
        ) by {
            assert(asks[i].limit_px == init[i].limit_px);
            assert(asks[asks.len() - 1].limit_px == last.limit_px);
        }
        lemma_queue_place(init, Side::Ask, last.limit_px, init.len() as int);
        assert(init.insert(init.len() as int, last) =~= asks);
    } else {
        assert(asks =~= Seq::empty());
        assert(book.asks =~= asks);
    }
}

/// A book's snapshot, loaded, gives the same book back, as long as no order of it is left out.
pub proof fn lemma_snapshot_round_trip(book: BookView, ignore_triggers: bool)
    requires
        book.in_priority(),
        ignore_triggers ==> book.has_no_triggers(),
    ensures
        book.loaded(ignore_triggers) == book,
{
    lemma_reload_bids(book.bids, ignore_triggers);
    lemma_reload_asks(
        BookView { bids: book.bids, asks: Seq::empty() },
        book.asks,
        ignore_triggers,
    );
}

/// An order that was added is found, and taking it away gives the book back, as long as the
/// id is new to the book.
pub proof fn lemma_add_then_remove(book: BookView, order: OrderView)
    requires
        !book.holds(order.oid),
    ensures
        book.with_order(order).holds(order.oid),
        book.with_order(order).without(order.oid) == book,
{
    let oid = order.oid;
    lemma_place_of_bounds(book.bids, oid);
    lemma_place_of_bounds(book.asks, oid);
    match order.side {
        Side::Bid => {
            lemma_add_then_remove_side(book.bids, order);
        },
        Side::Ask => {
            lemma_add_then_remove_side(book.asks, order);
        },
    }
}

proof fn lemma_add_then_remove_side(orders: Seq<OrderView>, order: OrderView)
    requires
        place_of(orders, order.oid) == orders.len(),
    ensures
        ({
            let at = queue_place(orders, order.side, order.limit_px) as int;
            let after = orders.insert(at, order);
            &&& place_of(after, order.oid) == at
            &&& at < after.len()
            &&& after.remove(at) == orders
        }),
{
    let at = queue_place(orders, order.side, order.limit_px) as int;
    let after = orders.insert(at, order);
    lemma_queue_place_bounds(orders, order.side, order.limit_px);
    lemma_absent(orders, order.oid);
    assert forall|i: int| 0 <= i < at implies (#[trigger] after[i]).oid != order.oid by {
        assert(after[i] == orders[i]);
    }
    lemma_place_of(after, order.oid, at);
    assert(after.remove(at) =~= orders);
}

proof fn lemma_absent(orders: Seq<OrderView>, oid: u64)
    requires
        place_of(orders, oid) == orders.len(),
    ensures
        forall|i: int| 0 <= i < orders.len() ==> (#[trigger] orders[i]).oid != oid,
    decreases orders.len(),
{
    if orders.len() > 0 {
        let rest = orders.drop_first();
        lemma_absent(rest, oid);
        assert forall|i: int| 0 <= i < orders.len() implies (#[trigger] orders[i]).oid != oid by {
            if i > 0 {
                assert(orders[i] == rest[i - 1]);
            }
        }
    }
}

/// A new order that waits for no trigger brings none onto the book that does.
pub proof fn lemma_with_order_no_triggers(book: BookView, order: OrderView)
    requires
        book.has_no_triggers(),
        !order.is_trigger,
    ensures
        book.with_order(order).has_no_triggers(),
{
    let px = order.limit_px;
    lemma_queue_place_bounds(book.bids, Side::Bid, px);
    lemma_queue_place_bounds(book.asks, Side::Ask, px);
    let after = book.with_order(order);
    assert forall|i: int| 0 <= i < after.bids.len() implies !(
    #[trigger] after.bids[i]).is_trigger by {
        let at = queue_place(book.bids, Side::Bid, px) as int;
        if order.side == Side::Bid && i > at {
            assert(after.bids[i] == book.bids[i - 1]);
        } else if order.side != Side::Bid || i < at {
            assert(after.bids[i] == book.bids[i]);
        }
    }
    assert forall|i: int| 0 <= i < after.asks.len() implies !(
    #[trigger] after.asks[i]).is_trigger by {
        let at = queue_place(book.asks, Side::Ask, px) as int;
        if order.side == Side::Ask && i > at {
            assert(after.asks[i] == book.asks[i - 1]);
        } else if order.side != Side::Ask || i < at {
            assert(after.asks[i] == book.asks[i]);
        }
    }
}

/// A change of size brings no order onto the book that waits for a trigger.
pub proof fn lemma_with_size_no_triggers(book: BookView, oid: u64, sz: u64)
    requires
        book.has_no_triggers(),
    ensures
        book.with_size(oid, sz).has_no_triggers(),
{
    let after = book.with_size(oid, sz);
    assert forall|i: int| 0 <= i < after.bids.len() implies !(
    #[trigger] after.bids[i]).is_trigger by {
        assert(!book.bids[i].is_trigger);
    }
    assert forall|i: int| 0 <= i < after.asks.len() implies !(
    #[trigger] after.asks[i]).is_trigger by {
        assert(!book.asks[i].is_trigger);
    }
}

/// A removal brings no order onto the book that waits for a trigger.
pub proof fn lemma_without_no_triggers(book: BookView, oid: u64)
    requires
        book.has_no_triggers(),
    ensures
        book.without(oid).has_no_triggers(),
{
    let after = book.without(oid);
    assert forall|i: int| 0 <= i < after.bids.len() implies !(
    #[trigger] after.bids[i]).is_trigger by {
        assert(after.bids[i] == book.bids[i] || after.bids[i] == book.bids[i + 1]);
    }
    assert forall|i: int| 0 <= i < after.asks.len() implies !(
    #[trigger] after.asks[i]).is_trigger by {
        assert(after.asks[i] == book.asks[i] || after.asks[i] == book.asks[i + 1]);
    }
}

proof fn lemma_with_orders_no_triggers(book: BookView, orders: Seq<OrderView>)
    requires
        book.has_no_triggers(),
    ensures
        book.with_orders(orders, true).has_no_triggers(),
    decreases orders.len(),
{
    if orders.len() > 0 {
        lemma_with_orders_no_triggers(book, orders.drop_last());
        if !orders.last().is_trigger {
            lemma_with_order_no_triggers(
                book.with_orders(orders.drop_last(), true),
                orders.last(),
            );
        }
    }
}

/// A book that is built without trigger orders holds none.
pub proof fn lemma_loaded_no_triggers(snapshot: BookView)
    ensures
        snapshot.loaded(true).has_no_triggers(),
{
    lemma_with_orders_no_triggers(BookView::empty(), snapshot.bids);
    lemma_with_orders_no_triggers(
        BookView::empty().with_orders(snapshot.bids, true),
        snapshot.asks,
    );
}

/// The two sides of a book, item by item.
#[derive(Debug)]
pub struct Snapshot<O> {
    pub bids: Vec<O>,
    pub asks: Vec<O>,
}

/// The book that a snapshot of orders shows.
pub open spec fn snapshot_book(snapshot: Snapshot<InnerL4Order>) -> BookView {
    BookView { bids: order_views(snapshot.bids@), asks: order_views(snapshot.asks@) }
}

/// The book of one coin.
#[derive(Debug)]
pub struct OrderBook {
    bids: Vec<InnerL4Order>,
    asks: Vec<InnerL4Order>,
}

impl View for OrderBook {
    type V = BookView;

    closed spec fn view(&self) -> BookView {
        BookView { bids: order_views(self.bids@), asks: order_views(self.asks@) }
    }
}

/// Whether an order at price `a` is served before a later one at price `b`.
fn price_goes_first(side: Side, a: Px, b: Px) -> (first: bool)
    ensures
        first == goes_first(side, a.units, b.units),
{
    match side {
        Side::Ask => a.units <= b.units,
        Side::Bid => a.units >= b.units,
    }
}

/// The position at which a new order queues up.
fn find_queue_place(orders: &Vec<InnerL4Order>, side: Side, px: Px) -> (at: usize)
    ensures
        at == queue_place(order_views(orders@), side, px.units),
        at <= orders@.len(),
{
    let ghost views = order_views(orders@);
    let mut at: usize = 0;
    while at < orders.len() && price_goes_first(side, orders[at].limit_px, px)
        invariant
            views == order_views(orders@),
            at <= orders@.len(),
            forall|i: int| 0 <= i < at ==> goes_first(side, (#[trigger] views[i]).limit_px, px.units),
        decreases orders@.len() - at,
    {
        at = at + 1;
    }
    proof {
        lemma_queue_place(views, side, px.units, at as int);
    }
    at
}

/// The position of the first order with an id, or the number of orders.
fn find_oid(orders: &Vec<InnerL4Order>, oid: u64) -> (at: usize)
    ensures
        at == place_of(order_views(orders@), oid),
        at <= orders@.len(),
{
    let ghost views = order_views(orders@);
    let mut at: usize = 0;
    while at < orders.len() && orders[at].oid != oid
        invariant
            views == order_views(orders@),
            at <= orders@.len(),
            forall|i: int| 0 <= i < at ==> (#[trigger] views[i]).oid != oid,
        decreases orders@.len() - at,
    {
        at = at + 1;
    }
    proof {
        lemma_place_of(views, oid, at as int);
    }
    at
}

/// A copy of some orders.
fn copy_orders(orders: &Vec<InnerL4Order>) -> (copy: Vec<InnerL4Order>)
    ensures
        copy@ == orders@,
{
    let copy = orders.clone();
    assert(copy@ =~= orders@);
    copy
}

impl OrderBook {
    pub fn new() -> (book: OrderBook)
        ensures
            book@ == BookView::empty(),
    {
        let book = OrderBook { bids: Vec::new(), asks: Vec::new() };
        assert(book@ =~= BookView::empty());
        book
    }

    pub fn add_order(&mut self, order: InnerL4Order)
        ensures
            final(self)@ == old(self)@.with_order(order@),
    {
        let ghost view = order@;
        match order.side {
            Side::Bid => {
                let at = find_queue_place(&self.bids, Side::Bid, order.limit_px);
                self.bids.insert(at, order);
                assert(order_views(self.bids@) =~= order_views(old(self).bids@).insert(
                    at as int,
                    view,
                ));
            },
            Side::Ask => {
                let at = find_queue_place(&self.asks, Side::Ask, order.limit_px);
                self.asks.insert(at, order);
                assert(order_views(self.asks@) =~= order_views(old(self).asks@).insert(
                    at as int,
                    view,
                ));
            },
        }
    }

    /// Gives the order with id `oid` another size, and says whether there is one.
    pub fn modify_sz(&mut self, oid: u64, sz: Sz) -> (found: bool)
        ensures
            found == old(self)@.holds(oid),
            final(self)@ == old(self)@.with_size(oid, sz.units),
    {
        let bid = find_oid(&self.bids, oid);
        if bid < self.bids.len() {
            self.bids[bid].modify_sz(sz);
            assert(order_views(self.bids@) =~= old(self)@.with_size(oid, sz.units).bids);
            return true;
        }
        let ask = find_oid(&self.asks, oid);
        if ask < self.asks.len() {
            self.asks[ask].modify_sz(sz);
            assert(order_views(self.asks@) =~= old(self)@.with_size(oid, sz.units).asks);
            return true;
        }
        false
    }

    /// Takes the order with id `oid` off the book, and says whether there was one.
    pub fn cancel_order(&mut self, oid: u64) -> (found: bool)
        ensures
            found == old(self)@.holds(oid),
            final(self)@ == old(self)@.without(oid),
    {
        let bid = find_oid(&self.bids, oid);
        if bid < self.bids.len() {
            let _ = self.bids.remove(bid);
            assert(order_views(self.bids@) =~= old(self)@.without(oid).bids);
            return true;
        }
        let ask = find_oid(&self.asks, oid);
        if ask < self.asks.len() {
            let _ = self.asks.remove(ask);
            assert(order_views(self.asks@) =~= old(self)@.without(oid).asks);
            return true;
        }
        false
    }

    fn add_orders(&mut self, orders: Vec<InnerL4Order>, ignore_triggers: bool)
        ensures
            final(self)@ == old(self)@.with_orders(order_views(orders@), ignore_triggers),
    {
        let ghost views = order_views(orders@);
        let ghost start = self@;
        for order in it: orders
            invariant
                views == order_views(it.seq()),
                self@ == start.with_orders(views.take(it.index() as int), ignore_triggers),
        {
            let ghost at = it.index() as int;
            assert(views[at] == order@);
            assert(views.take(at + 1).drop_last() =~= views.take(at));
            if !(ignore_triggers && order.is_trigger) {
                self.add_order(order);
            }
        }
        assert(views.take(views.len() as int) =~= views);
    }

    /// Builds the book from the orders of a snapshot, trigger orders left out where asked.
    pub fn from_snapshot(snapshot: Snapshot<InnerL4Order>, ignore_triggers: bool) -> (book:
        OrderBook)
        ensures
            book@ == snapshot_book(snapshot).loaded(ignore_triggers),
    {
        let mut book = OrderBook::new();
        book.add_orders(snapshot.bids, ignore_triggers);
        book.add_orders(snapshot.asks, ignore_triggers);
        book
    }

    pub fn to_snapshot(&self) -> (snapshot: Snapshot<InnerL4Order>)
        ensures
            snapshot_book(snapshot) == self@,
    {
        Snapshot { bids: copy_orders(&self.bids), asks: copy_orders(&self.asks) }
    }

    /// The bids, best first.
    pub fn bids(&self) -> (orders: &Vec<InnerL4Order>)
        ensures
            order_views(orders@) == self@.bids,
    {
        &self.bids
    }

    /// The asks, best first.
    pub fn asks(&self) -> (orders: &Vec<InnerL4Order>)
        ensures
            order_views(orders@) == self@.asks,
    {
        &self.asks
    }
}

impl Clone for OrderBook {
    fn clone(&self) -> (copy: OrderBook)
        ensures
            copy@ == self@,
    {
        OrderBook { bids: copy_orders(&self.bids), asks: copy_orders(&self.asks) }
    }
}

} // verus!
