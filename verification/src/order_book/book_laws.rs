//! What a change of a book does to the orders that rest there.

use crate::order_book::book::{place_of, queue_place, BookView};
use crate::order_book::types::Side;
use crate::types::inner::OrderView;
use vstd::prelude::*;

verus! {

proof fn lemma_queue(orders: Seq<OrderView>, side: Side, px: u64)
    ensures
        queue_place(orders, side, px) <= orders.len(),
        forall|i: int|
            0 <= i < queue_place(orders, side, px) ==> match side {
                Side::Bid => (#[trigger] orders[i]).limit_px >= px,
                Side::Ask => orders[i].limit_px <= px,
            },
        queue_place(orders, side, px) < orders.len() ==> match side {
            Side::Bid => orders[queue_place(orders, side, px) as int].limit_px < px,
            Side::Ask => orders[queue_place(orders, side, px) as int].limit_px > px,
        },
    decreases orders.len(),
{
    if queue_place(orders, side, px) > 0 {
        let rest = orders.drop_first();
        lemma_queue(rest, side, px);
        assert forall|i: int| 0 <= i < queue_place(orders, side, px) implies match side {
            Side::Bid => (#[trigger] orders[i]).limit_px >= px,
            Side::Ask => orders[i].limit_px <= px,
        } by {
            if i > 0 {
                assert(orders[i] == rest[i - 1]);
            }
        }
    }
}

/// A new bid rests among the bids as it came: behind every bid that pays as much or more and
/// that no lower one stands before, and in front of the first that pays less. The other bids
/// keep their order, and the asks stay as they are.
pub proof fn lemma_new_bid_rests_among_the_bids(book: BookView, order: OrderView)
    requires
        order.side == Side::Bid,
    ensures
        book.with_order(order).asks == book.asks,
        exists|at: int|
            0 <= at <= book.bids.len() && book.with_order(order).bids == #[trigger] book.bids.insert(
                at,
                order,
            ) && (forall|i: int| 0 <= i < at ==> (#[trigger] book.bids[i]).limit_px >= order.limit_px)
                && (at < book.bids.len() ==> book.bids[at].limit_px < order.limit_px),
{
    lemma_queue(book.bids, Side::Bid, order.limit_px);
    let at = queue_place(book.bids, Side::Bid, order.limit_px) as int;
    assert(book.with_order(order).bids == book.bids.insert(at, order));
}

/// A new ask rests among the asks as it came: behind the leading asks that want as little or
/// less, and in front of the first that wants more. The other asks keep their order, and the
/// bids stay as they are.
pub proof fn lemma_new_ask_rests_among_the_asks(book: BookView, order: OrderView)
    requires
        order.side == Side::Ask,
    ensures
        book.with_order(order).bids == book.bids,
        exists|at: int|
            0 <= at <= book.asks.len() && book.with_order(order).asks == #[trigger] book.asks.insert(
                at,
                order,
            ) && (forall|i: int| 0 <= i < at ==> (#[trigger] book.asks[i]).limit_px <= order.limit_px)
                && (at < book.asks.len() ==> book.asks[at].limit_px > order.limit_px),
{
    lemma_queue(book.asks, Side::Ask, order.limit_px);
    let at = queue_place(book.asks, Side::Ask, order.limit_px) as int;
    assert(book.with_order(order).asks == book.asks.insert(at, order));
}

proof fn lemma_place(orders: Seq<OrderView>, oid: u64)
    ensures
        place_of(orders, oid) <= orders.len(),
        forall|i: int| 0 <= i < place_of(orders, oid) ==> (#[trigger] orders[i]).oid != oid,
        place_of(orders, oid) < orders.len() ==> orders[place_of(orders, oid) as int].oid == oid,
    decreases orders.len(),
{
    if orders.len() > 0 && orders[0].oid != oid {
        let rest = orders.drop_first();
        lemma_place(rest, oid);
        assert forall|i: int| 0 <= i < place_of(orders, oid) implies (#[trigger] orders[i]).oid
            != oid by {
            if i > 0 {
                assert(orders[i] == rest[i - 1]);
            }
        }
    }
}

/// A book holds an id exactly where an order with that id stands among its bids or its asks.
pub proof fn lemma_holds_what_rests(book: BookView, oid: u64)
    ensures
        book.holds(oid) <==> {
            ||| exists|i: int| 0 <= i < book.bids.len() && (#[trigger] book.bids[i]).oid == oid
            ||| exists|i: int| 0 <= i < book.asks.len() && (#[trigger] book.asks[i]).oid == oid
        },
{
    lemma_place(book.bids, oid);
    lemma_place(book.asks, oid);
    let bid = place_of(book.bids, oid) as int;
    let ask = place_of(book.asks, oid) as int;
    if bid < book.bids.len() {
        assert(book.bids[bid].oid == oid);
    }
    if ask < book.asks.len() {
        assert(book.asks[ask].oid == oid);
    }
}

/// After a change of size, the bid with the id has the new size and is otherwise as it was, at
/// the place that it had. Every other bid, and every ask, is as before.
pub proof fn lemma_resized_bid(book: BookView, oid: u64, sz: u64, at: int)
    requires
        0 <= at < book.bids.len(),
        book.bids[at].oid == oid,
        forall|i: int| 0 <= i < at ==> (#[trigger] book.bids[i]).oid != oid,
    ensures
        ({
            let after = book.with_size(oid, sz);
            &&& after.asks == book.asks
            &&& after.bids.len() == book.bids.len()
            &&& forall|i: int|
                0 <= i < book.bids.len() && i != at ==> #[trigger] after.bids[i] == book.bids[i]
            &&& after.bids[at].sz == sz
            &&& after.bids[at] == (OrderView { sz: after.bids[at].sz, ..book.bids[at] })
        }),
{
    lemma_place(book.bids, oid);
}

/// After a change of size, the ask with the id has the new size and is otherwise as it was, at
/// the place that it had. Every other ask, and every bid, is as before.
pub proof fn lemma_resized_ask(book: BookView, oid: u64, sz: u64, at: int)
    requires
        0 <= at < book.asks.len(),
        book.asks[at].oid == oid,
        forall|i: int| 0 <= i < at ==> (#[trigger] book.asks[i]).oid != oid,
        forall|i: int| 0 <= i < book.bids.len() ==> (#[trigger] book.bids[i]).oid != oid,
    ensures
        ({
            let after = book.with_size(oid, sz);
            &&& after.bids == book.bids
            &&& after.asks.len() == book.asks.len()
            &&& forall|i: int|
                0 <= i < book.asks.len() && i != at ==> #[trigger] after.asks[i] == book.asks[i]
            &&& after.asks[at].sz == sz
            &&& after.asks[at] == (OrderView { sz: after.asks[at].sz, ..book.asks[at] })
        }),
{
    lemma_place(book.bids, oid);
    lemma_place(book.asks, oid);
}

/// A bid that is taken off leaves the other bids in their order, and every ask as it is.
pub proof fn lemma_removed_bid(book: BookView, oid: u64, at: int)
    requires
        0 <= at < book.bids.len(),
        book.bids[at].oid == oid,
        forall|i: int| 0 <= i < at ==> (#[trigger] book.bids[i]).oid != oid,
    ensures
        ({
            let after = book.without(oid);
            &&& after.asks == book.asks
            &&& after.bids.len() == book.bids.len() - 1
            &&& forall|i: int| 0 <= i < at ==> #[trigger] after.bids[i] == book.bids[i]
            &&& forall|i: int|
                at <= i < book.bids.len() - 1 ==> #[trigger] after.bids[i] == book.bids[i + 1]
        }),
{
    lemma_place(book.bids, oid);
}

/// An ask that is taken off leaves the other asks in their order, and every bid as it is.
pub proof fn lemma_removed_ask(book: BookView, oid: u64, at: int)
    requires
        0 <= at < book.asks.len(),
        book.asks[at].oid == oid,
        forall|i: int| 0 <= i < at ==> (#[trigger] book.asks[i]).oid != oid,
        forall|i: int| 0 <= i < book.bids.len() ==> (#[trigger] book.bids[i]).oid != oid,
    ensures
        ({
            let after = book.without(oid);
            &&& after.bids == book.bids
            &&& after.asks.len() == book.asks.len() - 1
            &&& forall|i: int| 0 <= i < at ==> #[trigger] after.asks[i] == book.asks[i]
            &&& forall|i: int|
                at <= i < book.asks.len() - 1 ==> #[trigger] after.asks[i] == book.asks[i + 1]
        }),
{
    lemma_place(book.bids, oid);
    lemma_place(book.asks, oid);
}

/// An id that does not rest on the book can be neither resized nor taken off: the book stays.
pub proof fn lemma_unknown_id_changes_nothing(book: BookView, oid: u64, sz: u64)
    requires
        forall|i: int| 0 <= i < book.bids.len() ==> (#[trigger] book.bids[i]).oid != oid,
        forall|i: int| 0 <= i < book.asks.len() ==> (#[trigger] book.asks[i]).oid != oid,
    ensures
        !book.holds(oid),
        book.with_size(oid, sz) == book,
        book.without(oid) == book,
{
    lemma_place(book.bids, oid);
    lemma_place(book.asks, oid);
}

/// Of two orders that come onto a book at the same price, on the same side, the earlier one
/// stands first.
pub proof fn lemma_first_come_first(book: BookView, early: OrderView, late: OrderView)
    requires
        book.in_priority(),
        early.side == late.side,
        early.limit_px == late.limit_px,
    ensures
        ({
            let after = book.with_order(early).with_order(late);
            match early.side {
                Side::Bid => exists|i: int, j: int|
                    0 <= i < j < after.bids.len() && #[trigger] after.bids[i] == early
                        && #[trigger] after.bids[j] == late,
                Side::Ask => exists|i: int, j: int|
                    0 <= i < j < after.asks.len() && #[trigger] after.asks[i] == early
                        && #[trigger] after.asks[j] == late,
            }
        }),
{
    let once = book.with_order(early);
    let after = once.with_order(late);
    let px = early.limit_px;
    match early.side {
        Side::Bid => {
            lemma_queue(book.bids, Side::Bid, px);
            lemma_queue(once.bids, Side::Bid, px);
            let i = queue_place(book.bids, Side::Bid, px) as int;
            let j = queue_place(once.bids, Side::Bid, px) as int;
            assert(once.bids[i] == early);
            if j < i {
                assert(once.bids[j] == book.bids[j]);
            }
            assert(after.bids[i] == early && after.bids[j] == late);
        },
        Side::Ask => {
            lemma_queue(book.asks, Side::Ask, px);
            lemma_queue(once.asks, Side::Ask, px);
            let i = queue_place(book.asks, Side::Ask, px) as int;
            let j = queue_place(once.asks, Side::Ask, px) as int;
            assert(once.asks[i] == early);
            if j < i {
                assert(once.asks[j] == book.asks[j]);
            }
            assert(after.asks[i] == early && after.asks[j] == late);
        },
    }
}

proof fn lemma_left_out(book: BookView, orders: Seq<OrderView>)
    ensures
        book.with_orders(orders, true) == book.with_orders(
            orders.filter(|order: OrderView| !order.is_trigger),
            false,
        ),
    decreases orders.len(),
{
    reveal(Seq::filter);
    if orders.len() > 0 {
        let waits_not = |order: OrderView| !order.is_trigger;
        let init = orders.drop_last();
        lemma_left_out(book, init);
        if !orders.last().is_trigger {
            assert(orders.filter(waits_not).drop_last() =~= init.filter(waits_not));
        }
    }
}

/// A book that is built without trigger orders is the one that is built from a snapshot that
/// has none: every other order of the snapshot comes onto the book, and no trigger order does.
pub proof fn lemma_loading_leaves_out_trigger_orders(snapshot: BookView)
    ensures
        snapshot.loaded(true) == (BookView {
            bids: snapshot.bids.filter(|order: OrderView| !order.is_trigger),
            asks: snapshot.asks.filter(|order: OrderView| !order.is_trigger),
        }).loaded(false),
{
    lemma_left_out(BookView::empty(), snapshot.bids);
    lemma_left_out(BookView::empty().with_orders(snapshot.bids, true), snapshot.asks);
}

/// A book is built from a snapshot order by order, the bids before the asks: nothing from an
/// empty one, and with one order more behind the last, the same book with that order put on it.
pub proof fn lemma_loading_order_by_order(
    bids: Seq<OrderView>,
    asks: Seq<OrderView>,
    order: OrderView,
)
    ensures
        (BookView { bids: Seq::empty(), asks: Seq::empty() }).loaded(false) == (BookView {
            bids: Seq::empty(),
            asks: Seq::empty(),
        }),
        (BookView { bids: bids.push(order), asks: Seq::empty() }).loaded(false) == (BookView {
            bids,
            asks: Seq::empty(),
        }).loaded(false).with_order(order),
        (BookView { bids, asks: asks.push(order) }).loaded(false) == (BookView {
            bids,
            asks,
        }).loaded(false).with_order(order),
{
    assert(bids.push(order).drop_last() =~= bids);
    assert(asks.push(order).drop_last() =~= asks);
}

} // verus!
