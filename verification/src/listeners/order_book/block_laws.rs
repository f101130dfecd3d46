//! What each diff of a block does to the books.

use crate::listeners::order_book::error::ListenerError;
use crate::listeners::order_book::state::{
    apply_result, block_progress, opened_order, openings, state_after, Progress, SkippedChange,
    SkippedView, StateView,
};
use crate::order_book::book::BookView;
use crate::order_book::book_laws::{
    lemma_holds_what_rests, lemma_new_ask_rests_among_the_asks, lemma_new_bid_rests_among_the_bids,
    lemma_removed_ask, lemma_removed_bid, lemma_resized_ask, lemma_resized_bid,
    lemma_unknown_id_changes_nothing,
};
use crate::order_book::decimal::{decimal_value, DecimalError};
use crate::order_book::types::Side;
use crate::types::inner::{reported_order, OrderView};
use crate::types::node_data::{BatchView, NodeDataOrderDiff, NodeDataOrderStatus};
use crate::types::OrderDiff;
use vstd::prelude::*;

verus! {

/// The block is the next one, or the first one after a snapshot, however late.
pub open spec fn is_due(state: StateView, number: u64) -> bool {
    ||| number == state.height + 1
    ||| number > state.height + 1 && state.allow_initial_gap
}

/// The diffs of a block but the last.
pub open spec fn all_but_last(diffs: BatchView<NodeDataOrderDiff>) -> BatchView<
    NodeDataOrderDiff,
> {
    BatchView { events: diffs.events.drop_last(), ..diffs }
}

/// The diff is of a spot market while those are left out.
pub open spec fn is_left_out(diff: NodeDataOrderDiff, ignore_spot: bool) -> bool {
    &&& ignore_spot
    &&& (diff.coin@.len() > 0 && diff.coin@[0] == '@') || diff.coin@ == "PURR/USDC"@
}

/// The status reports that the order with an id now rests on the book.
pub open spec fn opens(status: NodeDataOrderStatus, oid: u64) -> bool {
    &&& status.order.oid == oid
    &&& status.order.is_trigger ==> status.status@ == "triggered"@
    &&& !status.order.is_trigger ==> status.status@ == "open"@
    &&& !status.order.is_trigger ==> !(status.order.tif matches Some(tif) && tif@ == "Ioc"@)
}

/// The status at a place is the last one that opens an id.
pub open spec fn is_last_opening(
    statuses: Seq<NodeDataOrderStatus>,
    oid: u64,
    at: int,
) -> bool {
    &&& 0 <= at < statuses.len()
    &&& opens(statuses[at], oid)
    &&& forall|i: int| at < i < statuses.len() ==> !opens(#[trigger] statuses[i], oid)
}

/// No diff puts an order with this id on a book.
pub open spec fn none_new(
    diffs: Seq<NodeDataOrderDiff>,
    oid: u64,
    ignore_spot: bool,
) -> bool {
    forall|i: int|
        0 <= i < diffs.len() ==> {
            ||| (#[trigger] diffs[i]).oid != oid
            ||| !(diffs[i].raw_book_diff is New)
            ||| is_left_out(diffs[i], ignore_spot)
        }
}

/// The order is the one that a status reports, of this size and at this price, and a trigger
/// order is an ordinary one of the time of the status.
pub open spec fn rests_as(
    order: OrderView,
    status: NodeDataOrderStatus,
    sz: u64,
    px: u64,
) -> bool {
    &&& order.user == status.user
    &&& order.coin == status.order.coin@
    &&& order.side == status.order.side
    &&& order.limit_px == px
    &&& order.sz == sz
    &&& order.oid == status.order.oid
    &&& !order.is_trigger
    &&& status.order.is_trigger ==> order.timestamp == status.time && order.trigger_condition
        == "Triggered"@ && order.trigger_px == "0.0"@
    &&& !status.order.is_trigger ==> order.timestamp == status.order.timestamp
        && order.trigger_condition == status.order.trigger_condition@ && order.trigger_px
        == status.order.trigger_px@
    &&& order.is_position_tpsl == status.order.is_position_tpsl
    &&& order.reduce_only == status.order.reduce_only
    &&& order.order_type == status.order.order_type@
    &&& order.tif is Some <==> status.order.tif is Some
    &&& order.tif is Some ==> order.tif->0 == status.order.tif->0@
    &&& order.cloid is Some <==> status.order.cloid is Some
    &&& order.cloid is Some ==> order.cloid->0 == status.order.cloid->0@
}

/// The orders on one side of a book.
pub open spec fn orders_on(book: BookView, side: Side) -> Seq<OrderView> {
    match side {
        Side::Bid => book.bids,
        Side::Ask => book.asks,
    }
}

/// The orders that rest at a coin: none where it has no book.
pub open spec fn resting(books: Map<Seq<char>, BookView>, coin: Seq<char>) -> BookView {
    if books.contains_key(coin) {
        books[coin]
    } else {
        BookView { bids: Seq::empty(), asks: Seq::empty() }
    }
}

/// The other side of the book.
pub open spec fn across(side: Side) -> Side {
    match side {
        Side::Bid => Side::Ask,
        Side::Ask => Side::Bid,
    }
}

/// An order at price `a` is at least as good for the other side as one at price `b`.
pub open spec fn at_least_as_good(side: Side, a: u64, b: u64) -> bool {
    match side {
        Side::Bid => a >= b,
        Side::Ask => a <= b,
    }
}

/// One more order stands at a place, and all others in their order around it.
pub open spec fn joined(before: Seq<OrderView>, after: Seq<OrderView>, at: int) -> bool {
    &&& 0 <= at <= before.len()
    &&& after.len() == before.len() + 1
    &&& forall|i: int| 0 <= i < at ==> #[trigger] after[i] == before[i]
    &&& forall|i: int| at < i < after.len() ==> #[trigger] after[i] == before[i - 1]
}

/// A place is behind the leading orders that are as good as a price, and in front of the next.
pub open spec fn queues_at(orders: Seq<OrderView>, side: Side, px: u64, at: int) -> bool {
    &&& forall|i: int|
        0 <= i < at ==> at_least_as_good(side, (#[trigger] orders[i]).limit_px, px)
    &&& at < orders.len() ==> !at_least_as_good(side, orders[at].limit_px, px)
}

/// The order at a place stands there no more, and all others in their order.
pub open spec fn parted(before: Seq<OrderView>, after: Seq<OrderView>, at: int) -> bool {
    joined(after, before, at)
}

/// The order that an id stands for rests at a place of a side.
pub open spec fn rests_at(book: BookView, oid: u64, side: Side, at: int) -> bool {
    &&& 0 <= at < orders_on(book, side).len()
    &&& orders_on(book, side)[at].oid == oid
    &&& forall|i: int| 0 <= i < at ==> (#[trigger] orders_on(book, side)[i]).oid != oid
    &&& side == Side::Ask ==> forall|i: int|
        0 <= i < book.bids.len() ==> (#[trigger] book.bids[i]).oid != oid
}

/// No order of a book has the id.
pub open spec fn rests_nowhere(book: BookView, oid: u64) -> bool {
    &&& forall|i: int| 0 <= i < book.bids.len() ==> (#[trigger] book.bids[i]).oid != oid
    &&& forall|i: int| 0 <= i < book.asks.len() ==> (#[trigger] book.asks[i]).oid != oid
}

/// The books of all coins but one are the same.
pub open spec fn same_elsewhere(
    before: Map<Seq<char>, BookView>,
    after: Map<Seq<char>, BookView>,
    coin: Seq<char>,
) -> bool {
    forall|other: Seq<char>|
        other != coin ==> {
            &&& after.contains_key(other) == before.contains_key(other)
            &&& after.contains_key(other) ==> #[trigger] after[other] == before[other]
        }
}

/// Two states have the same to report, and the same coins noted as reported.
pub open spec fn reports_the_same(a: StateView, b: StateView) -> bool {
    &&& a.skipped == b.skipped
    &&& a.last_warn == b.last_warn
    &&& a.gaps == b.gaps
}

proof fn lemma_last_opening(statuses: Seq<NodeDataOrderStatus>, oid: u64, at: int)
    requires
        is_last_opening(statuses, oid, at),
    ensures
        openings(statuses).contains_key(oid),
        openings(statuses)[oid] == statuses[at],
    decreases statuses.len(),
{
    let init = statuses.drop_last();
    if at < statuses.len() - 1 {
        assert(init[at] == statuses[at]);
        assert forall|i: int| at < i < init.len() implies !opens(#[trigger] init[i], oid) by {
            assert(init[i] == statuses[i]);
        }
        lemma_last_opening(init, oid, at);
        assert(!opens(statuses[statuses.len() - 1], oid));
    }
}

proof fn lemma_no_opening(statuses: Seq<NodeDataOrderStatus>, oid: u64)
    requires
        forall|i: int| 0 <= i < statuses.len() ==> !opens(#[trigger] statuses[i], oid),
    ensures
        !openings(statuses).contains_key(oid),
    decreases statuses.len(),
{
    if statuses.len() > 0 {
        let init = statuses.drop_last();
        assert forall|i: int| 0 <= i < init.len() implies !opens(#[trigger] init[i], oid) by {
            assert(init[i] == statuses[i]);
        }
        lemma_no_opening(init, oid);
        assert(!opens(statuses[statuses.len() - 1], oid));
    }
}

proof fn lemma_opening_waits(
    progress: Progress,
    diffs: Seq<NodeDataOrderDiff>,
    ignore_spot: bool,
    height: u64,
    oid: u64,
)
    requires
        none_new(diffs, oid, ignore_spot),
    ensures
        ({
            let after = progress.with_diffs(diffs, ignore_spot, height);
            &&& after.openings.contains_key(oid) == progress.openings.contains_key(oid)
            &&& after.openings.contains_key(oid) ==> after.openings[oid] == progress.openings[oid]
        }),
    decreases diffs.len(),
{
    if diffs.len() > 0 {
        let init = diffs.drop_last();
        assert forall|i: int| 0 <= i < init.len() implies {
            ||| (#[trigger] init[i]).oid != oid
            ||| !(init[i].raw_book_diff is New)
            ||| is_left_out(init[i], ignore_spot)
        } by {
            assert(init[i] == diffs[i]);
        }
        lemma_opening_waits(progress, init, ignore_spot, height, oid);
        let last = diffs[diffs.len() - 1];
        assert(last.oid != oid || !(last.raw_book_diff is New) || is_left_out(last, ignore_spot));
    }
}

proof fn lemma_opening_used(
    progress: Progress,
    diffs: Seq<NodeDataOrderDiff>,
    ignore_spot: bool,
    height: u64,
    oid: u64,
)
    requires
        !progress.openings.contains_key(oid) || !none_new(diffs, oid, ignore_spot),
        progress.with_diffs(diffs, ignore_spot, height).failure is None,
    ensures
        !progress.with_diffs(diffs, ignore_spot, height).openings.contains_key(oid),
    decreases diffs.len(),
{
    if diffs.len() > 0 {
        let init = diffs.drop_last();
        let last = diffs[diffs.len() - 1];
        let used_last = last.oid == oid && last.raw_book_diff is New && !is_left_out(
            last,
            ignore_spot,
        );
        if !used_last {
            if progress.openings.contains_key(oid) {
                let i = choose|i: int|
                    0 <= i < diffs.len() && (#[trigger] diffs[i]).oid == oid
                        && diffs[i].raw_book_diff is New && !is_left_out(diffs[i], ignore_spot);
                assert(init[i] == diffs[i]);
                assert(!none_new(init, oid, ignore_spot));
            }
            lemma_opening_used(progress, init, ignore_spot, height, oid);
        }
    }
}

/// A New diff puts the order that its status reports on the book of the order's coin: on the
/// side that the status names, of the size and at the price of the diff, and behind the leading
/// orders that are as good or better. All other orders of that side keep their order, and the
/// other side and the books of all other coins stay as the diffs before have left them. The
/// status is the last one of the block that opens the diff's id, where no diff before has
/// used it.
pub proof fn lemma_new_order_rests_as_reported(
    state: StateView,
    statuses: BatchView<NodeDataOrderStatus>,
    diffs: BatchView<NodeDataOrderDiff>,
    at: int,
    sz: u64,
    px: u64,
)
    requires
        is_due(state, statuses.number),
        diffs.events.len() > 0,
        apply_result(state, statuses, all_but_last(diffs)) is Ok,
        !is_left_out(diffs.events.last(), state.ignore_spot),
        diffs.events.last().raw_book_diff matches OrderDiff::New { sz: text } && decimal_value(
            text@,
        ) == Ok::<u64, DecimalError>(sz),
        decimal_value(diffs.events.last().px@) == Ok::<u64, DecimalError>(px),
        is_last_opening(statuses.events, diffs.events.last().oid, at),
        none_new(diffs.events.drop_last(), diffs.events.last().oid, state.ignore_spot),
        decimal_value(statuses.events[at].order.limit_px@) is Ok,
        decimal_value(statuses.events[at].order.sz@) is Ok,
    ensures
        apply_result(state, statuses, diffs) is Ok,
        reports_the_same(
            state_after(state, statuses, all_but_last(diffs)),
            state_after(state, statuses, diffs),
        ),
        ({
            let status = statuses.events[at];
            let coin = status.order.coin@;
            let side = status.order.side;
            let before = state_after(state, statuses, all_but_last(diffs)).books;
            let after = state_after(state, statuses, diffs).books;
            let book = resting(before, coin);
            &&& same_elsewhere(before, after, coin)
            &&& after.contains_key(coin)
            &&& orders_on(after[coin], across(side)) == orders_on(book, across(side))
            &&& exists|place: int| #[trigger]
                joined(orders_on(book, side), orders_on(after[coin], side), place)
                    && rests_as(orders_on(after[coin], side)[place], status, sz, px)
                    && queues_at(orders_on(book, side), side, px, place)
        }),
{
    let diff = diffs.events.last();
    let status = statuses.events[at];
    let side = status.order.side;
    let before = block_progress(state, statuses, all_but_last(diffs));
    lemma_last_opening(statuses.events, diff.oid, at);
    lemma_opening_waits(
        Progress {
            books: state.books,
            last_warn: state.last_warn,
            skipped: Seq::empty(),
            openings: openings(statuses.events),
            failure: None,
        },
        diffs.events.drop_last(),
        state.ignore_spot,
        statuses.number,
        diff.oid,
    );
    assert(before.failure is None);
    let order = opened_order(reported_order(status)->Ok_0, sz, status.time, px);
    assert(rests_as(order, status, sz, px));
    let coin = status.order.coin@;
    let book = resting(before.books, coin);
    let after = state_after(state, statuses, diffs).books;
    assert(after == before.books.insert(coin, book.with_order(order)));
    assert(same_elsewhere(before.books, after, coin));
    assert(state_after(state, statuses, all_but_last(diffs)).books == before.books);
    match side {
        Side::Bid => {
            lemma_new_bid_rests_among_the_bids(book, order);
            let place = choose|place: int|
                0 <= place <= book.bids.len() && book.with_order(order).bids
                    == #[trigger] book.bids.insert(place, order) && (forall|i: int|
                    0 <= i < place ==> (#[trigger] book.bids[i]).limit_px >= order.limit_px) && (
                place < book.bids.len() ==> book.bids[place].limit_px < order.limit_px);
            assert(after[coin].bids[place] == order);
            assert(queues_at(book.bids, side, px, place));
            assert(joined(orders_on(book, side), orders_on(after[coin], side), place));
        },
        Side::Ask => {
            lemma_new_ask_rests_among_the_asks(book, order);
            let place = choose|place: int|
                0 <= place <= book.asks.len() && book.with_order(order).asks
                    == #[trigger] book.asks.insert(place, order) && (forall|i: int|
                    0 <= i < place ==> (#[trigger] book.asks[i]).limit_px <= order.limit_px) && (
                place < book.asks.len() ==> book.asks[place].limit_px > order.limit_px);
            assert(after[coin].asks[place] == order);
            assert(queues_at(book.asks, side, px, place));
            assert(joined(orders_on(book, side), orders_on(after[coin], side), place));
        },
    }
}

/// A New diff whose id no status of the block opens, or whose opening a diff before has used,
/// stops the block with an error that names the diff, and changes no book.
pub proof fn lemma_new_order_needs_an_opening(
    state: StateView,
    statuses: BatchView<NodeDataOrderStatus>,
    diffs: BatchView<NodeDataOrderDiff>,
)
    requires
        is_due(state, statuses.number),
        diffs.events.len() > 0,
        apply_result(state, statuses, all_but_last(diffs)) is Ok,
        !is_left_out(diffs.events.last(), state.ignore_spot),
        diffs.events.last().raw_book_diff matches OrderDiff::New { sz: text } && decimal_value(
            text@,
        ) is Ok,
        (forall|i: int|
            0 <= i < statuses.events.len() ==> !opens(
                #[trigger] statuses.events[i],
                diffs.events.last().oid,
            )) || !none_new(
            diffs.events.drop_last(),
            diffs.events.last().oid,
            state.ignore_spot,
        ),
    ensures
        apply_result(state, statuses, diffs) == Err::<(), ListenerError>(
            ListenerError::MissingOpeningStatus { diff: diffs.events.last() },
        ),
        state_after(state, statuses, diffs).books == state_after(
            state,
            statuses,
            all_but_last(diffs),
        ).books,
        reports_the_same(
            state_after(state, statuses, all_but_last(diffs)),
            state_after(state, statuses, diffs),
        ),
{
    let diff = diffs.events.last();
    if none_new(diffs.events.drop_last(), diff.oid, state.ignore_spot) {
        lemma_no_opening(statuses.events, diff.oid);
    }
    lemma_opening_used(
        Progress {
            books: state.books,
            last_warn: state.last_warn,
            skipped: Seq::empty(),
            openings: openings(statuses.events),
            failure: None,
        },
        diffs.events.drop_last(),
        state.ignore_spot,
        statuses.number,
        diff.oid,
    );
}

/// An Update diff gives the order with its id, on whichever side of its coin's book it rests,
/// the new size, and nothing else of it: it keeps its place. All other orders of the book and
/// the books of all other coins stay as the diffs before have left them.
pub proof fn lemma_update_resizes_the_order(
    state: StateView,
    statuses: BatchView<NodeDataOrderStatus>,
    diffs: BatchView<NodeDataOrderDiff>,
    side: Side,
    at: int,
    sz: u64,
)
    requires
        is_due(state, statuses.number),
        diffs.events.len() > 0,
        apply_result(state, statuses, all_but_last(diffs)) is Ok,
        !is_left_out(diffs.events.last(), state.ignore_spot),
        diffs.events.last().raw_book_diff matches OrderDiff::Update { orig_sz, new_sz }
            && decimal_value(orig_sz@) is Ok && decimal_value(new_sz@) == Ok::<u64, DecimalError>(
            sz,
        ),
        state_after(state, statuses, all_but_last(diffs)).books.contains_key(
            diffs.events.last().coin@,
        ),
        rests_at(
            state_after(state, statuses, all_but_last(diffs)).books[diffs.events.last().coin@],
            diffs.events.last().oid,
            side,
            at,
        ),
    ensures
        apply_result(state, statuses, diffs) is Ok,
        reports_the_same(
            state_after(state, statuses, all_but_last(diffs)),
            state_after(state, statuses, diffs),
        ),
        ({
            let coin = diffs.events.last().coin@;
            let before = state_after(state, statuses, all_but_last(diffs)).books;
            let after = state_after(state, statuses, diffs).books;
            let was = orders_on(before[coin], side);
            let resized = orders_on(after[coin], side);
            &&& same_elsewhere(before, after, coin)
            &&& after.contains_key(coin)
            &&& orders_on(after[coin], across(side)) == orders_on(before[coin], across(side))
            &&& resized.len() == was.len()
            &&& resized[at].sz == sz
            &&& resized[at] == (OrderView { sz: resized[at].sz, ..was[at] })
            &&& forall|i: int| 0 <= i < was.len() && i != at ==> #[trigger] resized[i] == was[i]
        }),
{
    let diff = diffs.events.last();
    let book = state_after(state, statuses, all_but_last(diffs)).books[diff.coin@];
    lemma_holds_what_rests(book, diff.oid);
    assert(orders_on(book, side)[at].oid == diff.oid);
    match side {
        Side::Bid => {
            assert(book.bids[at].oid == diff.oid);
            lemma_resized_bid(book, diff.oid, sz, at);
        },
        Side::Ask => {
            assert(book.asks[at].oid == diff.oid);
            lemma_resized_ask(book, diff.oid, sz, at);
        },
    }
}

/// A Remove diff takes the order with its id off its coin's book, on whichever side it rests.
/// All other orders of the book keep their order, and the books of all other coins stay as the
/// diffs before have left them.
pub proof fn lemma_remove_takes_the_order_off(
    state: StateView,
    statuses: BatchView<NodeDataOrderStatus>,
    diffs: BatchView<NodeDataOrderDiff>,
    side: Side,
    at: int,
)
    requires
        is_due(state, statuses.number),
        diffs.events.len() > 0,
        apply_result(state, statuses, all_but_last(diffs)) is Ok,
        !is_left_out(diffs.events.last(), state.ignore_spot),
        diffs.events.last().raw_book_diff is Remove,
        state_after(state, statuses, all_but_last(diffs)).books.contains_key(
            diffs.events.last().coin@,
        ),
        rests_at(
            state_after(state, statuses, all_but_last(diffs)).books[diffs.events.last().coin@],
            diffs.events.last().oid,
            side,
            at,
        ),
    ensures
        apply_result(state, statuses, diffs) is Ok,
        reports_the_same(
            state_after(state, statuses, all_but_last(diffs)),
            state_after(state, statuses, diffs),
        ),
        ({
            let coin = diffs.events.last().coin@;
            let before = state_after(state, statuses, all_but_last(diffs)).books;
            let after = state_after(state, statuses, diffs).books;
            &&& same_elsewhere(before, after, coin)
            &&& after.contains_key(coin)
            &&& orders_on(after[coin], across(side)) == orders_on(before[coin], across(side))
            &&& parted(orders_on(before[coin], side), orders_on(after[coin], side), at)
        }),
{
    let diff = diffs.events.last();
    let book = state_after(state, statuses, all_but_last(diffs)).books[diff.coin@];
    lemma_holds_what_rests(book, diff.oid);
    assert(orders_on(book, side)[at].oid == diff.oid);
    match side {
        Side::Bid => {
            assert(book.bids[at].oid == diff.oid);
            lemma_removed_bid(book, diff.oid, at);
        },
        Side::Ask => {
            assert(book.asks[at].oid == diff.oid);
            lemma_removed_ask(book, diff.oid, at);
        },
    }
}

/// An Update or Remove diff of an id that does not rest on its coin's book stops the block with
/// an error that names the diff, and changes no book.
pub proof fn lemma_change_needs_the_order(
    state: StateView,
    statuses: BatchView<NodeDataOrderStatus>,
    diffs: BatchView<NodeDataOrderDiff>,
)
    requires
        is_due(state, statuses.number),
        diffs.events.len() > 0,
        apply_result(state, statuses, all_but_last(diffs)) is Ok,
        !is_left_out(diffs.events.last(), state.ignore_spot),
        diffs.events.last().raw_book_diff is Remove || (
        diffs.events.last().raw_book_diff matches OrderDiff::Update { orig_sz, new_sz }
            && decimal_value(orig_sz@) is Ok && decimal_value(new_sz@) is Ok),
        state_after(state, statuses, all_but_last(diffs)).books.contains_key(
            diffs.events.last().coin@,
        ),
        rests_nowhere(
            state_after(state, statuses, all_but_last(diffs)).books[diffs.events.last().coin@],
            diffs.events.last().oid,
        ),
    ensures
        apply_result(state, statuses, diffs) == Err::<(), ListenerError>(
            ListenerError::MissingOrder { diff: diffs.events.last() },
        ),
        state_after(state, statuses, diffs).books == state_after(
            state,
            statuses,
            all_but_last(diffs),
        ).books,
        reports_the_same(
            state_after(state, statuses, all_but_last(diffs)),
            state_after(state, statuses, diffs),
        ),
{
    let diff = diffs.events.last();
    let book = state_after(state, statuses, all_but_last(diffs)).books[diff.coin@];
    lemma_unknown_id_changes_nothing(book, diff.oid, 0);
}

/// An Update or Remove diff of a coin that has no book is passed over: the block goes on, and no
/// book changes. It is reported, and noted as reported at this block, unless a diff of the coin
/// was reported less than 200 blocks before.
pub proof fn lemma_change_without_a_book_is_passed_over(
    state: StateView,
    statuses: BatchView<NodeDataOrderStatus>,
    diffs: BatchView<NodeDataOrderDiff>,
)
    requires
        is_due(state, statuses.number),
        diffs.events.len() > 0,
        apply_result(state, statuses, all_but_last(diffs)) is Ok,
        !is_left_out(diffs.events.last(), state.ignore_spot),
        diffs.events.last().raw_book_diff is Remove || (
        diffs.events.last().raw_book_diff matches OrderDiff::Update { orig_sz, new_sz }
            && decimal_value(orig_sz@) is Ok && decimal_value(new_sz@) is Ok),
        !state_after(state, statuses, all_but_last(diffs)).books.contains_key(
            diffs.events.last().coin@,
        ),
    ensures
        apply_result(state, statuses, diffs) is Ok,
        ({
            let diff = diffs.events.last();
            let before = state_after(state, statuses, all_but_last(diffs));
            let after = state_after(state, statuses, diffs);
            let quiet = before.last_warn.contains_key(diff.coin@) && statuses.number
                < before.last_warn[diff.coin@] + 200;
            &&& after.books == before.books
            &&& quiet ==> after.skipped == before.skipped && after.last_warn == before.last_warn
            &&& !quiet ==> after.last_warn == before.last_warn.insert(diff.coin@, statuses.number)
            &&& !quiet ==> after.skipped == before.skipped.push(
                SkippedView {
                    change: if diff.raw_book_diff is Remove {
                        SkippedChange::Remove
                    } else {
                        SkippedChange::Update
                    },
                    coin: diff.coin@,
                    oid: diff.oid,
                    height: statuses.number,
                },
            )
        }),
{
    let before = state_after(state, statuses, all_but_last(diffs));
    let after = state_after(state, statuses, diffs);
    let progress = block_progress(state, statuses, all_but_last(diffs));
    let moved = block_progress(state, statuses, diffs);
    assert(progress.failure is None);
    if moved.skipped != progress.skipped {
        assert(after.skipped =~= before.skipped.push(moved.skipped.last()));
    }
}

/// A diff with a number that cannot be read stops the block with an error that says why the
/// first such number cannot be, and changes no book.
pub proof fn lemma_unreadable_diff_stops_the_block(
    state: StateView,
    statuses: BatchView<NodeDataOrderStatus>,
    diffs: BatchView<NodeDataOrderDiff>,
    error: DecimalError,
)
    requires
        is_due(state, statuses.number),
        diffs.events.len() > 0,
        apply_result(state, statuses, all_but_last(diffs)) is Ok,
        !is_left_out(diffs.events.last(), state.ignore_spot),
        match diffs.events.last().raw_book_diff {
            OrderDiff::New { sz } => decimal_value(sz@) == Err::<u64, DecimalError>(error),
            OrderDiff::Update { orig_sz, new_sz } => decimal_value(orig_sz@) == Err::<
                u64,
                DecimalError,
            >(error) || (decimal_value(orig_sz@) is Ok && decimal_value(new_sz@) == Err::<
                u64,
                DecimalError,
            >(error)),
            OrderDiff::Remove => false,
        },
    ensures
        apply_result(state, statuses, diffs) == Err::<(), ListenerError>(
            ListenerError::BadNumber { error },
        ),
        state_after(state, statuses, diffs).books == state_after(
            state,
            statuses,
            all_but_last(diffs),
        ).books,
        reports_the_same(
            state_after(state, statuses, all_but_last(diffs)),
            state_after(state, statuses, diffs),
        ),
{
}

/// A New diff stops the block too where a number of the status that opens its id, or its own
/// price, cannot be read: the limit price is looked at first, then the size, then the diff's
/// price. No book changes.
pub proof fn lemma_unreadable_opening_stops_the_block(
    state: StateView,
    statuses: BatchView<NodeDataOrderStatus>,
    diffs: BatchView<NodeDataOrderDiff>,
    at: int,
    error: DecimalError,
)
    requires
        is_due(state, statuses.number),
        diffs.events.len() > 0,
        apply_result(state, statuses, all_but_last(diffs)) is Ok,
        !is_left_out(diffs.events.last(), state.ignore_spot),
        diffs.events.last().raw_book_diff matches OrderDiff::New { sz: text } && decimal_value(
            text@,
        ) is Ok,
        is_last_opening(statuses.events, diffs.events.last().oid, at),
        none_new(diffs.events.drop_last(), diffs.events.last().oid, state.ignore_spot),
        ({
            let limit_px = decimal_value(statuses.events[at].order.limit_px@);
            let sz = decimal_value(statuses.events[at].order.sz@);
            let px = decimal_value(diffs.events.last().px@);
            ||| limit_px == Err::<u64, DecimalError>(error)
            ||| limit_px is Ok && sz == Err::<u64, DecimalError>(error)
            ||| limit_px is Ok && sz is Ok && px == Err::<u64, DecimalError>(error)
        }),
    ensures
        apply_result(state, statuses, diffs) == Err::<(), ListenerError>(
            ListenerError::BadNumber { error },
        ),
        state_after(state, statuses, diffs).books == state_after(
            state,
            statuses,
            all_but_last(diffs),
        ).books,
        reports_the_same(
            state_after(state, statuses, all_but_last(diffs)),
            state_after(state, statuses, diffs),
        ),
{
    let diff = diffs.events.last();
    lemma_last_opening(statuses.events, diff.oid, at);
    lemma_opening_waits(
        Progress {
            books: state.books,
            last_warn: state.last_warn,
            skipped: Seq::empty(),
            openings: openings(statuses.events),
            failure: None,
        },
        diffs.events.drop_last(),
        state.ignore_spot,
        statuses.number,
        diff.oid,
    );
}

/// A diff of a spot market does nothing at all where those are left out, whatever it says.
pub proof fn lemma_left_out_diff_does_nothing(
    state: StateView,
    statuses: BatchView<NodeDataOrderStatus>,
    diffs: BatchView<NodeDataOrderDiff>,
)
    requires
        diffs.events.len() > 0,
        is_left_out(diffs.events.last(), state.ignore_spot),
    ensures
        apply_result(state, statuses, diffs) == apply_result(
            state,
            statuses,
            all_but_last(diffs),
        ),
        state_after(state, statuses, diffs) == state_after(state, statuses, all_but_last(diffs)),
{
}

/// Once a diff has stopped a block, the diffs behind it are not looked at.
pub proof fn lemma_failed_block_stops(
    state: StateView,
    statuses: BatchView<NodeDataOrderStatus>,
    diffs: BatchView<NodeDataOrderDiff>,
)
    requires
        diffs.events.len() > 0,
        apply_result(state, statuses, all_but_last(diffs)) is Err,
    ensures
        apply_result(state, statuses, diffs) == apply_result(
            state,
            statuses,
            all_but_last(diffs),
        ),
        state_after(state, statuses, diffs) == state_after(state, statuses, all_but_last(diffs)),
{
}

/// A block without diffs is worked in, whatever its statuses say, and changes no book.
pub proof fn lemma_block_without_diffs(
    state: StateView,
    statuses: BatchView<NodeDataOrderStatus>,
    diffs: BatchView<NodeDataOrderDiff>,
)
    requires
        is_due(state, statuses.number),
        diffs.events.len() == 0,
    ensures
        apply_result(state, statuses, diffs) is Ok,
        ({
            let after = state_after(state, statuses, diffs);
            &&& after.books == state.books
            &&& after.skipped == state.skipped
            &&& after.last_warn == state.last_warn
        }),
{
    assert(state_after(state, statuses, diffs).skipped =~= state.skipped);
}

/// A block that is worked in brings the state to its number and its time, and its views can be
/// handed out anew. One that stops on the way counts as not yet there: the state stands at the
/// block before it, with the time that it had. Neither makes the state take spot markets in or
/// leave them out, and after either a gap is no longer tolerated.
pub proof fn lemma_block_moves_the_state(
    state: StateView,
    statuses: BatchView<NodeDataOrderStatus>,
    diffs: BatchView<NodeDataOrderDiff>,
)
    requires
        is_due(state, statuses.number),
    ensures
        ({
            let after = state_after(state, statuses, diffs);
            &&& after.ignore_spot == state.ignore_spot
            &&& !after.allow_initial_gap
            &&& match apply_result(state, statuses, diffs) {
                Ok(()) => {
                    &&& after.height == statuses.number
                    &&& after.time == statuses.time
                    &&& !after.snapped
                },
                Err(_) => {
                    &&& after.height + 1 == statuses.number
                    &&& after.time == state.time
                    &&& after.snapped == state.snapped
                },
            }
        }),
{
}

} // verus!
