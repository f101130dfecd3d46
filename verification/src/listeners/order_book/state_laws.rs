//! What holds of the books through all blocks.

use crate::listeners::order_book::consistency::{extra_books, is_considered};
use crate::listeners::order_book::error::ListenerError;
use crate::listeners::order_book::snapshot_check::books_consistent;
use crate::listeners::order_book::state::{
    apply_result, is_next, is_warn_due, noted, opened_order, openings, started, state_after,
    with_extra_books, AcceptedGap, Progress, StateView, NOT_YET_GRAFTED_WARN_THROTTLE_BLOCKS,
};
use crate::order_book::book::{
    lemma_add_then_remove, lemma_loaded_in_priority, lemma_loaded_no_triggers,
    lemma_snapshot_round_trip, lemma_with_order_in_priority, lemma_with_order_no_triggers,
    lemma_with_size_in_priority, lemma_with_size_no_triggers, lemma_without_in_priority,
    lemma_without_no_triggers, snapshot_book, BookView, Snapshot,
};
use crate::order_book::decimal::decimal_value;
use crate::order_book::multi_book::{
    book_or_empty, loaded_books, snapshot_books, with_order,
};
use crate::types::inner::{read_diff, reported_order, InnerL4Order, InnerOrderDiff};
use crate::types::node_data::{BatchView, NodeDataOrderDiff, NodeDataOrderStatus};
use vstd::prelude::*;

verus! {

/// Every book is in price-time priority.
pub open spec fn all_in_priority(books: Map<Seq<char>, BookView>) -> bool {
    forall|coin: Seq<char>| #[trigger] books.contains_key(coin) ==> books[coin].in_priority()
}

/// No order on any book waits for a trigger.
pub open spec fn none_triggers(books: Map<Seq<char>, BookView>) -> bool {
    forall|coin: Seq<char>| #[trigger] books.contains_key(coin) ==> books[coin].has_no_triggers()
}

/// The books that a snapshot gives are in priority, whatever the snapshot holds.
pub proof fn lemma_started_in_priority(
    snapshot: Map<Seq<char>, Snapshot<InnerL4Order>>,
    height: u64,
    time: u64,
    ignore_triggers: bool,
    ignore_spot: bool,
)
    ensures
        all_in_priority(started(snapshot, height, time, ignore_triggers, ignore_spot).books),
{
    lemma_loaded_books_in_priority(snapshot, ignore_triggers);
}

proof fn lemma_loaded_books_in_priority(
    snapshot: Map<Seq<char>, Snapshot<InnerL4Order>>,
    ignore_triggers: bool,
)
    ensures
        all_in_priority(loaded_books(snapshot, ignore_triggers)),
{
    let books = loaded_books(snapshot, ignore_triggers);
    assert forall|coin: Seq<char>| #[trigger]
        books.contains_key(coin) implies books[coin].in_priority() by {
        lemma_loaded_in_priority(snapshot_book(snapshot[coin]), ignore_triggers);
    }
}

/// Grafting in fetched books keeps all books in priority.
pub proof fn lemma_extra_books_in_priority(
    state: StateView,
    extras: Map<Seq<char>, Snapshot<InnerL4Order>>,
    ignore_triggers: bool,
)
    requires
        all_in_priority(state.books),
    ensures
        all_in_priority(with_extra_books(state, extras, ignore_triggers).books),
{
    let grafted = extras.filter_keys(|coin: Seq<char>| is_considered(coin, state.ignore_spot));
    lemma_loaded_books_in_priority(grafted, ignore_triggers);
    let after = with_extra_books(state, extras, ignore_triggers).books;
    assert forall|coin: Seq<char>| #[trigger]
        after.contains_key(coin) implies after[coin].in_priority() by {
        if !loaded_books(grafted, ignore_triggers).contains_key(coin) {
            assert(state.books.contains_key(coin));
        }
    }
}

proof fn lemma_diff_in_priority(
    progress: Progress,
    diff: NodeDataOrderDiff,
    ignore_spot: bool,
    height: u64,
)
    requires
        all_in_priority(progress.books),
    ensures
        all_in_priority(progress.with_diff(diff, ignore_spot, height).books),
{
    let books = progress.books;
    let coin = diff.coin@;
    if is_considered(coin, ignore_spot) {
        match read_diff(diff.raw_book_diff) {
            Err(_) => {},
            Ok(InnerOrderDiff::New { sz }) => {
                if progress.openings.contains_key(diff.oid) {
                    let status = progress.openings[diff.oid];
                    if reported_order(status) is Ok && decimal_value(diff.px@) is Ok {
                        let order = opened_order(
                            reported_order(status)->Ok_0,
                            sz.units,
                            status.time,
                            decimal_value(diff.px@)->Ok_0,
                        );
                        lemma_with_order_in_priority(book_or_empty(books, order.coin), order);
                    }
                }
            },
            Ok(InnerOrderDiff::Update { new_sz, .. }) => {
                if books.contains_key(coin) {
                    lemma_with_size_in_priority(books[coin], diff.oid, new_sz.units);
                }
            },
            Ok(InnerOrderDiff::Remove) => {
                if books.contains_key(coin) {
                    lemma_without_in_priority(books[coin], diff.oid);
                }
            },
        }
    }
}

proof fn lemma_diffs_in_priority(
    progress: Progress,
    diffs: Seq<NodeDataOrderDiff>,
    ignore_spot: bool,
    height: u64,
)
    requires
        all_in_priority(progress.books),
    ensures
        all_in_priority(progress.with_diffs(diffs, ignore_spot, height).books),
    decreases diffs.len(),
{
    if diffs.len() > 0 {
        lemma_diffs_in_priority(progress, diffs.drop_last(), ignore_spot, height);
        lemma_diff_in_priority(
            progress.with_diffs(diffs.drop_last(), ignore_spot, height),
            diffs.last(),
            ignore_spot,
            height,
        );
    }
}

/// Every block keeps all books in priority, also one that cannot be worked in to its end.
pub proof fn lemma_block_in_priority(
    state: StateView,
    statuses: BatchView<NodeDataOrderStatus>,
    diffs: BatchView<NodeDataOrderDiff>,
)
    requires
        all_in_priority(state.books),
    ensures
        all_in_priority(state_after(state, statuses, diffs).books),
{
    lemma_diffs_in_priority(
        Progress {
            books: state.books,
            last_warn: state.last_warn,
            skipped: Seq::empty(),
            openings: openings(statuses.events),
            failure: None,
        },
        diffs.events,
        state.ignore_spot,
        statuses.number,
    );
}

/// The books that a snapshot gives hold no order that waits for a trigger, where such orders
/// are left out.
pub proof fn lemma_started_no_triggers(
    snapshot: Map<Seq<char>, Snapshot<InnerL4Order>>,
    height: u64,
    time: u64,
    ignore_spot: bool,
)
    ensures
        none_triggers(started(snapshot, height, time, true, ignore_spot).books),
{
    lemma_loaded_books_no_triggers(snapshot);
}

proof fn lemma_loaded_books_no_triggers(snapshot: Map<Seq<char>, Snapshot<InnerL4Order>>)
    ensures
        none_triggers(loaded_books(snapshot, true)),
{
    let books = loaded_books(snapshot, true);
    assert forall|coin: Seq<char>| #[trigger]
        books.contains_key(coin) implies books[coin].has_no_triggers() by {
        lemma_loaded_no_triggers(snapshot_book(snapshot[coin]));
    }
}

/// Grafting in fetched books without their trigger orders brings no order that waits for a
/// trigger.
pub proof fn lemma_extra_books_no_triggers(
    state: StateView,
    extras: Map<Seq<char>, Snapshot<InnerL4Order>>,
)
    requires
        none_triggers(state.books),
    ensures
        none_triggers(with_extra_books(state, extras, true).books),
{
    let grafted = extras.filter_keys(|coin: Seq<char>| is_considered(coin, state.ignore_spot));
    lemma_loaded_books_no_triggers(grafted);
    let after = with_extra_books(state, extras, true).books;
    assert forall|coin: Seq<char>| #[trigger]
        after.contains_key(coin) implies after[coin].has_no_triggers() by {
        if !loaded_books(grafted, true).contains_key(coin) {
            assert(state.books.contains_key(coin));
        }
    }
}

proof fn lemma_diffs_no_triggers(
    progress: Progress,
    diffs: Seq<NodeDataOrderDiff>,
    ignore_spot: bool,
    height: u64,
)
    requires
        none_triggers(progress.books),
    ensures
        none_triggers(progress.with_diffs(diffs, ignore_spot, height).books),
    decreases diffs.len(),
{
    if diffs.len() > 0 {
        lemma_diffs_no_triggers(progress, diffs.drop_last(), ignore_spot, height);
        let before = progress.with_diffs(diffs.drop_last(), ignore_spot, height);
        let diff = diffs.last();
        let books = before.books;
        let coin = diff.coin@;
        match read_diff(diff.raw_book_diff) {
            Err(_) => {},
            Ok(InnerOrderDiff::New { sz }) => {
                if before.openings.contains_key(diff.oid) {
                    let status = before.openings[diff.oid];
                    if reported_order(status) is Ok && decimal_value(diff.px@) is Ok {
                        let order = opened_order(
                            reported_order(status)->Ok_0,
                            sz.units,
                            status.time,
                            decimal_value(diff.px@)->Ok_0,
                        );
                        let book = book_or_empty(books, order.coin);
                        assert(book.has_no_triggers());
                        lemma_with_order_no_triggers(book, order);
                    }
                }
            },
            Ok(InnerOrderDiff::Update { new_sz, .. }) => {
                if books.contains_key(coin) {
                    lemma_with_size_no_triggers(books[coin], diff.oid, new_sz.units);
                }
            },
            Ok(InnerOrderDiff::Remove) => {
                if books.contains_key(coin) {
                    lemma_without_no_triggers(books[coin], diff.oid);
                }
            },
        }
    }
}

/// No block brings an order onto a book that waits for a trigger: one that comes onto a book has
/// been triggered.
pub proof fn lemma_block_no_triggers(
    state: StateView,
    statuses: BatchView<NodeDataOrderStatus>,
    diffs: BatchView<NodeDataOrderDiff>,
)
    requires
        none_triggers(state.books),
    ensures
        none_triggers(state_after(state, statuses, diffs).books),
{
    lemma_diffs_no_triggers(
        Progress {
            books: state.books,
            last_warn: state.last_warn,
            skipped: Seq::empty(),
            openings: openings(statuses.events),
            failure: None,
        },
        diffs.events,
        state.ignore_spot,
        statuses.number,
    );
}

/// A block that is in the books already is accepted and changes nothing.
pub proof fn lemma_old_block_changes_nothing(
    state: StateView,
    statuses: BatchView<NodeDataOrderStatus>,
    diffs: BatchView<NodeDataOrderDiff>,
)
    requires
        statuses.number <= state.height,
    ensures
        apply_result(state, statuses, diffs) is Ok,
        state_after(state, statuses, diffs) == state,
{
}

/// A block that was worked in may come again: the second time it changes nothing.
pub proof fn lemma_replay_changes_nothing(
    state: StateView,
    statuses: BatchView<NodeDataOrderStatus>,
    diffs: BatchView<NodeDataOrderDiff>,
)
    requires
        apply_result(state, statuses, diffs) is Ok,
    ensures
        ({
            let after = state_after(state, statuses, diffs);
            &&& apply_result(after, statuses, diffs) is Ok
            &&& state_after(after, statuses, diffs) == after
        }),
{
}

/// The height never falls. After a block that was worked in, it is that block's.
pub proof fn lemma_height_never_falls(
    state: StateView,
    statuses: BatchView<NodeDataOrderStatus>,
    diffs: BatchView<NodeDataOrderDiff>,
)
    ensures
        state_after(state, statuses, diffs).height >= state.height,
        apply_result(state, statuses, diffs) is Ok && statuses.number > state.height
            ==> state_after(state, statuses, diffs).height == statuses.number,
        apply_result(state, statuses, diffs) is Err ==> state_after(state, statuses, diffs).height
            < statuses.number,
{
}

/// A gap between blocks is tolerated once at most, and only before any block was worked in: a
/// block that was looked at ends the grace, and without it a gap is refused and changes nothing.
pub proof fn lemma_gap_tolerated_once(
    state: StateView,
    statuses: BatchView<NodeDataOrderStatus>,
    diffs: BatchView<NodeDataOrderDiff>,
)
    ensures
        statuses.number > state.height ==> !state_after(
            state,
            statuses,
            diffs,
        ).allow_initial_gap,
        !state.allow_initial_gap ==> !state_after(state, statuses, diffs).allow_initial_gap,
        !state.allow_initial_gap && statuses.number > state.height + 1 ==> {
            &&& apply_result(state, statuses, diffs) == Err::<(), ListenerError>(
                ListenerError::UnexpectedBlock {
                    expected: (state.height + 1) as u64,
                    got: statuses.number,
                    time: statuses.time,
                },
            )
            &&& state_after(state, statuses, diffs) == state
        },
{
}

/// A gap that is accepted is reported with the height and the block that came, and nothing else
/// is: what was reported before stays.
pub proof fn lemma_accepted_gap_is_reported(
    state: StateView,
    statuses: BatchView<NodeDataOrderStatus>,
    diffs: BatchView<NodeDataOrderDiff>,
)
    ensures
        state_after(state, statuses, diffs).gaps == if statuses.number > state.height + 1
            && state.allow_initial_gap {
            state.gaps.push(
                AcceptedGap {
                    height: state.height,
                    expected: (state.height + 1) as u64,
                    got: statuses.number,
                },
            )
        } else {
            state.gaps
        },
{
}

/// No diff and no status is of the coin.
pub open spec fn is_untouched(
    coin: Seq<char>,
    openings: Map<u64, NodeDataOrderStatus>,
    diffs: Seq<NodeDataOrderDiff>,
) -> bool {
    &&& forall|i: int| 0 <= i < diffs.len() ==> (#[trigger] diffs[i]).coin@ != coin
    &&& forall|oid: u64| #[trigger]
        openings.contains_key(oid) ==> openings[oid].order.coin@ != coin
}

/// Two sets of books are the same at a coin.
pub open spec fn same_at(
    a: Map<Seq<char>, BookView>,
    b: Map<Seq<char>, BookView>,
    coin: Seq<char>,
) -> bool {
    &&& a.contains_key(coin) == b.contains_key(coin)
    &&& a.contains_key(coin) ==> a[coin] == b[coin]
}

proof fn lemma_diffs_untouched(
    progress: Progress,
    diffs: Seq<NodeDataOrderDiff>,
    ignore_spot: bool,
    height: u64,
    coin: Seq<char>,
)
    requires
        is_untouched(coin, progress.openings, diffs),
    ensures
        same_at(
            progress.books,
            progress.with_diffs(diffs, ignore_spot, height).books,
            coin,
        ),
        forall|oid: u64| #[trigger]
            progress.with_diffs(diffs, ignore_spot, height).openings.contains_key(oid) ==> {
                &&& progress.openings.contains_key(oid)
                &&& progress.openings[oid] == progress.with_diffs(
                    diffs,
                    ignore_spot,
                    height,
                ).openings[oid]
            },
    decreases diffs.len(),
{
    if diffs.len() > 0 {
        let init = diffs.drop_last();
        assert forall|i: int| 0 <= i < init.len() implies (#[trigger] init[i]).coin@ != coin by {
            assert(diffs[i] == init[i]);
        }
        lemma_diffs_untouched(progress, init, ignore_spot, height, coin);
        let before = progress.with_diffs(init, ignore_spot, height);
        let last = diffs.last();
        assert(diffs[diffs.len() - 1].coin@ != coin);
        let after = progress.with_diffs(diffs, ignore_spot, height);
        assert forall|oid: u64| #[trigger] after.openings.contains_key(oid) implies
            progress.openings.contains_key(oid) && progress.openings[oid]
            == after.openings[oid] by {
            assert(before.openings.contains_key(oid));
        }
        if before.failure is None && before.openings.contains_key(last.oid) {
            assert(progress.openings.contains_key(last.oid));
            assert(before.openings[last.oid] == progress.openings[last.oid]);
        }
    }
}

/// A block leaves the book of a coin as it is, where none of its diffs and none of its statuses
/// is of that coin.
pub proof fn lemma_other_coins_stay(
    state: StateView,
    statuses: BatchView<NodeDataOrderStatus>,
    diffs: BatchView<NodeDataOrderDiff>,
    coin: Seq<char>,
)
    requires
        forall|i: int| 0 <= i < diffs.events.len() ==> (#[trigger] diffs.events[i]).coin@ != coin,
        forall|i: int|
            0 <= i < statuses.events.len() ==> (#[trigger] statuses.events[i]).order.coin@ != coin,
    ensures
        same_at(state.books, state_after(state, statuses, diffs).books, coin),
{
    lemma_openings_are_statuses(statuses.events, coin);
    lemma_diffs_untouched(
        Progress {
            books: state.books,
            last_warn: state.last_warn,
            skipped: Seq::empty(),
            openings: openings(statuses.events),
            failure: None,
        },
        diffs.events,
        state.ignore_spot,
        statuses.number,
        coin,
    );
}

proof fn lemma_openings_are_statuses(statuses: Seq<NodeDataOrderStatus>, coin: Seq<char>)
    requires
        forall|i: int|
            0 <= i < statuses.len() ==> (#[trigger] statuses[i]).order.coin@ != coin,
    ensures
        forall|oid: u64| #[trigger]
            openings(statuses).contains_key(oid) ==> openings(statuses)[oid].order.coin@ != coin,
    decreases statuses.len(),
{
    if statuses.len() > 0 {
        let init = statuses.drop_last();
        assert forall|i: int| 0 <= i < init.len() implies (#[trigger] init[i]).order.coin@
            != coin by {
            assert(statuses[i] == init[i]);
        }
        lemma_openings_are_statuses(init, coin);
        assert(statuses[statuses.len() - 1].order.coin@ != coin);
    }
}

proof fn lemma_ignored_diffs(
    progress: Progress,
    diffs: Seq<NodeDataOrderDiff>,
    ignore_spot: bool,
    height: u64,
)
    requires
        forall|i: int|
            0 <= i < diffs.len() ==> !is_considered((#[trigger] diffs[i]).coin@, ignore_spot),
    ensures
        progress.with_diffs(diffs, ignore_spot, height) == progress,
    decreases diffs.len(),
{
    if diffs.len() > 0 {
        let init = diffs.drop_last();
        assert forall|i: int| 0 <= i < init.len() implies !is_considered(
            (#[trigger] init[i]).coin@,
            ignore_spot,
        ) by {
            assert(diffs[i] == init[i]);
        }
        lemma_ignored_diffs(progress, init, ignore_spot, height);
        assert(!is_considered(diffs[diffs.len() - 1].coin@, ignore_spot));
    }
}

/// A block whose diffs are all of spot coins is worked in without a change of any book, where
/// spot coins are ignored.
pub proof fn lemma_spot_ignored(
    state: StateView,
    statuses: BatchView<NodeDataOrderStatus>,
    diffs: BatchView<NodeDataOrderDiff>,
)
    requires
        is_next(state, statuses.number),
        forall|i: int|
            0 <= i < diffs.events.len() ==> !is_considered(
                (#[trigger] diffs.events[i]).coin@,
                state.ignore_spot,
            ),
    ensures
        apply_result(state, statuses, diffs) is Ok,
        state_after(state, statuses, diffs).books == state.books,
        state_after(state, statuses, diffs).height == statuses.number,
{
    lemma_ignored_diffs(
        Progress {
            books: state.books,
            last_warn: state.last_warn,
            skipped: Seq::empty(),
            openings: openings(statuses.events),
            failure: None,
        },
        diffs.events,
        state.ignore_spot,
        statuses.number,
    );
}

proof fn lemma_considered_diffs(
    progress: Progress,
    diffs: Seq<NodeDataOrderDiff>,
    ignore_spot: bool,
    height: u64,
)
    ensures
        progress.with_diffs(considered_diffs(diffs, ignore_spot), ignore_spot, height)
            == progress.with_diffs(diffs, ignore_spot, height),
    decreases diffs.len(),
{
    reveal(Seq::filter);
    if diffs.len() > 0 {
        let init = diffs.drop_last();
        let kept = considered_diffs(init, ignore_spot);
        lemma_considered_diffs(progress, init, ignore_spot, height);
        if is_considered(diffs.last().coin@, ignore_spot) {
            assert(considered_diffs(diffs, ignore_spot) == kept.push(diffs.last()));
            assert(kept.push(diffs.last()).drop_last() =~= kept);
        }
    }
}

/// The diffs that are of coins that are looked at.
pub open spec fn considered_diffs(
    diffs: Seq<NodeDataOrderDiff>,
    ignore_spot: bool,
) -> Seq<NodeDataOrderDiff> {
    diffs.filter(|diff: NodeDataOrderDiff| is_considered(diff.coin@, ignore_spot))
}

/// A block does the same without its diffs of spot coins, where those are ignored.
pub proof fn lemma_same_without_spot_diffs(
    state: StateView,
    statuses: BatchView<NodeDataOrderStatus>,
    diffs: BatchView<NodeDataOrderDiff>,
)
    ensures
        ({
            let kept = BatchView {
                events: considered_diffs(diffs.events, state.ignore_spot),
                ..diffs
            };
            &&& apply_result(state, statuses, kept) == apply_result(state, statuses, diffs)
            &&& state_after(state, statuses, kept) == state_after(state, statuses, diffs)
        }),
{
    lemma_considered_diffs(
        Progress {
            books: state.books,
            last_warn: state.last_warn,
            skipped: Seq::empty(),
            openings: openings(statuses.events),
            failure: None,
        },
        diffs.events,
        state.ignore_spot,
        statuses.number,
    );
}

/// An order that comes onto a book and leaves it again leaves the books as they were, where the
/// coin has a book and the id is new to it.
pub proof fn lemma_new_then_remove(
    progress: Progress,
    opening: NodeDataOrderDiff,
    closing: NodeDataOrderDiff,
    ignore_spot: bool,
    height: u64,
)
    requires
        is_considered(opening.coin@, ignore_spot),
        progress.failure is None,
        progress.openings.contains_key(opening.oid),
        progress.openings[opening.oid].order.coin@ == opening.coin@,
        reported_order(progress.openings[opening.oid]) is Ok,
        reported_order(progress.openings[opening.oid])->Ok_0.oid == opening.oid,
        decimal_value(opening.px@) is Ok,
        read_diff(opening.raw_book_diff) matches Ok(InnerOrderDiff::New { .. }),
        closing.coin@ == opening.coin@,
        closing.oid == opening.oid,
        read_diff(closing.raw_book_diff) matches Ok(InnerOrderDiff::Remove),
        progress.books.contains_key(opening.coin@),
        !progress.books[opening.coin@].holds(opening.oid),
    ensures
        ({
            let opened = progress.with_diff(opening, ignore_spot, height);
            let closed = opened.with_diff(closing, ignore_spot, height);
            &&& opened.failure is None
            &&& opened.books[opening.coin@].holds(opening.oid)
            &&& closed.failure is None
            &&& closed.books == progress.books
        }),
{
    let status = progress.openings[opening.oid];
    let sz = match read_diff(opening.raw_book_diff) {
        Ok(InnerOrderDiff::New { sz }) => sz.units,
        _ => 0,
    };
    let order = opened_order(
        reported_order(status)->Ok_0,
        sz,
        status.time,
        decimal_value(opening.px@)->Ok_0,
    );
    let coin = opening.coin@;
    lemma_add_then_remove(progress.books[coin], order);
    let opened = progress.with_diff(opening, ignore_spot, height);
    assert(opened.books == with_order(progress.books, order));
    let closed = opened.with_diff(closing, ignore_spot, height);
    assert(closed.books =~= progress.books);
}

/// After the books that a snapshot has and the state lacks were grafted in, the snapshot has
/// no book that the state lacks, and the books that were there before are as they were.
pub proof fn lemma_grafting_closes_the_gap(
    state: StateView,
    expected: Map<Seq<char>, Snapshot<InnerL4Order>>,
    ignore_triggers: bool,
)
    ensures
        ({
            let extras = extra_books(state.books, expected, state.ignore_spot);
            let after = with_extra_books(state, extras, ignore_triggers);
            &&& extra_books(after.books, expected, state.ignore_spot).dom().is_empty()
            &&& after.books.dom() == state.books.dom() + extras.dom()
            &&& forall|coin: Seq<char>| #[trigger]
                state.books.contains_key(coin) ==> after.books[coin] == state.books[coin]
            &&& after.height == state.height
        }),
{
    let extras = extra_books(state.books, expected, state.ignore_spot);
    let keep = |coin: Seq<char>| is_considered(coin, state.ignore_spot);
    let after = with_extra_books(state, extras, ignore_triggers);
    assert(extras.filter_keys(keep) =~= extras);
    assert(after.books.dom() =~= state.books.dom() + extras.dom());
    let again = extra_books(after.books, expected, state.ignore_spot);
    assert(again.dom() =~= Set::empty()) by {
        assert forall|coin: Seq<char>| !again.contains_key(coin) by {
            if again.contains_key(coin) {
                assert(extras.contains_key(coin));
                assert(after.books.contains_key(coin));
            }
        }
    }
}

/// A state that agrees with a snapshot still does after the books that it lacks were grafted
/// in, where the snapshot's books are in priority and hold no order that waits for a trigger.
pub proof fn lemma_grafting_stays_consistent(
    state: StateView,
    expected: Map<Seq<char>, Snapshot<InnerL4Order>>,
)
    requires
        books_consistent(state.books, snapshot_books(expected), state.ignore_spot),
        all_in_priority(snapshot_books(expected)),
        none_triggers(snapshot_books(expected)),
    ensures
        ({
            let extras = extra_books(state.books, expected, state.ignore_spot);
            let after = with_extra_books(state, extras, true);
            books_consistent(after.books, snapshot_books(expected), state.ignore_spot)
        }),
{
    let extras = extra_books(state.books, expected, state.ignore_spot);
    let keep = |coin: Seq<char>| is_considered(coin, state.ignore_spot);
    let after = with_extra_books(state, extras, true);
    let wanted = snapshot_books(expected);
    assert(extras.filter_keys(keep) =~= extras);
    assert forall|coin: Seq<char>| #[trigger]
        after.books.contains_key(coin) && extras.contains_key(coin) implies after.books[coin]
        == wanted[coin] by {
        assert(wanted.contains_key(coin));
        lemma_snapshot_round_trip(wanted[coin], true);
    }
    assert forall|coin: Seq<char>| #[trigger]
        after.books.contains_key(coin) && !extras.contains_key(coin) implies
        state.books.contains_key(coin) && after.books[coin] == state.books[coin] by {}
}

/// A state that starts from a snapshot of some books has those books, where they are in priority
/// and no order waits for a trigger.
pub proof fn lemma_restart_gives_the_books_back(
    books: Map<Seq<char>, BookView>,
    snapshot: Map<Seq<char>, Snapshot<InnerL4Order>>,
    height: u64,
    time: u64,
    ignore_triggers: bool,
    ignore_spot: bool,
)
    requires
        snapshot_books(snapshot) == books,
        all_in_priority(books),
        ignore_triggers ==> none_triggers(books),
    ensures
        started(snapshot, height, time, ignore_triggers, ignore_spot).books == books,
{
    let loaded = loaded_books(snapshot, ignore_triggers);
    assert forall|coin: Seq<char>| books.contains_key(coin) implies #[trigger] loaded[coin]
        == books[coin] by {
        lemma_snapshot_round_trip(books[coin], ignore_triggers);
    }
    assert(loaded =~= books);
}

/// A state agrees with its own snapshot, which has no book that it lacks.
pub proof fn lemma_own_snapshot_agrees(
    state: StateView,
    snapshot: Map<Seq<char>, Snapshot<InnerL4Order>>,
    ignore_spot: bool,
)
    requires
        snapshot_books(snapshot) == state.books,
    ensures
        books_consistent(state.books, snapshot_books(snapshot), ignore_spot),
        extra_books(state.books, snapshot, ignore_spot).dom().is_empty(),
{
    let extras = extra_books(state.books, snapshot, ignore_spot);
    assert(extras.dom() =~= Set::empty()) by {
        assert forall|coin: Seq<char>| !extras.contains_key(coin) by {
            if snapshot.contains_key(coin) {
                assert(snapshot_books(snapshot).contains_key(coin));
            }
        }
    }
}

/// A coin without a book that was just reported is not reported again for a number of blocks,
/// and a report changes nothing for the other coins.
pub proof fn lemma_reports_are_spaced(
    last_warn: Map<Seq<char>, u64>,
    coin: Seq<char>,
    height: u64,
    later: u64,
    other: Seq<char>,
)
    requires
        is_warn_due(last_warn, coin, height),
        height <= later,
    ensures
        is_warn_due(noted(last_warn, coin, height), coin, later) <==> later - height
            >= NOT_YET_GRAFTED_WARN_THROTTLE_BLOCKS,
        other != coin ==> is_warn_due(noted(last_warn, coin, height), other, later)
            == is_warn_due(last_warn, other, later),
{
}

} // verus!
