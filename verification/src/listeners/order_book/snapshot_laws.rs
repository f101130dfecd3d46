//! What is made of a fetched snapshot.

use crate::listeners::order_book::consistency::{
    extra_books, fault_coin, ConsistencyError,
};
use crate::listeners::order_book::listener_laws::{replayed, same_books_and_height};
use crate::listeners::order_book::model::{pairing, ListenerView, PairView};
use crate::listeners::order_book::snapshot_check::{
    books_consistent, is_book_fault, is_side_fault, is_verdict, SnapshotVerdict,
};
use crate::listeners::order_book::state::{
    apply_result, openings, state_after, with_extra_books, Progress, StateView,
};
use crate::order_book::book::{order_views, snapshot_book, BookView, Snapshot};
use crate::order_book::multi_book::snapshot_books;
use crate::types::inner::{InnerL4Order, OrderView};
use crate::types::node_data::{BatchView, NodeDataOrderDiff, NodeDataOrderStatus};
use vstd::prelude::*;

verus! {

/// The coin is left out: it names a spot market, and those are not followed.
pub open spec fn is_left_out_coin(coin: Seq<char>, ignore_spot: bool) -> bool {
    &&& ignore_spot
    &&& (coin.len() > 0 && coin[0] == '@') || coin == "PURR/USDC"@
}

/// The same orders stand on both sides of a book and of a snapshot, at the same places.
pub open spec fn shows(snapshot: Snapshot<InnerL4Order>, book: BookView) -> bool {
    &&& snapshot.bids@.len() == book.bids.len()
    &&& snapshot.asks@.len() == book.asks.len()
    &&& forall|i: int| 0 <= i < book.bids.len() ==> (#[trigger] snapshot.bids@[i])@ == book.bids[i]
    &&& forall|i: int| 0 <= i < book.asks.len() ==> (#[trigger] snapshot.asks@[i])@ == book.asks[i]
}

/// Every book that is followed is as the snapshot has it; one that the snapshot lacks is empty.
pub open spec fn agrees(
    books: Map<Seq<char>, BookView>,
    snapshot: Map<Seq<char>, Snapshot<InnerL4Order>>,
    ignore_spot: bool,
) -> bool {
    forall|coin: Seq<char>| #[trigger]
        books.contains_key(coin) && !is_left_out_coin(coin, ignore_spot) ==> {
            if snapshot.contains_key(coin) {
                shows(snapshot[coin], books[coin])
            } else {
                books[coin].bids.len() == 0 && books[coin].asks.len() == 0
            }
        }
}

/// The snapshot has a book of a coin that is followed and that has no book here.
pub open spec fn lacks(
    books: Map<Seq<char>, BookView>,
    snapshot: Map<Seq<char>, Snapshot<InnerL4Order>>,
    ignore_spot: bool,
    coin: Seq<char>,
) -> bool {
    &&& snapshot.contains_key(coin)
    &&& !is_left_out_coin(coin, ignore_spot)
    &&& !books.contains_key(coin)
}

proof fn lemma_shows(snapshot: Snapshot<InnerL4Order>, book: BookView)
    ensures
        shows(snapshot, book) <==> snapshot_book(snapshot) == book,
{
    let shown = snapshot_book(snapshot);
    if shows(snapshot, book) {
        assert forall|i: int| 0 <= i < shown.bids.len() implies #[trigger] shown.bids[i]
            == book.bids[i] by {
            assert(snapshot.bids@[i]@ == book.bids[i]);
        }
        assert forall|i: int| 0 <= i < shown.asks.len() implies #[trigger] shown.asks[i]
            == book.asks[i] by {
            assert(snapshot.asks@[i]@ == book.asks[i]);
        }
        assert(shown =~= book);
    }
    if shown == book {
        assert forall|i: int| 0 <= i < book.bids.len() implies (#[trigger] snapshot.bids@[i])@
            == book.bids[i] by {
            assert(shown.bids[i] == snapshot.bids@[i]@);
        }
        assert forall|i: int| 0 <= i < book.asks.len() implies (#[trigger] snapshot.asks@[i])@
            == book.asks[i] by {
            assert(shown.asks[i] == snapshot.asks@[i]@);
        }
    }
}

proof fn lemma_agrees(
    books: Map<Seq<char>, BookView>,
    snapshot: Map<Seq<char>, Snapshot<InnerL4Order>>,
    ignore_spot: bool,
)
    ensures
        agrees(books, snapshot, ignore_spot) <==> books_consistent(
            books,
            snapshot_books(snapshot),
            ignore_spot,
        ),
{
    let shown = snapshot_books(snapshot);
    assert forall|coin: Seq<char>| #[trigger] books.contains_key(coin) implies {
        &&& snapshot.contains_key(coin) == shown.contains_key(coin)
        &&& snapshot.contains_key(coin) ==> (shows(snapshot[coin], books[coin]) <==> shown[coin]
            == books[coin])
        &&& (books[coin].bids.len() == 0 && books[coin].asks.len() == 0) <==> books[coin]
            == BookView::empty()
    } by {
        if snapshot.contains_key(coin) {
            lemma_shows(snapshot[coin], books[coin]);
        }
        if books[coin].bids.len() == 0 && books[coin].asks.len() == 0 {
            assert(books[coin] =~= BookView::empty());
        }
    }
    if agrees(books, snapshot, ignore_spot) {
        assert(books_consistent(books, shown, ignore_spot));
    }
    if books_consistent(books, shown, ignore_spot) {
        assert(agrees(books, snapshot, ignore_spot));
    }
}

/// Where there is no state, a snapshot is what to start from, as it was fetched.
pub proof fn lemma_first_snapshot_is_taken(
    verdict: SnapshotVerdict,
    blocks: Seq<PairView>,
    height: u64,
    expected: Map<Seq<char>, Snapshot<InnerL4Order>>,
    ignore_spot: bool,
)
    requires
        is_verdict(verdict, None, blocks, height, expected, ignore_spot),
    ensures
        verdict matches SnapshotVerdict::Initialize { snapshot } && snapshot@ == expected,
{
}

/// A block that was collected is worked in before anything is compared, as long as the copy of
/// the state is behind the snapshot: the verdict is that on the state after the block, with the
/// blocks that are left.
pub proof fn lemma_collected_block_is_worked_in(
    verdict: SnapshotVerdict,
    state: StateView,
    blocks: Seq<PairView>,
    height: u64,
    expected: Map<Seq<char>, Snapshot<InnerL4Order>>,
    ignore_spot: bool,
)
    requires
        state.height < height,
        blocks.len() > 0,
    ensures
        match apply_result(state, blocks[0].statuses, blocks[0].diffs) {
            Ok(()) => is_verdict(verdict, Some(state), blocks, height, expected, ignore_spot)
                == is_verdict(
                verdict,
                Some(state_after(state, blocks[0].statuses, blocks[0].diffs)),
                blocks.drop_first(),
                height,
                expected,
                ignore_spot,
            ),
            Err(error) => is_verdict(
                verdict,
                Some(state),
                blocks,
                height,
                expected,
                ignore_spot,
            ) ==> verdict == (SnapshotVerdict::CatchUpFailed { error }),
        },
{
}

/// A copy of the state that stays behind the snapshot, or that is past it from the start, is not
/// compared with it.
pub proof fn lemma_other_height_is_not_compared(
    verdict: SnapshotVerdict,
    state: StateView,
    blocks: Seq<PairView>,
    height: u64,
    expected: Map<Seq<char>, Snapshot<InnerL4Order>>,
    ignore_spot: bool,
)
    requires
        is_verdict(verdict, Some(state), blocks, height, expected, ignore_spot),
    ensures
        state.height < height && blocks.len() == 0 ==> verdict == (
        SnapshotVerdict::NotEnoughUpdates { state_height: state.height }),
        state.height > height ==> verdict == (SnapshotVerdict::SnapshotLagging {
            state_height: state.height,
        }),
{
}

/// A copy of the state at the snapshot's height is compared with it, whatever blocks are left: it
/// is a mismatch where a book that is followed differs, and otherwise the books of the snapshot
/// that are followed and that there is none for here are the ones to graft in, with the orders
/// that the snapshot has. There is nothing to do exactly where there is no such book.
pub proof fn lemma_same_height_is_compared(
    verdict: SnapshotVerdict,
    state: StateView,
    blocks: Seq<PairView>,
    height: u64,
    expected: Map<Seq<char>, Snapshot<InnerL4Order>>,
    ignore_spot: bool,
)
    requires
        state.height == height,
        is_verdict(verdict, Some(state), blocks, height, expected, ignore_spot),
    ensures
        verdict is Mismatch <==> !agrees(state.books, expected, ignore_spot),
        verdict is Consistent <==> agrees(state.books, expected, ignore_spot) && forall|
            coin: Seq<char>,
        | #[trigger]
            expected.contains_key(coin) ==> !lacks(state.books, expected, ignore_spot, coin),
        verdict is Mismatch || verdict is Consistent || verdict is ExtraBooks,
        verdict matches SnapshotVerdict::ExtraBooks { extras } ==> {
            &&& forall|coin: Seq<char>| #[trigger]
                extras@.contains_key(coin) <==> lacks(state.books, expected, ignore_spot, coin)
            &&& forall|coin: Seq<char>| #[trigger]
                extras@.contains_key(coin) ==> extras@[coin] == expected[coin]
        },
{
    lemma_agrees(state.books, expected, ignore_spot);
    let missing = extra_books(state.books, expected, ignore_spot);
    assert forall|coin: Seq<char>| #[trigger] missing.contains_key(coin) <==> lacks(
        state.books,
        expected,
        ignore_spot,
        coin,
    ) by {}
    if verdict is ExtraBooks {
        let coin = choose|coin: Seq<char>| missing.dom().contains(coin);
        assert(missing.contains_key(coin));
        assert(expected.contains_key(coin) && lacks(state.books, expected, ignore_spot, coin));
    }
    if verdict is Consistent {
        assert forall|coin: Seq<char>| #[trigger] expected.contains_key(coin) implies !lacks(
            state.books,
            expected,
            ignore_spot,
            coin,
        ) by {
            assert(!missing.contains_key(coin));
        }
    }
}

/// The first orders of a list are those of a list of a snapshot.
pub open spec fn same_up_to(
    orders: Seq<OrderView>,
    shown: Seq<InnerL4Order>,
    n: int,
) -> bool {
    forall|i: int| 0 <= i < n ==> #[trigger] orders[i] == shown[i]@
}

/// A fault is the first one in a list of orders, held against a list of a snapshot: two orders
/// that differ with none before them that do, or the order that one list has where the other
/// has ended.
pub open spec fn is_first_fault(
    fault: ConsistencyError<InnerL4Order>,
    orders: Seq<OrderView>,
    shown: Seq<InnerL4Order>,
) -> bool {
    match fault {
        ConsistencyError::OrdersDoNotMatch { expected, received, .. } => exists|i: int|
            0 <= i < orders.len() && i < shown.len() && #[trigger] same_up_to(orders, shown, i)
                && orders[i] != shown[i]@ && received@ == orders[i] && expected@ == shown[i]@,
        ConsistencyError::MissingOrder { expected, .. } => {
            &&& orders.len() < shown.len()
            &&& same_up_to(orders, shown, orders.len() as int)
            &&& expected@ == shown[orders.len() as int]@
        },
        ConsistencyError::UnexpectedOrder { received, .. } => {
            &&& shown.len() < orders.len()
            &&& same_up_to(orders, shown, shown.len() as int)
            &&& received@ == orders[shown.len() as int]
        },
        ConsistencyError::MissingBook { .. } => false,
    }
}

proof fn lemma_first_fault(
    fault: ConsistencyError<InnerL4Order>,
    orders: Seq<OrderView>,
    shown: Seq<InnerL4Order>,
)
    requires
        is_side_fault(fault, orders, order_views(shown)),
    ensures
        is_first_fault(fault, orders, shown),
{
    let views = order_views(shown);
    match fault {
        ConsistencyError::OrdersDoNotMatch { expected, received, .. } => {
            let i = choose|i: int|
                0 <= i < orders.len() && i < views.len() && #[trigger] orders[i] == received@
                    && views[i] == expected@ && received@ != expected@ && orders.take(i)
                    == views.take(i);
            assert forall|j: int| 0 <= j < i implies #[trigger] orders[j] == shown[j]@ by {
                assert(orders.take(i)[j] == views.take(i)[j]);
            }
            assert(same_up_to(orders, shown, i));
        },
        ConsistencyError::MissingOrder { .. } => {
            let n = orders.len() as int;
            assert forall|j: int| 0 <= j < n implies #[trigger] orders[j] == shown[j]@ by {
                assert(views.take(n)[j] == views[j]);
            }
        },
        ConsistencyError::UnexpectedOrder { .. } => {
            let n = shown.len() as int;
            assert forall|j: int| 0 <= j < n implies #[trigger] orders[j] == shown[j]@ by {
                assert(orders.take(n)[j] == views[j]);
            }
        },
        ConsistencyError::MissingBook { .. } => {},
    }
}

/// A mismatch names the first fault of one coin's book that is followed: a book with orders that
/// the snapshot lacks, or else the first order of the bids that is not as the snapshot has it,
/// and only where all bids are, the first such order of the asks.
pub proof fn lemma_mismatch_names_the_first_fault(
    fault: ConsistencyError<InnerL4Order>,
    state: StateView,
    blocks: Seq<PairView>,
    height: u64,
    expected: Map<Seq<char>, Snapshot<InnerL4Order>>,
    ignore_spot: bool,
)
    requires
        state.height == height,
        is_verdict(
            SnapshotVerdict::Mismatch { fault },
            Some(state),
            blocks,
            height,
            expected,
            ignore_spot,
        ),
    ensures
        ({
            let coin = match fault {
                ConsistencyError::OrdersDoNotMatch { coin, .. } => coin@,
                ConsistencyError::MissingOrder { coin, .. } => coin@,
                ConsistencyError::UnexpectedOrder { coin, .. } => coin@,
                ConsistencyError::MissingBook { coin } => coin@,
            };
            let book = state.books[coin];
            let shown = expected[coin];
            &&& state.books.contains_key(coin)
            &&& !is_left_out_coin(coin, ignore_spot)
            &&& fault is MissingBook <==> !expected.contains_key(coin)
            &&& fault is MissingBook ==> book.bids.len() + book.asks.len() > 0
            &&& !(fault is MissingBook) ==> if book.bids.len() == shown.bids@.len() && same_up_to(
                book.bids,
                shown.bids@,
                book.bids.len() as int,
            ) {
                is_first_fault(fault, book.asks, shown.asks@)
            } else {
                is_first_fault(fault, book.bids, shown.bids@)
            }
        }),
{
    let coin = fault_coin(fault);
    let book = state.books[coin];
    let wanted = snapshot_books(expected);
    assert(is_book_fault(fault, state.books, wanted, ignore_spot));
    if fault is MissingBook {
        if book.bids.len() + book.asks.len() == 0 {
            assert(book =~= BookView::empty());
        }
    } else {
        let shown = expected[coin];
        assert(wanted[coin] == snapshot_book(shown));
        let views = order_views(shown.bids@);
        if book.bids == views {
            assert forall|i: int| 0 <= i < book.bids.len() implies #[trigger] book.bids[i]
                == shown.bids@[i]@ by {
                assert(views[i] == shown.bids@[i]@);
            }
            lemma_first_fault(fault, book.asks, shown.asks@);
        } else {
            if book.bids.len() == shown.bids@.len() && same_up_to(
                book.bids,
                shown.bids@,
                book.bids.len() as int,
            ) {
                assert(book.bids =~= views);
            }
            lemma_first_fault(fault, book.bids, shown.bids@);
        }
    }
}

proof fn lemma_diffs_keep_books(
    progress: Progress,
    diffs: Seq<NodeDataOrderDiff>,
    ignore_spot: bool,
    height: u64,
)
    ensures
        progress.books.dom().subset_of(progress.with_diffs(diffs, ignore_spot, height).books.dom()),
    decreases diffs.len(),
{
    if diffs.len() > 0 {
        lemma_diffs_keep_books(progress, diffs.drop_last(), ignore_spot, height);
    }
}

/// No block takes a coin's book away, though it may take all of its orders off.
pub proof fn lemma_blocks_keep_books(
    state: StateView,
    statuses: BatchView<NodeDataOrderStatus>,
    diffs: BatchView<NodeDataOrderDiff>,
    coin: Seq<char>,
)
    requires
        state.books.contains_key(coin),
    ensures
        state_after(state, statuses, diffs).books.contains_key(coin),
{
    lemma_diffs_keep_books(
        Progress {
            books: state.books,
            last_warn: state.last_warn,
            skipped: Seq::empty(),
            openings: openings(statuses.events),
            failure: None,
        },
        diffs.events,
        state.ignore_spot,
        statuses.number,
    );
    assert(state.books.dom().contains(coin));
}

/// The blocks so far can be worked in one after the other, and after none before the last of them
/// is the state at a height.
pub open spec fn leads_up_to(state: StateView, blocks: Seq<PairView>, n: int, height: u64) -> bool {
    forall|k: int|
        0 <= k < n ==> {
            &&& (#[trigger] replayed(state, blocks.take(k))).height < height
            &&& apply_result(
                replayed(state, blocks.take(k)),
                blocks[k].statuses,
                blocks[k].diffs,
            ) is Ok
        }
}

proof fn lemma_verdict_after_blocks(
    verdict: SnapshotVerdict,
    state: StateView,
    blocks: Seq<PairView>,
    n: int,
    height: u64,
    expected: Map<Seq<char>, Snapshot<InnerL4Order>>,
    ignore_spot: bool,
)
    requires
        0 <= n <= blocks.len(),
        leads_up_to(state, blocks, n, height),
        is_verdict(verdict, Some(state), blocks, height, expected, ignore_spot),
    ensures
        is_verdict(
            verdict,
            Some(replayed(state, blocks.take(n))),
            blocks.skip(n),
            height,
            expected,
            ignore_spot,
        ),
    decreases n,
{
    if n == 0 {
        assert(blocks.take(0) =~= Seq::empty());
        assert(blocks.skip(0) =~= blocks);
    } else {
        lemma_verdict_after_blocks(verdict, state, blocks, n - 1, height, expected, ignore_spot);
        let before = replayed(state, blocks.take(n - 1));
        let left = blocks.skip(n - 1);
        assert(before.height < height);
        assert(left[0] == blocks[n - 1]);
        lemma_collected_block_is_worked_in(verdict, before, left, height, expected, ignore_spot);
        assert(left.drop_first() =~= blocks.skip(n));
        assert(blocks.take(n).drop_last() =~= blocks.take(n - 1));
        assert(blocks.take(n).last() == blocks[n - 1]);
    }
}

proof fn lemma_replay_keeps_books(
    state: StateView,
    blocks: Seq<PairView>,
    n: int,
    coin: Seq<char>,
)
    requires
        0 <= n <= blocks.len(),
        replayed(state, blocks.take(n)).books.contains_key(coin),
    ensures
        replayed(state, blocks).books.contains_key(coin),
    decreases blocks.len() - n,
{
    if n < blocks.len() {
        assert(blocks.take(n + 1).drop_last() =~= blocks.take(n));
        lemma_blocks_keep_books(
            replayed(state, blocks.take(n)),
            blocks[n].statuses,
            blocks[n].diffs,
            coin,
        );
        lemma_replay_keeps_books(state, blocks, n + 1, coin);
    } else {
        assert(blocks.take(n) =~= blocks);
    }
}

/// However many blocks were collected while a snapshot was fetched: where the state that they
/// lead to at the snapshot's height agrees with it, the listener has, once the verdict is
/// settled, a book for every coin of the snapshot that is followed. The books that it lacked are
/// those of the snapshot without their trigger orders, and all others are as they were.
pub proof fn lemma_settling_leaves_no_coin_without_a_book<F>(
    listener: ListenerView<F>,
    verdict: SnapshotVerdict,
    copy: StateView,
    blocks: Seq<PairView>,
    n: int,
    height: u64,
    expected: Map<Seq<char>, Snapshot<InnerL4Order>>,
    wall_clock_ms: Option<u128>,
    now: u64,
)
    requires
        listener.state is Some,
        same_books_and_height(replayed(copy, blocks), listener.state->0),
        is_verdict(verdict, Some(copy), blocks, height, expected, listener.state->0.ignore_spot),
        0 <= n <= blocks.len(),
        leads_up_to(copy, blocks, n, height),
        replayed(copy, blocks.take(n)).height == height,
        agrees(
            replayed(copy, blocks.take(n)).books,
            expected,
            listener.state->0.ignore_spot,
        ),
    ensures
        ({
            let reached = replayed(copy, blocks.take(n));
            let before = listener.state->0;
            let after = listener.settled(verdict, height, wall_clock_ms, now).state;
            &&& after is Some
            &&& after->0.height == before.height
            &&& forall|coin: Seq<char>| #[trigger]
                expected.contains_key(coin) && !is_left_out_coin(coin, before.ignore_spot)
                    ==> after->0.books.contains_key(coin)
            &&& forall|coin: Seq<char>| #[trigger]
                after->0.books.contains_key(coin) ==> if lacks(
                    reached.books,
                    expected,
                    before.ignore_spot,
                    coin,
                ) {
                    after->0.books[coin] == snapshot_book(expected[coin]).loaded(true)
                } else {
                    before.books.contains_key(coin) && after->0.books[coin] == before.books[coin]
                }
        }),
{
    let before = listener.state->0;
    let ignore_spot = before.ignore_spot;
    let reached = replayed(copy, blocks.take(n));
    lemma_verdict_after_blocks(verdict, copy, blocks, n, height, expected, ignore_spot);
    lemma_same_height_is_compared(
        verdict,
        reached,
        blocks.skip(n),
        height,
        expected,
        ignore_spot,
    );
    let after = listener.settled(verdict, height, wall_clock_ms, now).state;
    assert forall|coin: Seq<char>| #[trigger]
        expected.contains_key(coin) && !is_left_out_coin(
            coin,
            ignore_spot,
        ) implies after->0.books.contains_key(coin) by {
        if reached.books.contains_key(coin) {
            lemma_replay_keeps_books(copy, blocks, n, coin);
        } else {
            assert(lacks(reached.books, expected, ignore_spot, coin));
            match verdict {
                SnapshotVerdict::ExtraBooks { extras } => {
                    assert(extras@.contains_key(coin));
                },
                _ => {},
            }
        }
    }
    assert forall|coin: Seq<char>| #[trigger] after->0.books.contains_key(coin) implies if lacks(
        reached.books,
        expected,
        ignore_spot,
        coin,
    ) {
        after->0.books[coin] == snapshot_book(expected[coin]).loaded(true)
    } else {
        before.books.contains_key(coin) && after->0.books[coin] == before.books[coin]
    } by {
        match verdict {
            SnapshotVerdict::ExtraBooks { extras } => {
                assert(extras@.contains_key(coin) == lacks(
                    reached.books,
                    expected,
                    ignore_spot,
                    coin,
                ));
            },
            _ => {
                if lacks(reached.books, expected, ignore_spot, coin) {
                    assert(expected.contains_key(coin));
                }
            },
        }
    }
}

/// Books that are grafted in are those of the snapshot, built without trigger orders where asked,
/// but for spot markets where those are left out. All other books stay, and so does all else of
/// the state, but that a coin with a new book counts as never reported.
pub proof fn lemma_grafted_books(
    state: StateView,
    extras: Map<Seq<char>, Snapshot<InnerL4Order>>,
    ignore_triggers: bool,
    coin: Seq<char>,
)
    ensures
        ({
            let after = with_extra_books(state, extras, ignore_triggers);
            &&& if extras.contains_key(coin) && !is_left_out_coin(coin, state.ignore_spot) {
                &&& after.books.contains_key(coin)
                &&& after.books[coin] == snapshot_book(extras[coin]).loaded(ignore_triggers)
                &&& !after.last_warn.contains_key(coin)
            } else {
                &&& after.books.contains_key(coin) == state.books.contains_key(coin)
                &&& after.books.contains_key(coin) ==> after.books[coin] == state.books[coin]
                &&& after.last_warn.contains_key(coin) == state.last_warn.contains_key(coin)
                &&& after.last_warn.contains_key(coin) ==> after.last_warn[coin]
                    == state.last_warn[coin]
            }
            &&& after == (StateView { books: after.books, last_warn: after.last_warn, ..state })
        }),
{
}

/// A listener that is told that its state is as a snapshot has it, that it cannot be compared
/// with it, or that it differs from it, stays as it is.
pub proof fn lemma_other_verdicts_change_nothing<F>(
    listener: ListenerView<F>,
    verdict: SnapshotVerdict,
    height: u64,
    wall_clock_ms: Option<u128>,
    now: u64,
)
    requires
        !(verdict is Initialize),
        !(verdict is ExtraBooks),
    ensures
        listener.settled(verdict, height, wall_clock_ms, now) == listener,
{
}

/// Grafting in books changes nothing of a listener but its state, and makes none.
pub proof fn lemma_grafting_changes_the_state_only<F>(
    listener: ListenerView<F>,
    verdict: SnapshotVerdict,
    height: u64,
    wall_clock_ms: Option<u128>,
    now: u64,
)
    requires
        verdict is ExtraBooks,
    ensures
        ({
            let after = listener.settled(verdict, height, wall_clock_ms, now);
            &&& after == (ListenerView { state: after.state, ..listener })
            &&& after.state is Some <==> listener.state is Some
        }),
{
}

/// A listener without a state that is told to start from a snapshot, and that has no block in both
/// of its queues, has then the snapshot's books without their trigger orders, at its height.
pub proof fn lemma_told_to_start<F>(
    listener: ListenerView<F>,
    verdict: SnapshotVerdict,
    blocks: Seq<PairView>,
    height: u64,
    expected: Map<Seq<char>, Snapshot<InnerL4Order>>,
    wall_clock_ms: Option<u128>,
    now: u64,
    coin: Seq<char>,
)
    requires
        listener.state is None,
        pairing(listener.diff_queue, listener.status_queue).pair is None,
        is_verdict(verdict, None, blocks, height, expected, listener.ignore_spot),
    ensures
        ({
            let after = listener.settled(verdict, height, wall_clock_ms, now);
            &&& after.state is Some
            &&& after.state->0.height == height
            &&& after.state->0.ignore_spot == listener.ignore_spot
            &&& after.state->0.books.contains_key(coin) <==> expected.contains_key(coin)
            &&& expected.contains_key(coin) ==> after.state->0.books[coin] == snapshot_book(
                expected[coin],
            ).loaded(true)
            &&& after.ready_at == Some(now)
        }),
{
}

} // verus!
