//! Holding the state against a fetched snapshot.

use crate::listeners::order_book::consistency::{
    agree_up_to, coin_agrees, extra_books, fault_coin, is_considered, is_consistent, is_fault, is_list_fault,
    orders_agree, validate_snapshot_consistency, ConsistencyError,
};
use crate::listeners::order_book::error::ListenerError;
use crate::listeners::order_book::messages::BlockPair;
use crate::listeners::order_book::model::PairView;
use crate::listeners::order_book::state::{apply_result, state_after, OrderBookState, StateView};
use crate::order_book::book::{order_views, snapshot_book, BookView, Snapshot};
use crate::order_book::coin_map::CoinMap;
use crate::order_book::multi_book::{book_or_empty, snapshot_books, Snapshots};
use crate::types::inner::{InnerL4Order, OrderView};
use std::collections::VecDeque;
use vstd::prelude::*;
use vstd::std_specs::cmp::PartialEqSpec;

verus! {

/// Where a state came to by the blocks that were worked in while a snapshot was fetched.
pub ghost enum CatchUp {
    /// A block could not be worked in.
    Failed(ListenerError),
    /// There were too few blocks, and the state is still behind the snapshot.
    Short(StateView),
    /// The state is not behind the snapshot any more.
    Reached(StateView),
}

/// Brings a state forward, block by block, until it is not behind a height any more.
pub open spec fn catch_up(state: StateView, blocks: Seq<PairView>, height: u64) -> CatchUp
    decreases blocks.len(),
{
    if state.height >= height {
        CatchUp::Reached(state)
    } else if blocks.len() == 0 {
        CatchUp::Short(state)
    } else {
        match apply_result(state, blocks[0].statuses, blocks[0].diffs) {
            Err(error) => CatchUp::Failed(error),
            Ok(()) => catch_up(
                state_after(state, blocks[0].statuses, blocks[0].diffs),
                blocks.drop_first(),
                height,
            ),
        }
    }
}

/// Every local book that is looked at is as the authoritative ones have it: the same orders, or
/// no book there and no order here.
pub open spec fn books_consistent(
    local: Map<Seq<char>, BookView>,
    expected: Map<Seq<char>, BookView>,
    ignore_spot: bool,
) -> bool {
    forall|coin: Seq<char>| #[trigger]
        local.contains_key(coin) && is_considered(coin, ignore_spot) ==> local[coin] == book_or_empty(
            expected,
            coin,
        )
}

/// The two orders stand at the first place at which the two lists differ.
pub open spec fn differ_in(
    local: Seq<OrderView>,
    authoritative: Seq<OrderView>,
    expected: OrderView,
    received: OrderView,
) -> bool {
    exists|i: int|
        0 <= i < local.len() && i < authoritative.len() && #[trigger] local[i] == received
            && authoritative[i] == expected && received != expected && local.take(i)
            == authoritative.take(i)
}

/// The error names the first fault that there is in two lists of orders.
pub open spec fn is_side_fault(
    fault: ConsistencyError<InnerL4Order>,
    local: Seq<OrderView>,
    authoritative: Seq<OrderView>,
) -> bool {
    match fault {
        ConsistencyError::OrdersDoNotMatch { expected, received, .. } => differ_in(
            local,
            authoritative,
            expected@,
            received@,
        ),
        ConsistencyError::MissingOrder { expected, .. } => {
            &&& local.len() < authoritative.len()
            &&& local == authoritative.take(local.len() as int)
            &&& expected@ == authoritative[local.len() as int]
        },
        ConsistencyError::UnexpectedOrder { received, .. } => {
            &&& authoritative.len() < local.len()
            &&& authoritative == local.take(authoritative.len() as int)
            &&& received@ == local[authoritative.len() as int]
        },
        ConsistencyError::MissingBook { .. } => false,
    }
}

/// The error names the first fault of a coin's book, the bids looked at before the asks, or a
/// book that is missing.
pub open spec fn is_book_fault(
    fault: ConsistencyError<InnerL4Order>,
    local: Map<Seq<char>, BookView>,
    authoritative: Map<Seq<char>, BookView>,
    ignore_spot: bool,
) -> bool {
    let coin = fault_coin(fault);
    &&& local.contains_key(coin)
    &&& is_considered(coin, ignore_spot)
    &&& if fault is MissingBook {
        &&& !authoritative.contains_key(coin)
        &&& local[coin] != BookView::empty()
    } else {
        &&& authoritative.contains_key(coin)
        &&& if local[coin].bids == authoritative[coin].bids {
            is_side_fault(fault, local[coin].asks, authoritative[coin].asks)
        } else {
            is_side_fault(fault, local[coin].bids, authoritative[coin].bids)
        }
    }
}

/// A fault in some snapshots of orders is one in the books that they show.
proof fn lemma_fault_by_view(
    fault: ConsistencyError<InnerL4Order>,
    local: Map<Seq<char>, Snapshot<InnerL4Order>>,
    expected: Map<Seq<char>, Snapshot<InnerL4Order>>,
    ignore_spot: bool,
)
    requires
        is_fault(fault, local, expected, ignore_spot),
    ensures
        is_book_fault(fault, snapshot_books(local), snapshot_books(expected), ignore_spot),
{
    let coin = fault_coin(fault);
    let a = local[coin];
    if fault is MissingBook {
        let view = snapshot_book(a);
        assert(view.bids.len() + view.asks.len() > 0);
    } else {
        let b = expected[coin];
        lemma_orders_by_view(a.bids@, b.bids@);
        if orders_agree(a.bids@, b.bids@) {
            lemma_list_fault_by_view(fault, a.asks@, b.asks@);
        } else {
            lemma_list_fault_by_view(fault, a.bids@, b.bids@);
        }
    }
}

proof fn lemma_list_fault_by_view(
    fault: ConsistencyError<InnerL4Order>,
    local: Seq<InnerL4Order>,
    authoritative: Seq<InnerL4Order>,
)
    requires
        is_list_fault(fault, local, authoritative),
    ensures
        is_side_fault(fault, order_views(local), order_views(authoritative)),
{
    let a = order_views(local);
    let b = order_views(authoritative);
    match fault {
        ConsistencyError::OrdersDoNotMatch { expected, received, .. } => {
            let i = choose|i: int|
                0 <= i < local.len() && i < authoritative.len() && !(#[trigger] local[i]).eq_spec(
                    &authoritative[i],
                ) && agree_up_to(local, authoritative, i) && expected == authoritative[i]
                    && cloned(local[i], received);
            lemma_prefix_by_view(local, authoritative, i);
            assert(a[i] == received@);
            assert(b[i] == expected@);
        },
        ConsistencyError::MissingOrder { .. } => {
            lemma_prefix_by_view(local, authoritative, local.len() as int);
            assert(a.take(local.len() as int) =~= a);
        },
        ConsistencyError::UnexpectedOrder { .. } => {
            lemma_prefix_by_view(local, authoritative, authoritative.len() as int);
            assert(b.take(authoritative.len() as int) =~= b);
        },
        ConsistencyError::MissingBook { .. } => {},
    }
}

proof fn lemma_prefix_by_view(
    local: Seq<InnerL4Order>,
    authoritative: Seq<InnerL4Order>,
    n: int,
)
    requires
        0 <= n <= local.len(),
        n <= authoritative.len(),
        agree_up_to(local, authoritative, n),
    ensures
        order_views(local).take(n) == order_views(authoritative).take(n),
{
    let a = order_views(local).take(n);
    let b = order_views(authoritative).take(n);
    assert forall|i: int| 0 <= i < n implies #[trigger] a[i] == b[i] by {
        assert(local[i].eq_spec(&authoritative[i]));
    }
    assert(a =~= b);
}

/// Some snapshots of orders are consistent where the books that they show are.
proof fn lemma_consistent_by_view(
    local: Map<Seq<char>, Snapshot<InnerL4Order>>,
    expected: Map<Seq<char>, Snapshot<InnerL4Order>>,
    ignore_spot: bool,
)
    ensures
        is_consistent(local, expected, ignore_spot) == books_consistent(
            snapshot_books(local),
            snapshot_books(expected),
            ignore_spot,
        ),
{
    let a = snapshot_books(local);
    let b = snapshot_books(expected);
    assert forall|coin: Seq<char>| local.contains_key(coin) implies coin_agrees(
        local[coin],
        expected,
        coin,
    ) == (a[coin] == book_or_empty(b, coin)) by {
        let mine = local[coin];
        if expected.contains_key(coin) {
            let theirs = expected[coin];
            lemma_orders_by_view(mine.bids@, theirs.bids@);
            lemma_orders_by_view(mine.asks@, theirs.asks@);
            if a[coin].bids == b[coin].bids && a[coin].asks == b[coin].asks {
                assert(a[coin] =~= b[coin]);
            }
        } else {
            let view = snapshot_book(mine);
            if mine.bids@.len() == 0 && mine.asks@.len() == 0 {
                assert(view =~= BookView::empty());
            } else {
                assert(view.bids.len() == mine.bids@.len() && view.asks.len()
                    == mine.asks@.len());
            }
        }
    }
    if is_consistent(local, expected, ignore_spot) {
        assert forall|coin: Seq<char>| #[trigger]
            a.contains_key(coin) && is_considered(coin, ignore_spot) implies a[coin]
            == book_or_empty(b, coin) by {
            assert(local.contains_key(coin));
        }
    }
    if books_consistent(a, b, ignore_spot) {
        assert forall|coin: Seq<char>| #[trigger]
            local.contains_key(coin) && is_considered(coin, ignore_spot) implies coin_agrees(
            local[coin],
            expected,
            coin,
        ) by {
            assert(a.contains_key(coin));
        }
    }
}

proof fn lemma_orders_by_view(local: Seq<InnerL4Order>, expected: Seq<InnerL4Order>)
    ensures
        orders_agree(local, expected) == (order_views(local) == order_views(expected)),
{
    let a = order_views(local);
    let b = order_views(expected);
    assert(forall|i: int| 0 <= i < local.len() ==> #[trigger] local[i]@ == a[i]);
    assert(forall|i: int| 0 <= i < expected.len() ==> #[trigger] expected[i]@ == b[i]);
    if orders_agree(local, expected) {
        assert forall|i: int| 0 <= i < a.len() implies #[trigger] a[i] == b[i] by {
            assert(local[i]@ == a[i]);
        }
        assert(a =~= b);
    }
    if a == b {
        assert(local.len() == a.len() && expected.len() == b.len());
    }
}

/// What a fetched snapshot says of the state.
#[derive(Debug)]
pub enum SnapshotVerdict {
    /// There was no state: start from the snapshot.
    Initialize { snapshot: Snapshots<InnerL4Order> },
    /// A block that was worked in meanwhile cannot be worked into the copy of the state. The
    /// listener has met it already; the next snapshot is held against what it made of it.
    CatchUpFailed { error: ListenerError },
    /// The snapshot is newer than all blocks so far.
    NotEnoughUpdates { state_height: u64 },
    /// The snapshot is older than the state.
    SnapshotLagging { state_height: u64 },
    /// The state is as the snapshot has it.
    Consistent,
    /// The snapshot has books that the state lacks: newly listed coins.
    ExtraBooks { extras: CoinMap<Snapshot<InnerL4Order>> },
    /// The state is not as the snapshot has it. The state is built from the node's own diffs,
    /// so the snapshot has aged, and the state stays.
    Mismatch { fault: ConsistencyError<InnerL4Order> },
}

/// The verdict is what a snapshot at `height` says of a copy of the state, after the blocks
/// that were worked in meanwhile.
pub open spec fn is_verdict(
    verdict: SnapshotVerdict,
    state: Option<StateView>,
    blocks: Seq<PairView>,
    height: u64,
    expected: Map<Seq<char>, Snapshot<InnerL4Order>>,
    ignore_spot: bool,
) -> bool {
    match state {
        None => verdict matches SnapshotVerdict::Initialize { snapshot } && snapshot@ == expected,
        Some(state) => match catch_up(state, blocks, height) {
            CatchUp::Failed(error) => verdict == SnapshotVerdict::CatchUpFailed { error },
            CatchUp::Short(state) => verdict == SnapshotVerdict::NotEnoughUpdates {
                state_height: state.height,
            },
            CatchUp::Reached(state) => if state.height > height {
                verdict == SnapshotVerdict::SnapshotLagging { state_height: state.height }
            } else if !books_consistent(state.books, snapshot_books(expected), ignore_spot) {
                &&& verdict matches SnapshotVerdict::Mismatch { fault }
                &&& is_book_fault(fault, state.books, snapshot_books(expected), ignore_spot)
            } else {
                let missing = extra_books(state.books, expected, ignore_spot);
                if missing.dom().is_empty() {
                    verdict == SnapshotVerdict::Consistent
                } else {
                    verdict matches SnapshotVerdict::ExtraBooks { extras } && extras@ == missing
                }
            },
        },
    }
}

/// What a state says, where there is one.
pub open spec fn state_view(state: Option<OrderBookState>) -> Option<StateView> {
    match state {
        Some(state) => Some(state@),
        None => None,
    }
}

/// Holds a copy of the state against a fetched snapshot, after the blocks that were worked in
/// while it was fetched. They are compared only where both are at the same height.
pub fn check_snapshot(
    state: Option<OrderBookState>,
    cache: VecDeque<BlockPair>,
    height: u64,
    expected: Snapshots<InnerL4Order>,
    ignore_spot: bool,
) -> (verdict: SnapshotVerdict)
    ensures
        is_verdict(
            verdict,
            state_view(state),
            cache@.map_values(|pair: BlockPair| pair@),
            height,
            expected@,
            ignore_spot,
        ),
{
    let ghost start = state_view(state);
    let ghost all = cache@.map_values(|pair: BlockPair| pair@);
    let mut local_state = match state {
        Some(state) => state,
        None => {
            return SnapshotVerdict::Initialize { snapshot: expected };
        },
    };
    let mut blocks = cache;
    while local_state.height() < height
        invariant
            start == state_view(state),
            all == cache@.map_values(|pair: BlockPair| pair@),
            start is Some,
            catch_up(start->0, all, height) == catch_up(
                local_state@,
                blocks@.map_values(|pair: BlockPair| pair@),
                height,
            ),
        decreases blocks@.len(),
    {
        let ghost waiting = blocks@.map_values(|pair: BlockPair| pair@);
        match blocks.pop_front() {
            Some(pair) => {
                assert(blocks@.map_values(|pair: BlockPair| pair@) =~= waiting.drop_first());
                let (order_statuses, order_diffs) = pair.into_parts();
                match local_state.apply_updates(order_statuses, order_diffs) {
                    Ok(()) => {},
                    Err(error) => {
                        return SnapshotVerdict::CatchUpFailed { error };
                    },
                }
            },
            None => {
                return SnapshotVerdict::NotEnoughUpdates { state_height: local_state.height() };
            },
        }
    }
    if local_state.height() > height {
        return SnapshotVerdict::SnapshotLagging { state_height: local_state.height() };
    }
    let stored_snapshot = local_state.compute_snapshot().snapshot;
    let ghost local = stored_snapshot@;
    let ghost wanted = expected@;
    proof {
        lemma_consistent_by_view(local, wanted, ignore_spot);
        assert(snapshot_books(local).dom() =~= local.dom());
        assert(extra_books(local, wanted, ignore_spot) =~= extra_books(
            local_state@.books,
            wanted,
            ignore_spot,
        ));
    }
    match validate_snapshot_consistency(&stored_snapshot, expected, ignore_spot) {
        Ok(extras) => if extras.len() == 0 {
            SnapshotVerdict::Consistent
        } else {
            SnapshotVerdict::ExtraBooks { extras }
        },
        Err(fault) => {
            proof {
                lemma_fault_by_view(fault, local, wanted, ignore_spot);
            }
            SnapshotVerdict::Mismatch { fault }
        },
    }
}

} // verus!
