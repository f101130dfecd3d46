//! The order books at a block, and how a block's events move them on.

use crate::listeners::order_book::consistency::is_considered;
use crate::listeners::order_book::error::ListenerError;
use crate::listeners::order_book::l2::{all_views, compute_l2_snapshots, L2Snapshots};
use crate::order_book::book::{snapshot_book, BookView, Snapshot};
use crate::order_book::coin_map::{table_of, CoinMap};
use crate::order_book::decimal::decimal_value;
use crate::order_book::multi_book::{
    holds_order, loaded_books, snapshot_books, with_order, OrderBooks, Snapshots,
};
use crate::order_book::types::{Coin, Px};
use crate::text::{decimal_text, number_text};
use crate::types::inner::{
    read_diff, reported_order, triggered, InnerL4Order, InnerOrderDiff, OrderView,
};
use crate::types::node_data::{
    enters_book, Batch, BatchView, NodeDataOrderDiff, NodeDataOrderStatus,
};
use std::collections::HashMap;
use vstd::prelude::*;

verus! {

/// How many blocks pass before the same coin without a book is reported again. At about 14.5
/// blocks a second this is some 14 seconds: the log stays readable when a busy new coin shows
/// up between two snapshot fetches.
pub const NOT_YET_GRAFTED_WARN_THROTTLE_BLOCKS: u64 = 200;

/// What a diff that was passed over would have done.
#[derive(Clone, Copy, Debug, PartialEq, Eq, Structural)]
pub enum SkippedChange {
    Update,
    Remove,
}

/// A diff that was passed over because its coin has no book yet, and that is to be reported.
#[derive(Debug)]
pub struct SkippedDiff {
    pub change: SkippedChange,
    pub coin: Coin,
    pub oid: u64,
    pub height: u64,
}

/// What a report of a diff that was passed over says.
pub ghost struct SkippedView {
    pub change: SkippedChange,
    pub coin: Seq<char>,
    pub oid: u64,
    pub height: u64,
}

impl View for SkippedDiff {
    type V = SkippedView;

    open spec fn view(&self) -> SkippedView {
        SkippedView {
            change: self.change,
            coin: self.coin@,
            oid: self.oid,
            height: self.height,
        }
    }
}

impl Clone for SkippedDiff {
    fn clone(&self) -> (copy: SkippedDiff)
        ensures
            copy == *self,
    {
        SkippedDiff {
            change: self.change,
            coin: self.coin.clone(),
            oid: self.oid,
            height: self.height,
        }
    }
}

/// What some reports say.
pub open spec fn skipped_views(reports: Seq<SkippedDiff>) -> Seq<SkippedView> {
    reports.map_values(|report: SkippedDiff| report@)
}

/// The text of a report.
pub open spec fn skipped_text(report: SkippedView) -> Seq<char> {
    let change = match report.change {
        SkippedChange::Update => "Update"@,
        SkippedChange::Remove => "Remove"@,
    };
    "Skipping "@ + change + " for not-yet-grafted coin "@ + report.coin + " oid "@ + decimal_text(
        report.oid as nat,
    ) + " at block "@ + decimal_text(report.height as nat) + "; waiting for absorb_extra_books"@
}

impl SkippedDiff {
    /// The report in words.
    pub fn message(&self) -> (text: String)
        ensures
            text@ == skipped_text(self@),
    {
        let mut text = String::new();
        text.append("Skipping ");
        match self.change {
            SkippedChange::Update => text.append("Update"),
            SkippedChange::Remove => text.append("Remove"),
        }
        text.append(" for not-yet-grafted coin ");
        text.append(self.coin.value());
        text.append(" oid ");
        text.append(number_text(self.oid).as_str());
        text.append(" at block ");
        text.append(number_text(self.height).as_str());
        text.append("; waiting for absorb_extra_books");
        assert(text@ =~= skipped_text(self@));
        text
    }
}

/// A gap between blocks that was accepted: the height of the state, the block after that, and the
/// block that came.
#[derive(Clone, Copy, Debug, PartialEq, Eq, Structural)]
pub struct AcceptedGap {
    pub height: u64,
    pub expected: u64,
    pub got: u64,
}

/// The text of a report of an accepted gap.
pub open spec fn gap_text(gap: AcceptedGap) -> Seq<char> {
    "[fresh-start] accepting initial gap: self.height="@ + decimal_text(gap.height as nat)
        + " expected="@ + decimal_text(gap.expected as nat) + " got="@ + decimal_text(
        gap.got as nat,
    ) + " gap_blocks="@ + decimal_text(gap_blocks(gap)) + " — snapshot state is authoritative"@
}

/// How many blocks lie between the height and the block that came, that block counted.
pub open spec fn gap_blocks(gap: AcceptedGap) -> nat {
    if gap.got >= gap.height {
        (gap.got - gap.height) as nat
    } else {
        0
    }
}

impl AcceptedGap {
    /// The report in words.
    pub fn message(&self) -> (text: String)
        ensures
            text@ == gap_text(*self),
    {
        let mut text = String::new();
        text.append("[fresh-start] accepting initial gap: self.height=");
        text.append(number_text(self.height).as_str());
        text.append(" expected=");
        text.append(number_text(self.expected).as_str());
        text.append(" got=");
        text.append(number_text(self.got).as_str());
        text.append(" gap_blocks=");
        text.append(number_text(self.got.saturating_sub(self.height)).as_str());
        text.append(" — snapshot state is authoritative");
        assert(text@ =~= gap_text(*self));
        text
    }
}

/// The books at a block.
#[verifier::ext_equal]
pub ghost struct StateView {
    pub books: Map<Seq<char>, BookView>,
    /// The last block that is in the books.
    pub height: u64,
    pub time: u64,
    /// The views of this block have been handed out.
    pub snapped: bool,
    pub ignore_spot: bool,
    /// The next gap between blocks is tolerated.
    pub allow_initial_gap: bool,
    /// The block at which each coin without a book was last reported.
    pub last_warn: Map<Seq<char>, u64>,
    /// The reports of diffs that were passed over, oldest first, until they are taken.
    pub skipped: Seq<SkippedView>,
    /// The gaps that were accepted, oldest first, until they are taken.
    pub gaps: Seq<AcceptedGap>,
}

/// The state that a snapshot gives.
pub open spec fn started(
    snapshot: Map<Seq<char>, Snapshot<InnerL4Order>>,
    height: u64,
    time: u64,
    ignore_triggers: bool,
    ignore_spot: bool,
) -> StateView {
    StateView {
        books: loaded_books(snapshot, ignore_triggers),
        height,
        time,
        snapped: false,
        ignore_spot,
        allow_initial_gap: true,
        last_warn: Map::empty(),
        skipped: Seq::empty(),
        gaps: Seq::empty(),
    }
}

/// A coin without a book is to be reported at a block.
pub open spec fn is_warn_due(last_warn: Map<Seq<char>, u64>, coin: Seq<char>, height: u64) -> bool {
    !(last_warn.contains_key(coin) && height - last_warn[coin]
        < NOT_YET_GRAFTED_WARN_THROTTLE_BLOCKS)
}

/// The reports after a coin without a book came up at a block.
pub open spec fn noted(
    last_warn: Map<Seq<char>, u64>,
    coin: Seq<char>,
    height: u64,
) -> Map<Seq<char>, u64> {
    if is_warn_due(last_warn, coin, height) {
        last_warn.insert(coin, height)
    } else {
        last_warn
    }
}

/// The statuses that put an order on the book, by order id, later ones replacing earlier ones.
pub open spec fn openings(statuses: Seq<NodeDataOrderStatus>) -> Map<u64, NodeDataOrderStatus>
    decreases statuses.len(),
{
    if statuses.len() == 0 {
        Map::empty()
    } else {
        let before = openings(statuses.drop_last());
        let last = statuses.last();
        if enters_book(last) {
            before.insert(last.order.oid, last)
        } else {
            before
        }
    }
}

/// The order that a status and a diff together put on the book: the reported order, of the
/// size and at the price of the diff, and no longer waiting for a trigger.
pub open spec fn opened_order(
    reported: OrderView,
    sz: u64,
    time: u64,
    px: u64,
) -> OrderView {
    OrderView { limit_px: px, ..triggered(OrderView { sz, ..reported }, time) }
}

/// How far the diffs of a block have been worked in.
#[verifier::ext_equal]
pub ghost struct Progress {
    pub books: Map<Seq<char>, BookView>,
    pub last_warn: Map<Seq<char>, u64>,
    /// The block's diffs that were passed over and are to be reported.
    pub skipped: Seq<SkippedView>,
    /// The openings that no diff has used yet.
    pub openings: Map<u64, NodeDataOrderStatus>,
    /// What stopped the work.
    pub failure: Option<ListenerError>,
}

impl Progress {
    pub open spec fn failed(self, error: ListenerError) -> Progress {
        Progress { failure: Some(error), ..self }
    }

    /// One more diff, with an order that comes onto the book.
    pub open spec fn with_new(self, diff: NodeDataOrderDiff, sz: u64) -> Progress {
        if !self.openings.contains_key(diff.oid) {
            self.failed(ListenerError::MissingOpeningStatus { diff })
        } else {
            let status = self.openings[diff.oid];
            let used = Progress { openings: self.openings.remove(diff.oid), ..self };
            match reported_order(status) {
                Err(error) => used.failed(ListenerError::BadNumber { error }),
                Ok(reported) => match decimal_value(diff.px@) {
                    Err(error) => used.failed(ListenerError::BadNumber { error }),
                    Ok(px) => Progress {
                        books: with_order(
                            self.books,
                            opened_order(reported, sz, status.time, px),
                        ),
                        ..used
                    },
                },
            }
        }
    }

    /// One more diff, of a coin that has no book yet: it is passed over, and reported unless the
    /// coin was reported a short while ago.
    pub open spec fn passed_over(
        self,
        change: SkippedChange,
        diff: NodeDataOrderDiff,
        height: u64,
    ) -> Progress {
        Progress {
            last_warn: noted(self.last_warn, diff.coin@, height),
            skipped: if is_warn_due(self.last_warn, diff.coin@, height) {
                self.skipped.push(
                    SkippedView { change, coin: diff.coin@, oid: diff.oid, height },
                )
            } else {
                self.skipped
            },
            ..self
        }
    }

    /// One more diff, with another size for an order.
    pub open spec fn with_update(self, diff: NodeDataOrderDiff, sz: u64, height: u64) -> Progress {
        let coin = diff.coin@;
        if !self.books.contains_key(coin) {
            self.passed_over(SkippedChange::Update, diff, height)
        } else if !holds_order(self.books, coin, diff.oid) {
            self.failed(ListenerError::MissingOrder { diff })
        } else {
            Progress {
                books: self.books.insert(coin, self.books[coin].with_size(diff.oid, sz)),
                ..self
            }
        }
    }

    /// One more diff, with an order that leaves the book.
    pub open spec fn with_remove(self, diff: NodeDataOrderDiff, height: u64) -> Progress {
        let coin = diff.coin@;
        if !self.books.contains_key(coin) {
            self.passed_over(SkippedChange::Remove, diff, height)
        } else if !holds_order(self.books, coin, diff.oid) {
            self.failed(ListenerError::MissingOrder { diff })
        } else {
            Progress {
                books: self.books.insert(coin, self.books[coin].without(diff.oid)),
                ..self
            }
        }
    }

    /// One more diff. Spot coins are passed over where they are ignored. A change of an order
    /// of a coin that has no book yet is passed over too: the next snapshot brings the book.
    pub open spec fn with_diff(
        self,
        diff: NodeDataOrderDiff,
        ignore_spot: bool,
        height: u64,
    ) -> Progress {
        if !is_considered(diff.coin@, ignore_spot) {
            self
        } else {
            match read_diff(diff.raw_book_diff) {
                Err(error) => self.failed(ListenerError::BadNumber { error }),
                Ok(InnerOrderDiff::New { sz }) => self.with_new(diff, sz.units),
                Ok(InnerOrderDiff::Update { new_sz, .. }) => self.with_update(
                    diff,
                    new_sz.units,
                    height,
                ),
                Ok(InnerOrderDiff::Remove) => self.with_remove(diff, height),
            }
        }
    }

    /// Some more diffs, one after the other, up to the first that cannot be worked in.
    pub open spec fn with_diffs(
        self,
        diffs: Seq<NodeDataOrderDiff>,
        ignore_spot: bool,
        height: u64,
    ) -> Progress
        decreases diffs.len(),
    {
        if diffs.len() == 0 {
            self
        } else {
            let before = self.with_diffs(diffs.drop_last(), ignore_spot, height);
            if before.failure is Some {
                before
            } else {
                before.with_diff(diffs.last(), ignore_spot, height)
            }
        }
    }
}

/// The blocks before `number` are in the books, or are known to be missed.
pub open spec fn is_next(state: StateView, number: u64) -> bool {
    number == state.height + 1 || (number > state.height + 1 && state.allow_initial_gap)
}

/// Where the diffs of a block lead from a state.
pub open spec fn block_progress(
    state: StateView,
    statuses: BatchView<NodeDataOrderStatus>,
    diffs: BatchView<NodeDataOrderDiff>,
) -> Progress {
    Progress {
        books: state.books,
        last_warn: state.last_warn,
        skipped: Seq::empty(),
        openings: openings(statuses.events),
        failure: None,
    }.with_diffs(diffs.events, state.ignore_spot, statuses.number)
}

/// The state after a block.
///
/// A block that is in the books already changes nothing. So does one that leaves a gap, but
/// for the first gap after a snapshot, which is reported. Any other block is worked in diff by diff; where one
/// cannot be, the diffs before it stay, and the block does not count.
pub open spec fn state_after(
    state: StateView,
    statuses: BatchView<NodeDataOrderStatus>,
    diffs: BatchView<NodeDataOrderDiff>,
) -> StateView {
    let number = statuses.number;
    if !is_next(state, number) {
        state
    } else {
        let progress = block_progress(state, statuses, diffs);
        let moved = StateView {
            books: progress.books,
            last_warn: progress.last_warn,
            skipped: state.skipped + progress.skipped,
            gaps: if number > state.height + 1 {
                state.gaps.push(
                    AcceptedGap {
                        height: state.height,
                        expected: (state.height + 1) as u64,
                        got: number,
                    },
                )
            } else {
                state.gaps
            },
            allow_initial_gap: false,
            height: (number - 1) as u64,
            ..state
        };
        if progress.failure is Some {
            moved
        } else {
            StateView { height: number, time: statuses.time, snapped: false, ..moved }
        }
    }
}

/// Whether a block could be worked in.
pub open spec fn apply_result(
    state: StateView,
    statuses: BatchView<NodeDataOrderStatus>,
    diffs: BatchView<NodeDataOrderDiff>,
) -> Result<(), ListenerError> {
    let number = statuses.number;
    if number <= state.height {
        Ok(())
    } else if !is_next(state, number) {
        Err(
            ListenerError::UnexpectedBlock {
                expected: (state.height + 1) as u64,
                got: number,
                time: statuses.time,
            },
        )
    } else {
        match block_progress(state, statuses, diffs).failure {
            Some(error) => Err(error),
            None => Ok(()),
        }
    }
}

/// The books after some fetched ones were grafted in.
pub open spec fn with_extra_books(
    state: StateView,
    extras: Map<Seq<char>, Snapshot<InnerL4Order>>,
    ignore_triggers: bool,
) -> StateView {
    let grafted = extras.filter_keys(|coin: Seq<char>| is_considered(coin, state.ignore_spot));
    StateView {
        books: state.books.union_prefer_right(loaded_books(grafted, ignore_triggers)),
        last_warn: state.last_warn.remove_keys(grafted.dom()),
        ..state
    }
}

/// A snapshot of the books and the block that it shows.
#[derive(Debug)]
pub struct TimedSnapshots {
    pub time: u64,
    pub height: u64,
    pub snapshot: Snapshots<InnerL4Order>,
}

/// The books at a block.
#[derive(Debug)]
pub struct OrderBookState {
    order_book: OrderBooks,
    height: u64,
    time: u64,
    snapped: bool,
    ignore_spot: bool,
    /// When true, the next forward gap between blocks is tolerated instead of being an error.
    /// Set after a start from a snapshot: the listener starts reading at the end of the live
    /// file, so the blocks between the snapshot and the current write position are missed.
    /// That first gap is harmless, as the snapshot is authoritative; later ones are data loss.
    allow_initial_gap: bool,
    /// The block at which each coin without a book was last reported.
    not_yet_grafted_last_warn: CoinMap<u64>,
    /// The reports of diffs that were passed over, until they are taken.
    skipped: Vec<SkippedDiff>,
    /// The gaps that were accepted, until they are taken.
    gaps: Vec<AcceptedGap>,
}

impl View for OrderBookState {
    type V = StateView;

    closed spec fn view(&self) -> StateView {
        StateView {
            books: self.order_book@,
            height: self.height,
            time: self.time,
            snapped: self.snapped,
            ignore_spot: self.ignore_spot,
            allow_initial_gap: self.allow_initial_gap,
            last_warn: self.not_yet_grafted_last_warn@,
            skipped: skipped_views(self.skipped@),
            gaps: self.gaps@,
        }
    }
}

/// The statuses that put an order on the book, by order id.
fn collect_openings(statuses: Vec<NodeDataOrderStatus>) -> (orders: HashMap<
    u64,
    NodeDataOrderStatus,
>)
    ensures
        orders@ == openings(statuses@),
{
    broadcast use vstd::std_specs::hash::group_hash_axioms;

    let ghost all = statuses@;
    let mut orders: HashMap<u64, NodeDataOrderStatus> = HashMap::new();
    assert(orders@ =~= openings(all.take(0)));
    for status in it: statuses
        invariant
            all == it.seq(),
            orders@ == openings(all.take(it.index() as int)),
    {
        let ghost at = it.index() as int;
        assert(all.take(at + 1).drop_last() =~= all.take(at));
        if status.is_inserted_into_book() {
            let oid = status.order.oid;
            orders.insert(oid, status);
        }
    }
    assert(all.take(all.len() as int) =~= all);
    orders
}

impl OrderBookState {
    /// Starts from a snapshot.
    pub fn from_snapshot(
        snapshot: Snapshots<InnerL4Order>,
        height: u64,
        time: u64,
        ignore_triggers: bool,
        ignore_spot: bool,
    ) -> (state: OrderBookState)
        ensures
            state@ == started(snapshot@, height, time, ignore_triggers, ignore_spot),
    {
        let state = OrderBookState {
            ignore_spot,
            time,
            height,
            order_book: OrderBooks::from_snapshots(snapshot, ignore_triggers),
            snapped: false,
            allow_initial_gap: true,
            not_yet_grafted_last_warn: CoinMap::new(),
            skipped: Vec::new(),
            gaps: Vec::new(),
        };
        assert(state@.skipped =~= Seq::empty());
        state
    }

    /// Whether a coin without a book is to be reported at a block; if so, notes that it is.
    pub fn should_warn_not_yet_grafted(&mut self, coin: &Coin, height: u64) -> (warn: bool)
        ensures
            warn == is_warn_due(old(self)@.last_warn, coin@, height),
            final(self)@ == (StateView {
                last_warn: noted(old(self)@.last_warn, coin@, height),
                ..old(self)@
            }),
    {
        let warned_recently = match self.not_yet_grafted_last_warn.get(coin) {
            Some(last) => height.saturating_sub(*last) < NOT_YET_GRAFTED_WARN_THROTTLE_BLOCKS,
            None => false,
        };
        if warned_recently {
            false
        } else {
            self.not_yet_grafted_last_warn.insert(coin.clone(), height);
            true
        }
    }

    /// Takes the reports of diffs that were passed over, oldest first.
    pub fn take_skipped(&mut self) -> (skipped: Vec<SkippedDiff>)
        ensures
            skipped_views(skipped@) == old(self)@.skipped,
            final(self)@ == (StateView { skipped: Seq::empty(), ..old(self)@ }),
    {
        let mut skipped: Vec<SkippedDiff> = Vec::new();
        assert(skipped_views(skipped@) =~= Seq::empty());
        std::mem::swap(&mut skipped, &mut self.skipped);
        skipped
    }

    /// Takes the gaps that were accepted, oldest first.
    pub fn take_gaps(&mut self) -> (gaps: Vec<AcceptedGap>)
        ensures
            gaps@ == old(self)@.gaps,
            final(self)@ == (StateView { gaps: Seq::empty(), ..old(self)@ }),
    {
        let mut gaps: Vec<AcceptedGap> = Vec::new();
        std::mem::swap(&mut gaps, &mut self.gaps);
        gaps
    }

    pub fn height(&self) -> (height: u64)
        ensures
            height == self@.height,
    {
        self.height
    }

    /// Takes a snapshot, whether or not one was taken at this block.
    pub fn compute_snapshot(&self) -> (timed: TimedSnapshots)
        ensures
            timed.time == self@.time,
            timed.height == self@.height,
            snapshot_books(timed.snapshot@) == self@.books,
    {
        TimedSnapshots {
            time: self.time,
            height: self.height,
            snapshot: self.order_book.to_snapshots_par(),
        }
    }

    /// The time and the views of this block, unless they have been handed out for good.
    pub fn l2_snapshots(&mut self, prevent_future_snaps: bool) -> (views: Option<
        (u64, L2Snapshots),
    >)
        ensures
            views is None <==> old(self)@.snapped,
            views matches Some((time, views)) ==> time == old(self)@.time && views@ == all_views(
                old(self)@.books,
            ),
            final(self)@ == (StateView {
                snapped: old(self)@.snapped || prevent_future_snaps,
                ..old(self)@
            }),
    {
        if self.snapped {
            None
        } else {
            self.snapped = prevent_future_snaps || self.snapped;
            Some((self.time, compute_l2_snapshots(&self.order_book)))
        }
    }

    /// The coins that have a book, each once.
    pub fn compute_universe(&self) -> (coins: Vec<Coin>)
        ensures
            coins@.map_values(|coin: Coin| coin@).no_duplicates(),
            coins@.map_values(|coin: Coin| coin@).to_set() == self@.books.dom(),
    {
        self.order_book.coins()
    }

    /// Grafts in the books of coins that were not tracked so far.
    pub fn absorb_extra_books(
        &mut self,
        extras: CoinMap<Snapshot<InnerL4Order>>,
        ignore_triggers: bool,
    )
        ensures
            final(self)@ == with_extra_books(old(self)@, extras@, ignore_triggers),
    {
        let ghost start = self@;
        let ghost keep = |coin: Seq<char>| is_considered(coin, start.ignore_spot);
        let entries = extras.into_entries();
        let ghost all = entries@;
        proof {
            let grafted = table_of(all.take(0)).filter_keys(keep);
            assert(grafted =~= Map::empty());
            assert(start.books.union_prefer_right(loaded_books(grafted, ignore_triggers))
                =~= start.books);
            assert(start.last_warn.remove_keys(grafted.dom()) =~= start.last_warn);
        }
        for entry in it: entries
            invariant
                all == it.seq(),
                start == old(self)@,
                keep == (|coin: Seq<char>| is_considered(coin, start.ignore_spot)),
                self@ == with_extra_books(
                    start,
                    table_of(all.take(it.index() as int)),
                    ignore_triggers,
                ),
        {
            let ghost at = it.index() as int;
            let (coin, snapshot) = entry;
            let ghost name = coin@;
            let ghost before = table_of(all.take(at)).filter_keys(keep);
            let ghost after = table_of(all.take(at + 1)).filter_keys(keep);
            proof {
                assert(all.take(at + 1).drop_last() =~= all.take(at));
            }
            if !(self.ignore_spot && coin.is_spot()) {
                let ghost graft = snapshot_book(snapshot).loaded(ignore_triggers);
                proof {
                    assert(keep(name));
                    assert(after =~= before.insert(name, snapshot));
                    assert(start.books.union_prefer_right(loaded_books(after, ignore_triggers))
                        =~= start.books.union_prefer_right(
                        loaded_books(before, ignore_triggers),
                    ).insert(name, graft));
                    assert(start.last_warn.remove_keys(after.dom())
                        =~= start.last_warn.remove_keys(before.dom()).remove(name));
                }
                // Once grafted, a coin that loses its book again is reported at once.
                let _ = self.not_yet_grafted_last_warn.remove(&coin);
                self.order_book.insert_book(coin, snapshot, ignore_triggers);
            } else {
                proof {
                    assert(!keep(name));
                    assert(after =~= before);
                }
            }
        }
        assert(all.take(all.len() as int) =~= all);
    }

    /// Works in one diff, with the openings that no diff has used yet.
    fn apply_diff(
        &mut self,
        diff: NodeDataOrderDiff,
        order_map: &mut HashMap<u64, NodeDataOrderStatus>,
        skipped: &mut Vec<SkippedDiff>,
        height: u64,
    ) -> (applied: Result<(), ListenerError>)
        ensures
            ({
                let after = Progress {
                    books: old(self)@.books,
                    last_warn: old(self)@.last_warn,
                    skipped: skipped_views(old(skipped)@),
                    openings: old(order_map)@,
                    failure: None,
                }.with_diff(diff, old(self)@.ignore_spot, height);
                &&& applied == match after.failure {
                    Some(error) => Err::<(), ListenerError>(error),
                    None => Ok::<(), ListenerError>(()),
                }
                &&& final(self)@ == (StateView {
                    books: after.books,
                    last_warn: after.last_warn,
                    ..old(self)@
                })
                &&& final(order_map)@ == after.openings
                &&& skipped_views(final(skipped)@) == after.skipped
            }),
    {
        broadcast use vstd::std_specs::hash::group_hash_axioms;

        let oid = diff.oid;
        let coin = diff.coin();
        if coin.is_spot() && self.ignore_spot {
            return Ok(());
        }
        let inner_diff = match InnerOrderDiff::try_from_diff(&diff.raw_book_diff) {
            Ok(inner_diff) => inner_diff,
            Err(error) => {
                return Err(ListenerError::BadNumber { error });
            },
        };
        match inner_diff {
            InnerOrderDiff::New { sz } => {
                match order_map.remove(&oid) {
                    Some(order) => {
                        let time = order.time;
                        let mut inner_order = match InnerL4Order::try_from_status(order) {
                            Ok(inner_order) => inner_order,
                            Err(error) => {
                                return Err(ListenerError::BadNumber { error });
                            },
                        };
                        inner_order.modify_sz(sz);
                        // The time of entering the book is that of the status.
                        inner_order.convert_trigger(time);
                        // The status of a stop order has the price of its trigger; the price
                        // that the order rests at is in the diff. For ordinary orders the two
                        // are the same.
                        inner_order.limit_px = match Px::parse_from_str(diff.px.as_str()) {
                            Ok(px) => px,
                            Err(error) => {
                                return Err(ListenerError::BadNumber { error });
                            },
                        };
                        self.order_book.add_order(inner_order);
                        Ok(())
                    },
                    None => {
                        assert(order_map@ =~= old(order_map)@);
                        Err(ListenerError::MissingOpeningStatus { diff })
                    },
                }
            },
            InnerOrderDiff::Update { new_sz, .. } => {
                // A coin without a book is newly listed: the next snapshot brings its book.
                if !self.order_book.has_book(&coin) {
                    if self.should_warn_not_yet_grafted(&coin, height) {
                        let report = SkippedDiff { change: SkippedChange::Update, coin, oid, height };
                        skipped.push(report);
                        assert(skipped_views(skipped@) =~= skipped_views(old(skipped)@).push(
                            report@,
                        ));
                    }
                    Ok(())
                } else if self.order_book.modify_sz(oid, coin, new_sz) {
                    Ok(())
                } else {
                    proof {
                        lemma_absent_unchanged(old(self)@.books, diff.coin@, oid);
                    }
                    Err(ListenerError::MissingOrder { diff })
                }
            },
            InnerOrderDiff::Remove => {
                if !self.order_book.has_book(&coin) {
                    if self.should_warn_not_yet_grafted(&coin, height) {
                        let report = SkippedDiff { change: SkippedChange::Remove, coin, oid, height };
                        skipped.push(report);
                        assert(skipped_views(skipped@) =~= skipped_views(old(skipped)@).push(
                            report@,
                        ));
                    }
                    Ok(())
                } else if self.order_book.cancel_order(oid, coin) {
                    Ok(())
                } else {
                    proof {
                        lemma_absent_unchanged(old(self)@.books, diff.coin@, oid);
                    }
                    Err(ListenerError::MissingOrder { diff })
                }
            },
        }
    }

    /// Works in the events of a block.
    pub fn apply_updates(
        &mut self,
        order_statuses: Batch<NodeDataOrderStatus>,
        order_diffs: Batch<NodeDataOrderDiff>,
    ) -> (applied: Result<(), ListenerError>)
        requires
            order_statuses@.number == order_diffs@.number,
        ensures
            applied == apply_result(old(self)@, order_statuses@, order_diffs@),
            final(self)@ == state_after(old(self)@, order_statuses@, order_diffs@),
    {
        let ghost start = self@;
        let ghost statuses = order_statuses@;
        let ghost diffs = order_diffs@;
        let height = order_statuses.block_number();
        let time = order_statuses.block_time();
        if height <= self.height {
            // Not an error: caching may have started long before the snapshot was fetched.
            return Ok(());
        }
        if height - 1 > self.height {
            if self.allow_initial_gap {
                self.gaps.push(
                    AcceptedGap { height: self.height, expected: self.height + 1, got: height },
                );
                self.height = height - 1;
            } else {
                return Err(
                    ListenerError::UnexpectedBlock { expected: self.height + 1, got: height, time },
                );
            }
        }
        // From here on, any gap is data loss.
        self.allow_initial_gap = false;
        let ghost moved = self@;
        let mut order_map = collect_openings(order_statuses.events());
        let mut skipped: Vec<SkippedDiff> = Vec::new();
        let ghost first = Progress {
            books: start.books,
            last_warn: start.last_warn,
            skipped: Seq::empty(),
            openings: openings(statuses.events),
            failure: None,
        };
        assert(diffs.events.take(0) =~= Seq::empty());
        assert(skipped_views(skipped@) =~= Seq::empty());
        let events = order_diffs.events();
        for diff in it: events
            invariant
                it.seq() == diffs.events,
                start == old(self)@,
                statuses == order_statuses@,
                diffs == order_diffs@,
                statuses.number == height,
                is_next(start, height),
                first.failure is None,
                block_progress(start, statuses, diffs) == first.with_diffs(
                    diffs.events,
                    start.ignore_spot,
                    height,
                ),
                moved == (StateView {
                    allow_initial_gap: false,
                    height: (height - 1) as u64,
                    gaps: if height > start.height + 1 {
                        start.gaps.push(
                            AcceptedGap {
                                height: start.height,
                                expected: (start.height + 1) as u64,
                                got: height,
                            },
                        )
                    } else {
                        start.gaps
                    },
                    ..start
                }),
                ({
                    let so_far = first.with_diffs(
                        diffs.events.take(it.index() as int),
                        start.ignore_spot,
                        height,
                    );
                    &&& so_far.failure is None
                    &&& order_map@ == so_far.openings
                    &&& skipped_views(skipped@) == so_far.skipped
                    &&& self@ == (StateView {
                        books: so_far.books,
                        last_warn: so_far.last_warn,
                        ..moved
                    })
                }),
        {
            let ghost at = it.index() as int;
            proof {
                assert(diffs.events.take(at + 1).drop_last() =~= diffs.events.take(at));
                lemma_failure_stays(first, diffs.events, at + 1, start.ignore_spot, height);
                let so_far = first.with_diffs(diffs.events.take(at), start.ignore_spot, height);
                assert(so_far == Progress {
                    books: self@.books,
                    last_warn: self@.last_warn,
                    skipped: skipped_views(skipped@),
                    openings: order_map@,
                    failure: None,
                });
            }
            match self.apply_diff(diff, &mut order_map, &mut skipped, height) {
                Ok(()) => {},
                Err(error) => {
                    self.keep_skipped(skipped);
                    return Err(error);
                },
            }
        }
        assert(diffs.events.take(diffs.events.len() as int) =~= diffs.events);
        self.keep_skipped(skipped);
        self.height = height;
        self.time = time;
        self.snapped = false;
        Ok(())
    }

    /// Keeps some more reports.
    fn keep_skipped(&mut self, reports: Vec<SkippedDiff>)
        ensures
            final(self)@ == (StateView {
                skipped: old(self)@.skipped + skipped_views(reports@),
                ..old(self)@
            }),
    {
        let ghost more = skipped_views(reports@);
        let mut reports = reports;
        self.skipped.append(&mut reports);
        assert(self@.skipped =~= old(self)@.skipped + more);
    }
}

/// A change of an order that is not on the book leaves the books as they are.
proof fn lemma_absent_unchanged(books: Map<Seq<char>, BookView>, coin: Seq<char>, oid: u64)
    requires
        books.contains_key(coin),
        !books[coin].holds(oid),
    ensures
        forall|sz: u64| books.insert(coin, #[trigger] books[coin].with_size(oid, sz)) == books,
        books.insert(coin, books[coin].without(oid)) == books,
{
    assert(books.insert(coin, books[coin]) =~= books);
}

/// Once a diff cannot be worked in, nothing changes any more.
proof fn lemma_failure_stays(
    first: Progress,
    diffs: Seq<NodeDataOrderDiff>,
    n: int,
    ignore_spot: bool,
    height: u64,
)
    requires
        0 <= n <= diffs.len(),
    ensures
        first.with_diffs(diffs.take(n), ignore_spot, height).failure is Some ==> first.with_diffs(
            diffs,
            ignore_spot,
            height,
        ) == first.with_diffs(diffs.take(n), ignore_spot, height),
    decreases diffs.len() - n,
{
    if n < diffs.len() {
        assert(diffs.take(n + 1).drop_last() =~= diffs.take(n));
        lemma_failure_stays(first, diffs, n + 1, ignore_spot, height);
    } else {
        assert(diffs.take(n) =~= diffs);
    }
}

impl Clone for OrderBookState {
    fn clone(&self) -> (copy: OrderBookState)
        ensures
            copy@ == self@,
    {
        let skipped = self.skipped.clone();
        assert(skipped@ =~= self.skipped@);
        let gaps = self.gaps.clone();
        assert(gaps@ =~= self.gaps@);
        OrderBookState {
            order_book: self.order_book.clone(),
            height: self.height,
            time: self.time,
            snapped: self.snapped,
            ignore_spot: self.ignore_spot,
            allow_initial_gap: self.allow_initial_gap,
            not_yet_grafted_last_warn: self.not_yet_grafted_last_warn.clone(),
            skipped,
            gaps,
        }
    }
}

} // verus!
