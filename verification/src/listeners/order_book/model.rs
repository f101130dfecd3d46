//! What the listener holds, and how each event changes it.

use crate::listeners::order_book::batch_queue::QueueView;
use crate::listeners::order_book::error::{asks_resync, ListenerError};
use crate::listeners::order_book::l2::{all_views, L2SnapshotParams};
use crate::listeners::order_book::messages::FirstBatch;
use crate::listeners::order_book::snapshot_check::SnapshotVerdict;
use crate::listeners::order_book::source::{elapsed, ParseFailureTracker, SourceState};
use crate::listeners::order_book::state::{
    apply_result, started, state_after, with_extra_books, AcceptedGap, SkippedView,
    StateView,
};
use crate::order_book::book::Snapshot;
use crate::order_book::levels::LevelsView;
use crate::types::inner::InnerL4Order;
use crate::types::node_data::{
    BatchView, EventSource, NodeDataFill, NodeDataOrderDiff, NodeDataOrderStatus,
};
use vstd::prelude::*;

verus! {

/// The events of one block in one stream.
pub ghost enum EventView {
    Orders(BatchView<NodeDataOrderStatus>),
    BookDiffs(BatchView<NodeDataOrderDiff>),
    Fills(BatchView<NodeDataFill>),
}

impl EventView {
    pub open spec fn number(self) -> u64 {
        match self {
            EventView::Orders(batch) => batch.number,
            EventView::BookDiffs(batch) => batch.number,
            EventView::Fills(batch) => batch.number,
        }
    }

    pub open spec fn time(self) -> u64 {
        match self {
            EventView::Orders(batch) => batch.time,
            EventView::BookDiffs(batch) => batch.time,
            EventView::Fills(batch) => batch.time,
        }
    }
}

/// What subscribers are told.
pub ghost enum MessageView {
    Snapshot { views: Map<Seq<char>, Map<L2SnapshotParams, LevelsView>>, time: u64 },
    Fills { batch: BatchView<NodeDataFill> },
    L4BookUpdates {
        diff_batch: BatchView<NodeDataOrderDiff>,
        status_batch: BatchView<NodeDataOrderStatus>,
    },
}

/// The statuses and the diffs of one block.
pub ghost struct PairView {
    pub statuses: BatchView<NodeDataOrderStatus>,
    pub diffs: BatchView<NodeDataOrderDiff>,
}

/// What the listener holds.
#[verifier::ext_equal]
pub ghost struct ListenerView<F> {
    pub ignore_spot: bool,
    pub fills: SourceState<F>,
    pub order_statuses: SourceState<F>,
    pub order_diffs: SourceState<F>,
    /// Nothing before the first snapshot.
    pub state: Option<StateView>,
    /// The latest block whose fills came in.
    pub last_fill: Option<u64>,
    pub diff_queue: QueueView<NodeDataOrderDiff>,
    pub status_queue: QueueView<NodeDataOrderStatus>,
    /// The blocks that were worked in since caching began, while it is on.
    pub cache: Option<Seq<PairView>>,
    /// The messages that wait to be sent, where anyone listens.
    pub outbox: Option<Seq<MessageView>>,
    /// The latest block time seen, in milliseconds since the epoch.
    pub last_block_time: Option<u64>,
    /// When the listener became ready, in nanoseconds of its own clock.
    pub ready_at: Option<u64>,
    /// The reports of diffs that states passed over which are gone, until they are taken.
    pub skipped: Seq<SkippedView>,
    /// The gaps that states accepted which are gone, until they are taken.
    pub gaps: Seq<AcceptedGap>,
    /// The first batches of new files, until they are taken.
    pub first_batches: Seq<FirstBatch>,
}

/// The reports that a state holds.
pub open spec fn state_skipped(state: Option<StateView>) -> Seq<SkippedView> {
    match state {
        Some(state) => state.skipped,
        None => Seq::empty(),
    }
}

/// The accepted gaps that a state holds.
pub open spec fn state_gaps(state: Option<StateView>) -> Seq<AcceptedGap> {
    match state {
        Some(state) => state.gaps,
        None => Seq::empty(),
    }
}

/// The height of a state.
pub open spec fn state_height(state: Option<StateView>) -> Option<u64> {
    match state {
        Some(state) => Some(state.height),
        None => None,
    }
}

/// The two queues after the search for a block that both have, and the block.
pub ghost struct Pairing {
    pub pair: Option<PairView>,
    pub diffs: QueueView<NodeDataOrderDiff>,
    pub statuses: QueueView<NodeDataOrderStatus>,
}

/// The earliest block that both queues have. What is older in either queue is dropped.
pub open spec fn pairing(
    diffs: QueueView<NodeDataOrderDiff>,
    statuses: QueueView<NodeDataOrderStatus>,
) -> Pairing
    decreases diffs.batches.len() + statuses.batches.len(),
{
    if diffs.batches.len() == 0 || statuses.batches.len() == 0 {
        Pairing { pair: None, diffs, statuses }
    } else if diffs.batches[0].number < statuses.batches[0].number {
        pairing(diffs.popped(), statuses)
    } else if diffs.batches[0].number > statuses.batches[0].number {
        pairing(diffs, statuses.popped())
    } else {
        Pairing {
            pair: Some(PairView { statuses: statuses.batches[0], diffs: diffs.batches[0] }),
            diffs: diffs.popped(),
            statuses: statuses.popped(),
        }
    }
}

/// What a search leaves is no more than what there was, and less where a block was found.
pub proof fn lemma_pairing_shrinks(
    diffs: QueueView<NodeDataOrderDiff>,
    statuses: QueueView<NodeDataOrderStatus>,
)
    ensures
        ({
            let found = pairing(diffs, statuses);
            let before = diffs.batches.len() + statuses.batches.len();
            let after = found.diffs.batches.len() + found.statuses.batches.len();
            &&& after <= before
            &&& found.pair is Some ==> after < before
            &&& found.pair matches Some(pair) ==> pair.statuses.number == pair.diffs.number
        }),
    decreases diffs.batches.len() + statuses.batches.len(),
{
    if diffs.batches.len() > 0 && statuses.batches.len() > 0 {
        if diffs.batches[0].number < statuses.batches[0].number {
            lemma_pairing_shrinks(diffs.popped(), statuses);
        } else if diffs.batches[0].number > statuses.batches[0].number {
            lemma_pairing_shrinks(diffs, statuses.popped());
        }
    }
}

/// A state brought forward by the blocks that two queues share.
pub ghost struct Drained {
    pub state: StateView,
    pub diffs: QueueView<NodeDataOrderDiff>,
    pub statuses: QueueView<NodeDataOrderStatus>,
    /// A block could not be worked in.
    pub failed: bool,
}

/// Works in the blocks that both queues have, up to the first that cannot be.
pub open spec fn drained(
    state: StateView,
    diffs: QueueView<NodeDataOrderDiff>,
    statuses: QueueView<NodeDataOrderStatus>,
) -> Drained
    decreases diffs.batches.len() + statuses.batches.len(),
{
    let found = pairing(diffs, statuses);
    match found.pair {
        None => Drained { state, diffs: found.diffs, statuses: found.statuses, failed: false },
        Some(pair) => {
            proof {
                lemma_pairing_shrinks(diffs, statuses);
            }
            let next = state_after(state, pair.statuses, pair.diffs);
            if apply_result(state, pair.statuses, pair.diffs) is Err {
                Drained {
                    state: next,
                    diffs: found.diffs,
                    statuses: found.statuses,
                    failed: true,
                }
            } else {
                drained(next, found.diffs, found.statuses)
            }
        },
    }
}

/// The later of the latest time so far and another.
pub open spec fn latest(so_far: Option<u64>, time: u64) -> u64 {
    match so_far {
        Some(so_far) if so_far > time => so_far,
        _ => time,
    }
}

/// How long, in nanoseconds, after a start from a snapshot the lag watchdog keeps quiet. The
/// listener must first work through the blocks of the current file, which may span minutes.
pub const LAG_GRACE_AFTER_INIT_NANOS: u64 = 300_000_000_000;

/// How far, in milliseconds, the latest block time lies behind the wall clock. None if there
/// is no block time yet, if it lies in the future, or if a time is too large to tell.
pub open spec fn block_lag(last: Option<u64>, wall_clock_ms: Option<u128>) -> Option<i64> {
    match (last, wall_clock_ms) {
        (Some(last), Some(now)) if now <= i64::MAX && last <= now => Some((now - last) as i64),
        _ => None,
    }
}

/// The time of the wall clock in milliseconds since the epoch, 0 if it stands before that.
pub open spec fn clock_time(wall_clock_ms: Option<u128>) -> u64 {
    match wall_clock_ms {
        Some(ms) => ms as u64,
        None => 0,
    }
}

/// A batch of fills is news.
pub open spec fn is_new_fill(last_fill: Option<u64>, number: u64) -> bool {
    last_fill matches Some(height) ==> height < number
}

impl<F> ListenerView<F> {
    pub open spec fn source(self, source: EventSource) -> SourceState<F> {
        match source {
            EventSource::Fills => self.fills,
            EventSource::OrderStatuses => self.order_statuses,
            EventSource::OrderDiffs => self.order_diffs,
        }
    }

    pub open spec fn with_source(
        self,
        source: EventSource,
        state: SourceState<F>,
    ) -> ListenerView<F> {
        match source {
            EventSource::Fills => ListenerView { fills: state, ..self },
            EventSource::OrderStatuses => ListenerView { order_statuses: state, ..self },
            EventSource::OrderDiffs => ListenerView { order_diffs: state, ..self },
        }
    }

    /// The queues are in order, and what is cached belongs together block by block.
    pub open spec fn well_formed(self) -> bool {
        &&& self.diff_queue.well_formed()
        &&& self.status_queue.well_formed()
        &&& self.cache matches Some(cache) ==> aligned(cache)
    }

    pub open spec fn with_message(self, message: MessageView) -> ListenerView<F> {
        ListenerView {
            outbox: match self.outbox {
                Some(outbox) => Some(outbox.push(message)),
                None => None,
            },
            ..self
        }
    }

    /// The listener with a batch taken into its queue, or a batch of fills passed on.
    pub open spec fn queued(self, event: EventView) -> ListenerView<F> {
        let timed = ListenerView {
            last_block_time: Some(latest(self.last_block_time, event.time())),
            ..self
        };
        match event {
            EventView::Orders(batch) => ListenerView {
                status_queue: self.status_queue.pushed(batch),
                ..timed
            },
            EventView::BookDiffs(batch) => ListenerView {
                diff_queue: self.diff_queue.pushed(batch),
                ..timed
            },
            EventView::Fills(batch) => if is_new_fill(self.last_fill, batch.number) {
                ListenerView { last_fill: Some(batch.number), ..timed }.with_message(
                    MessageView::Fills { batch },
                )
            } else {
                timed
            },
        }
    }

    /// Whether there was room for a batch.
    pub open spec fn queue_result(self, event: EventView) -> Option<ListenerError> {
        match event {
            EventView::Orders(batch) => match self.status_queue.push_result(batch) {
                Ok(_) => None,
                Err(error) => Some(error),
            },
            EventView::BookDiffs(batch) => match self.diff_queue.push_result(batch) {
                Ok(_) => None,
                Err(error) => Some(error),
            },
            EventView::Fills(_) => None,
        }
    }

    /// The listener with its queues as the search for a common block leaves them.
    pub open spec fn searched(self) -> ListenerView<F> {
        let found = pairing(self.diff_queue, self.status_queue);
        ListenerView { diff_queue: found.diffs, status_queue: found.statuses, ..self }
    }

    /// The listener after the next common block, where there is one.
    pub open spec fn advanced(self) -> ListenerView<F> {
        match self.state {
            None => self,
            Some(state) => match pairing(self.diff_queue, self.status_queue).pair {
                None => self.searched(),
                Some(pair) => {
                    let moved = ListenerView {
                        state: Some(state_after(state, pair.statuses, pair.diffs)),
                        ..self.searched()
                    };
                    if apply_result(state, pair.statuses, pair.diffs) is Err {
                        moved
                    } else {
                        ListenerView {
                            cache: match self.cache {
                                Some(cache) => Some(cache.push(pair)),
                                None => None,
                            },
                            ..moved
                        }.with_message(
                            MessageView::L4BookUpdates {
                                diff_batch: pair.diffs,
                                status_batch: pair.statuses,
                            },
                        )
                    }
                },
            },
        }
    }

    /// Whether the next common block could be worked in.
    pub open spec fn advance_result(self) -> Result<(), ListenerError> {
        match self.state {
            None => Ok(()),
            Some(state) => match pairing(self.diff_queue, self.status_queue).pair {
                None => Ok(()),
                Some(pair) => apply_result(state, pair.statuses, pair.diffs),
            },
        }
    }

    /// The listener after a batch: into its queue, and on by a block where one is complete.
    pub open spec fn received(self, event: EventView) -> ListenerView<F> {
        if self.queue_result(event) is Some {
            self.queued(event)
        } else {
            self.queued(event).advanced()
        }
    }

    pub open spec fn receive_result(self, event: EventView) -> Result<(), ListenerError> {
        match self.queue_result(event) {
            Some(error) => Err(error),
            None => self.queued(event).advance_result(),
        }
    }

    /// The listener after it was given a snapshot to start from: with the blocks that both
    /// queues have worked in, if all of them could be. Where one could not be, the listener
    /// waits for the next snapshot, and the blocks up to that one are gone.
    pub open spec fn initialized(
        self,
        snapshot: Map<Seq<char>, Snapshot<InnerL4Order>>,
        height: u64,
        wall_clock_ms: Option<u128>,
        now: u64,
    ) -> ListenerView<F> {
        let caught_up = drained(
            started(snapshot, height, 0, true, self.ignore_spot),
            self.diff_queue,
            self.status_queue,
        );
        let waiting = ListenerView {
            diff_queue: caught_up.diffs,
            status_queue: caught_up.statuses,
            ..self
        };
        if caught_up.failed {
            ListenerView {
                skipped: self.skipped + caught_up.state.skipped,
                gaps: self.gaps + caught_up.state.gaps,
                ..waiting
            }
        } else {
            ListenerView {
                state: Some(caught_up.state),
                last_block_time: Some(clock_time(wall_clock_ms)),
                ready_at: Some(now),
                ..waiting.shelved()
            }
        }
    }

    /// The listener with some fetched books grafted into its state, where there is one.
    pub open spec fn with_extras(
        self,
        extras: Map<Seq<char>, Snapshot<InnerL4Order>>,
    ) -> ListenerView<F> {
        ListenerView {
            state: match self.state {
                Some(state) => Some(with_extra_books(state, extras, true)),
                None => None,
            },
            ..self
        }
    }

    /// The messages that wait to be sent.
    pub open spec fn waiting(self) -> Seq<MessageView> {
        match self.outbox {
            Some(outbox) => outbox,
            None => Seq::empty(),
        }
    }

    /// The listener once its messages were taken.
    pub open spec fn relieved(self) -> ListenerView<F> {
        ListenerView {
            outbox: match self.outbox {
                Some(_) => Some(Seq::empty()),
                None => None,
            },
            ..self
        }
    }

    /// The listener once the views of its block were looked at, for the last time or not.
    pub open spec fn looked_at(self, for_good: bool) -> ListenerView<F> {
        ListenerView {
            state: match self.state {
                Some(state) => Some(StateView { snapped: state.snapped || for_good, ..state }),
                None => None,
            },
            ..self
        }
    }

    /// The listener once the file of a stream was taken from it.
    pub open spec fn without_file(self, source: EventSource) -> ListenerView<F> {
        self.with_source(source, SourceState { file: None, ..self.source(source) })
    }

    /// The listener once it was given a new file of a stream.
    pub open spec fn with_file(self, source: EventSource, file: F, path: String) -> ListenerView<F> {
        self.with_source(
            source,
            SourceState {
                file: Some(file),
                pending_first_batch_log: Some(path),
                ..self.source(source)
            },
        )
    }

    /// The listener once a stream could not be read at a place.
    pub open spec fn stuck_at(
        self,
        source: EventSource,
        offset: Option<u64>,
        now: u64,
    ) -> ListenerView<F> {
        let counted = self.source(source).parse_fail.counted(offset, now);
        self.with_source(
            source,
            SourceState { parse_fail: counted.reported(now), ..self.source(source) },
        )
    }

    /// The listener as it begins to collect the blocks that it works in.
    pub open spec fn collecting(self) -> ListenerView<F> {
        ListenerView { cache: Some(Seq::empty()), ..self }
    }

    /// The blocks that were collected.
    pub open spec fn collected(self) -> Seq<PairView> {
        match self.cache {
            Some(cache) => cache,
            None => Seq::empty(),
        }
    }

    /// The listener after it was told what a fetched snapshot says of its state.
    pub open spec fn settled(
        self,
        verdict: SnapshotVerdict,
        height: u64,
        wall_clock_ms: Option<u128>,
        now: u64,
    ) -> ListenerView<F> {
        match verdict {
            SnapshotVerdict::Initialize { snapshot } => self.initialized(
                snapshot@,
                height,
                wall_clock_ms,
                now,
            ),
            SnapshotVerdict::ExtraBooks { extras } => self.with_extras(extras@),
            _ => self,
        }
    }

    /// The listener without its state, whose reports stay.
    pub open spec fn shelved(self) -> ListenerView<F> {
        ListenerView {
            state: None,
            skipped: self.skipped + state_skipped(self.state),
            gaps: self.gaps + state_gaps(self.state),
            ..self
        }
    }

    /// The listener without its state and with nothing queued, as before the first snapshot.
    pub open spec fn reset(self) -> ListenerView<F> {
        ListenerView {
            last_block_time: None,
            ready_at: None,
            diff_queue: QueueView::empty(),
            status_queue: QueueView::empty(),
            ..self.shelved()
        }
    }

    /// The listener after a batch could not be taken in: without its state in any case, and
    /// reset where the error asks for that.
    pub open spec fn given_up(self, error: ListenerError) -> ListenerView<F> {
        if asks_resync(error) {
            self.reset()
        } else {
            self.shelved()
        }
    }

    /// The listener with the views of its block handed out, once per block.
    pub open spec fn published(self) -> ListenerView<F> {
        match self.state {
            Some(state) if !state.snapped => ListenerView {
                state: Some(StateView { snapped: true, ..state }),
                ..self
            }.with_message(
                MessageView::Snapshot { views: all_views(state.books), time: state.time },
            ),
            _ => self,
        }
    }

    /// The listener became ready a short while ago.
    pub open spec fn in_grace(self, now: u64) -> bool {
        self.ready_at matches Some(at) && elapsed(at, now) < LAG_GRACE_AFTER_INIT_NANOS
    }

    /// Some stream has been stuck at one place for long.
    pub open spec fn is_stalled(self, now: u64) -> bool {
        self.fills.parse_fail.is_stalled(now) || self.order_statuses.parse_fail.is_stalled(now)
            || self.order_diffs.parse_fail.is_stalled(now)
    }

    /// The listener when a line of a stream could be read: nothing is stuck there any more, and
    /// the first line of a new file, where one was awaited, is noted.
    pub open spec fn line_read(self, source: EventSource, event: EventView) -> ListenerView<F> {
        ListenerView {
            first_batches: match self.source(source).pending_first_batch_log {
                Some(path) => self.first_batches.push(
                    FirstBatch {
                        event_source: source,
                        path,
                        block: event.number(),
                        state_height: state_height(self.state),
                    },
                ),
                None => self.first_batches,
            },
            ..self
        }.with_source(
            source,
            SourceState {
                parse_fail: ParseFailureTracker::cleared(),
                pending_first_batch_log: None,
                ..self.source(source)
            },
        )
    }
}

/// The statuses and the diffs of each pair are of the same block.
pub open spec fn aligned(pairs: Seq<PairView>) -> bool {
    forall|i: int|
        0 <= i < pairs.len() ==> (#[trigger] pairs[i]).statuses.number == pairs[i].diffs.number
}

/// How some lines were worked through.
pub ghost enum LinesEnd {
    /// All of them.
    Through,
    /// Up to a line that cannot be read, the one with this place.
    Torn(int),
    /// Up to a line after which the listener was reset.
    Reset,
    /// Up to a line that could not be taken in.
    Failed(ListenerError),
}

/// The listener and how far it came.
pub ghost struct LinesRun<F> {
    pub listener: ListenerView<F>,
    pub end: LinesEnd,
}

/// Takes in an event. Where it cannot be taken in, the state is given up.
pub open spec fn event_taken<F>(listener: ListenerView<F>, event: EventView) -> LinesRun<F> {
    match listener.receive_result(event) {
        Ok(()) => LinesRun { listener: listener.received(event), end: LinesEnd::Through },
        Err(error) => LinesRun {
            listener: listener.received(event).given_up(error),
            end: if asks_resync(error) {
                LinesEnd::Reset
            } else {
                LinesEnd::Failed(error)
            },
        },
    }
}

/// Works through some lines, each of which is an event or cannot be read, up to the first that
/// cannot be read or after which there is no going on.
pub open spec fn run_lines<F>(
    listener: ListenerView<F>,
    lines: Seq<Option<EventView>>,
    take: spec_fn(ListenerView<F>, EventView) -> LinesRun<F>,
) -> LinesRun<F>
    decreases lines.len(),
{
    if lines.len() == 0 {
        LinesRun { listener, end: LinesEnd::Through }
    } else {
        let before = run_lines(listener, lines.drop_last(), take);
        if before.end != LinesEnd::Through {
            before
        } else {
            match lines.last() {
                None => LinesRun { end: LinesEnd::Torn(lines.len() - 1), ..before },
                Some(event) => take(before.listener, event),
            }
        }
    }
}

/// Works through the lines of a piece of data of a stream.
pub open spec fn lines_run<F>(
    listener: ListenerView<F>,
    lines: Seq<Option<EventView>>,
    source: EventSource,
) -> LinesRun<F> {
    run_lines(
        listener,
        lines,
        |listener: ListenerView<F>, event: EventView|
            event_taken(listener.line_read(source, event), event),
    )
}

/// Works through lines of a file that is no longer written.
pub open spec fn stream_run<F>(
    listener: ListenerView<F>,
    lines: Seq<Option<EventView>>,
) -> LinesRun<F> {
    run_lines(
        listener,
        lines,
        |listener: ListenerView<F>, event: EventView| event_taken(listener, event),
    )
}

/// Once the work ends, further lines change nothing.
pub proof fn lemma_end_stays<F>(
    listener: ListenerView<F>,
    lines: Seq<Option<EventView>>,
    n: int,
    take: spec_fn(ListenerView<F>, EventView) -> LinesRun<F>,
)
    requires
        0 <= n <= lines.len(),
    ensures
        run_lines(listener, lines.take(n), take).end != LinesEnd::Through ==> run_lines(
            listener,
            lines,
            take,
        ) == run_lines(listener, lines.take(n), take),
    decreases lines.len() - n,
{
    if n < lines.len() {
        assert(lines.take(n + 1).drop_last() =~= lines.take(n));
        lemma_end_stays(listener, lines, n + 1, take);
    } else {
        assert(lines.take(n) =~= lines);
    }
}

} // verus!
