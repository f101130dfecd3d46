//! The listener: three streams in, order books and messages out.

use crate::lines::{lemma_lines_from, lines_of, span_of, split_lines, LineSpan};
use crate::listeners::order_book::batch_queue::BatchQueue;
use crate::listeners::order_book::error::{asks_resync, ListenerError};
use crate::listeners::order_book::l2::{all_views, L2Snapshots};
use crate::listeners::order_book::messages::{
    BlockPair, EventBatch, FirstBatch, InternalMessage,
};
use crate::listeners::order_book::model::{
    block_lag, drained, event_taken, latest, lemma_end_stays, lemma_pairing_shrinks,
    lines_run, pairing, run_lines, state_gaps, state_height, state_skipped, stream_run, EventView,
    LinesEnd, LinesRun, ListenerView, MessageView, PairView,
    LAG_GRACE_AFTER_INIT_NANOS,
};
use crate::listeners::order_book::snapshot_check::SnapshotVerdict;
use crate::listeners::order_book::source::{
    ParseFailureReport, ParseFailureTracker, SourceState,
};
use crate::listeners::order_book::state::{
    skipped_views, AcceptedGap, OrderBookState, SkippedDiff, StateView, TimedSnapshots,
};
use crate::order_book::multi_book::{snapshot_books, Snapshots};
use crate::order_book::types::Coin;
use crate::types::inner::InnerL4Order;
use crate::types::node_data::{EventSource, NodeDataOrderDiff, NodeDataOrderStatus};
use std::collections::VecDeque;
use vstd::prelude::*;

verus! {

/// The listener; `F` is what stands for an open file.
#[derive(Debug)]
pub struct OrderBookListener<F> {
    ignore_spot: bool,
    fills: SourceState<F>,
    order_statuses: SourceState<F>,
    order_diffs: SourceState<F>,
    /// None before the first valid snapshot.
    order_book_state: Option<OrderBookState>,
    /// The latest block whose fills came in.
    last_fill: Option<u64>,
    order_diff_cache: BatchQueue<NodeDataOrderDiff>,
    order_status_cache: BatchQueue<NodeDataOrderStatus>,
    /// Some while blocks are collected.
    fetched_snapshot_cache: Option<VecDeque<BlockPair>>,
    /// Some where anyone listens.
    outbox: Option<Vec<InternalMessage>>,
    /// The latest block time in any batch so far. By it the lag watchdog sees that events
    /// still arrive but are not worked in fast enough.
    last_block_time_ms: Option<u64>,
    /// When the listener became ready. The lag watchdog keeps quiet for a while after that, so
    /// that the blocks from before the snapshot can be caught up with.
    ready_at: Option<u64>,
    /// The reports of diffs that states passed over which are gone.
    skipped: Vec<SkippedDiff>,
    /// The gaps that states accepted which are gone.
    gaps: Vec<AcceptedGap>,
    /// The first batches of new files.
    first_batches: Vec<FirstBatch>,
}

impl<F> View for OrderBookListener<F> {
    type V = ListenerView<F>;

    closed spec fn view(&self) -> ListenerView<F> {
        ListenerView {
            ignore_spot: self.ignore_spot,
            fills: self.fills,
            order_statuses: self.order_statuses,
            order_diffs: self.order_diffs,
            state: match self.order_book_state {
                Some(state) => Some(state@),
                None => None,
            },
            last_fill: self.last_fill,
            diff_queue: self.order_diff_cache@,
            status_queue: self.order_status_cache@,
            cache: match self.fetched_snapshot_cache {
                Some(cache) => Some(cache@.map_values(|pair: BlockPair| pair@)),
                None => None,
            },
            outbox: match self.outbox {
                Some(outbox) => Some(outbox@.map_values(|message: InternalMessage| message@)),
                None => None,
            },
            last_block_time: self.last_block_time_ms,
            ready_at: self.ready_at,
            skipped: skipped_views(self.skipped@),
            gaps: self.gaps@,
            first_batches: self.first_batches@,
        }
    }
}

impl<F> OrderBookListener<F> {
    /// A listener without a state. Messages are made only where anyone listens.
    pub fn new(has_subscribers: bool, ignore_spot: bool) -> (listener: OrderBookListener<F>)
        ensures
            listener@.ignore_spot == ignore_spot,
            listener@.fills.is_idle(),
            listener@.order_statuses.is_idle(),
            listener@.order_diffs.is_idle(),
            listener@.state is None,
            listener@.last_fill is None,
            listener@.diff_queue.batches.len() == 0,
            listener@.diff_queue.last is None,
            listener@.status_queue.batches.len() == 0,
            listener@.status_queue.last is None,
            listener@.cache is None,
            listener@.outbox == (if has_subscribers {
                Some(Seq::<MessageView>::empty())
            } else {
                None
            }),
            listener@.last_block_time is None,
            listener@.ready_at is None,
            listener@.skipped.len() == 0,
            listener@.gaps.len() == 0,
            listener@.first_batches.len() == 0,
            listener@.well_formed(),
    {
        let outbox: Option<Vec<InternalMessage>> = if has_subscribers {
            Some(Vec::new())
        } else {
            None
        };
        let listener = OrderBookListener {
            ignore_spot,
            fills: SourceState::new(),
            order_statuses: SourceState::new(),
            order_diffs: SourceState::new(),
            order_book_state: None,
            last_fill: None,
            order_diff_cache: BatchQueue::new(),
            order_status_cache: BatchQueue::new(),
            fetched_snapshot_cache: None,
            outbox,
            last_block_time_ms: None,
            ready_at: None,
            skipped: Vec::new(),
            gaps: Vec::new(),
            first_batches: Vec::new(),
        };
        proof {
            if has_subscribers {
                assert(listener@.outbox->0 =~= Seq::<MessageView>::empty());
            }
        }
        listener
    }

    pub fn ignores_spot(&self) -> (ignores: bool)
        ensures
            ignores == self@.ignore_spot,
    {
        self.ignore_spot
    }

    /// What is kept for a stream.
    fn source_mut(&mut self, event_source: EventSource) -> (source: &mut SourceState<F>)
        ensures
            *source == old(self)@.source(event_source),
            final(self)@ == old(self)@.with_source(event_source, *final(source)),
    {
        match event_source {
            EventSource::Fills => &mut self.fills,
            EventSource::OrderStatuses => &mut self.order_statuses,
            EventSource::OrderDiffs => &mut self.order_diffs,
        }
    }

    /// The failures to read a stream.
    pub fn parse_fail_tracker_mut(&mut self, event_source: EventSource) -> (tracker:
        &mut ParseFailureTracker)
        ensures
            *tracker == old(self)@.source(event_source).parse_fail,
            final(self)@ == old(self)@.with_source(
                event_source,
                SourceState { parse_fail: *final(tracker), ..old(self)@.source(event_source) },
            ),
    {
        &mut self.source_mut(event_source).parse_fail
    }

    /// Takes the name of the new file whose first line is awaited.
    pub fn take_pending_first_batch_log(&mut self, event_source: EventSource) -> (path: Option<
        String,
    >)
        ensures
            path == old(self)@.source(event_source).pending_first_batch_log,
            final(self)@ == old(self)@.with_source(
                event_source,
                SourceState {
                    pending_first_batch_log: None,
                    ..old(self)@.source(event_source)
                },
            ),
    {
        self.source_mut(event_source).pending_first_batch_log.take()
    }

    /// Notes that the first line of a new file is awaited.
    pub fn set_pending_first_batch_log(&mut self, event_source: EventSource, path: String)
        ensures
            final(self)@ == old(self)@.with_source(
                event_source,
                SourceState {
                    pending_first_batch_log: Some(path),
                    ..old(self)@.source(event_source)
                },
            ),
    {
        self.source_mut(event_source).pending_first_batch_log = Some(path);
    }

    /// Whether a file of a stream is being read.
    pub fn is_reading(&self, event_source: EventSource) -> (reading: bool)
        ensures
            reading == self@.source(event_source).file is Some,
    {
        match event_source {
            EventSource::Fills => self.fills.file.is_some(),
            EventSource::OrderStatuses => self.order_statuses.file.is_some(),
            EventSource::OrderDiffs => self.order_diffs.file.is_some(),
        }
    }

    /// The file of a stream that is being read.
    pub fn file_mut(&mut self, event_source: EventSource) -> (file: &mut Option<F>)
        ensures
            *file == old(self)@.source(event_source).file,
            final(self)@ == old(self)@.with_source(
                event_source,
                SourceState { file: *final(file), ..old(self)@.source(event_source) },
            ),
    {
        &mut self.source_mut(event_source).file
    }
}

/// What a search found, as it was before it left the listener.
pub open spec fn pair_view(pair: Option<BlockPair>) -> Option<PairView> {
    match pair {
        Some(pair) => Some(pair@),
        None => None,
    }
}

impl<F> OrderBookListener<F> {
    /// A copy of the state.
    pub fn clone_state(&self) -> (state: Option<OrderBookState>)
        ensures
            state is Some <==> self@.state is Some,
            state matches Some(state) ==> Some(state@) == self@.state,
    {
        match &self.order_book_state {
            Some(state) => Some(state.clone()),
            None => None,
        }
    }

    /// Whether there is a state.
    pub fn is_ready(&self) -> (ready: bool)
        ensures
            ready == self@.state is Some,
    {
        self.order_book_state.is_some()
    }

    /// The height of the state.
    pub fn height(&self) -> (height: Option<u64>)
        ensures
            height == state_height(self@.state),
    {
        match &self.order_book_state {
            Some(state) => Some(state.height()),
            None => None,
        }
    }

    /// The coins that have a book, each once.
    pub fn universe(&self) -> (coins: Vec<Coin>)
        ensures
            coins@.map_values(|coin: Coin| coin@).no_duplicates(),
            coins@.map_values(|coin: Coin| coin@).to_set() == match self@.state {
                Some(state) => state.books.dom(),
                None => Set::<Seq<char>>::empty(),
            },
    {
        match &self.order_book_state {
            Some(state) => state.compute_universe(),
            None => {
                let coins: Vec<Coin> = Vec::new();
                assert(coins@.map_values(|coin: Coin| coin@).to_set() =~= Set::<
                    Seq<char>,
                >::empty());
                coins
            },
        }
    }

    /// Takes the earliest block that both queues have. Older batches are dropped on the way.
    pub fn pop_cache(&mut self) -> (pair: Option<BlockPair>)
        ensures
            pair_view(pair) == pairing(old(self)@.diff_queue, old(self)@.status_queue).pair,
            final(self)@ == old(self)@.searched(),
    {
        let ghost start = self@;
        let ghost found = pairing(start.diff_queue, start.status_queue);
        loop
            invariant
                start == old(self)@,
                found == pairing(start.diff_queue, start.status_queue),
                found == pairing(self@.diff_queue, self@.status_queue),
                self@ == (ListenerView {
                    diff_queue: self@.diff_queue,
                    status_queue: self@.status_queue,
                    ..start
                }),
            decreases self@.diff_queue.batches.len() + self@.status_queue.batches.len(),
        {
            let (diff_block, status_block) = match (
                self.order_diff_cache.front(),
                self.order_status_cache.front(),
            ) {
                (Some(diffs), Some(statuses)) => (diffs.block_number(), statuses.block_number()),
                _ => {
                    return None;
                },
            };
            if diff_block < status_block {
                let _ = self.order_diff_cache.pop_front();
            } else if diff_block > status_block {
                let _ = self.order_status_cache.pop_front();
            } else {
                let statuses = self.order_status_cache.pop_front();
                let diffs = self.order_diff_cache.pop_front();
                return match (statuses, diffs) {
                    (Some(statuses), Some(diffs)) => Some(BlockPair::new(statuses, diffs)),
                    _ => None,
                };
            }
        }
    }

    /// Leaves a message for the subscribers.
    fn send(&mut self, message: InternalMessage)
        ensures
            final(self)@ == old(self)@.with_message(message@),
    {
        if let Some(outbox) = &mut self.outbox {
            outbox.push(message);
        }
        proof {
            if old(self).outbox is Some {
                assert(self@.outbox->0 =~= old(self)@.outbox->0.push(message@));
            }
        }
        assert(self@ =~= old(self)@.with_message(message@));
    }

    /// Takes the messages that wait, oldest first.
    pub fn take_messages(&mut self) -> (messages: Vec<InternalMessage>)
        ensures
            messages@.map_values(|message: InternalMessage| message@) == old(self)@.waiting(),
            final(self)@ == old(self)@.relieved(),
    {
        let mut messages: Vec<InternalMessage> = Vec::new();
        assert(messages@.map_values(|message: InternalMessage| message@) =~= Seq::<
            MessageView,
        >::empty());
        if let Some(outbox) = &mut self.outbox {
            std::mem::swap(outbox, &mut messages);
        }
        messages
    }

    /// Takes the reports of diffs that were passed over because their coin has no book yet.
    pub fn take_skipped(&mut self) -> (skipped: Vec<SkippedDiff>)
        ensures
            skipped_views(skipped@) == old(self)@.skipped + state_skipped(old(self)@.state),
            final(self)@ == (ListenerView {
                state: match old(self)@.state {
                    Some(state) => Some(StateView { skipped: Seq::empty(), ..state }),
                    None => None,
                },
                skipped: Seq::empty(),
                ..old(self)@
            }),
    {
        let mut skipped: Vec<SkippedDiff> = Vec::new();
        assert(skipped_views(skipped@) =~= Seq::empty());
        std::mem::swap(&mut skipped, &mut self.skipped);
        if let Some(state) = &mut self.order_book_state {
            let mut more = state.take_skipped();
            skipped.append(&mut more);
        }
        assert(skipped_views(skipped@) =~= old(self)@.skipped + state_skipped(old(self)@.state));
        skipped
    }

    /// Takes the gaps between blocks that were accepted, oldest first.
    pub fn take_gaps(&mut self) -> (gaps: Vec<AcceptedGap>)
        ensures
            gaps@ == old(self)@.gaps + state_gaps(old(self)@.state),
            final(self)@ == (ListenerView {
                state: match old(self)@.state {
                    Some(state) => Some(StateView { gaps: Seq::empty(), ..state }),
                    None => None,
                },
                gaps: Seq::empty(),
                ..old(self)@
            }),
    {
        let mut gaps: Vec<AcceptedGap> = Vec::new();
        std::mem::swap(&mut gaps, &mut self.gaps);
        if let Some(state) = &mut self.order_book_state {
            let mut more = state.take_gaps();
            gaps.append(&mut more);
        }
        assert(gaps@ =~= old(self)@.gaps + state_gaps(old(self)@.state));
        gaps
    }

    /// Takes the first batches of new files, oldest first.
    pub fn take_first_batches(&mut self) -> (first_batches: Vec<FirstBatch>)
        ensures
            first_batches@ == old(self)@.first_batches,
            final(self)@ == (ListenerView { first_batches: Seq::empty(), ..old(self)@ }),
    {
        let mut first_batches: Vec<FirstBatch> = Vec::new();
        std::mem::swap(&mut first_batches, &mut self.first_batches);
        first_batches
    }

    /// Drops the state, but for its reports.
    fn shelve_state(&mut self)
        ensures
            final(self)@ == old(self)@.shelved(),
    {
        if let Some(mut state) = self.order_book_state.take() {
            let mut reports = state.take_skipped();
            self.skipped.append(&mut reports);
            let mut gaps = state.take_gaps();
            self.gaps.append(&mut gaps);
        }
        assert(self@.gaps =~= old(self)@.gaps + state_gaps(old(self)@.state));
        assert(self@.skipped =~= old(self)@.skipped + state_skipped(old(self)@.state));
        assert(self@ =~= old(self)@.shelved());
    }

    /// Notes the time of a block.
    fn note_block_time(&mut self, time: u64)
        ensures
            final(self)@ == (ListenerView {
                last_block_time: Some(latest(old(self)@.last_block_time, time)),
                ..old(self)@
            }),
    {
        let latest_time: u64 = match self.last_block_time_ms {
            Some(so_far) => if so_far > time {
                so_far
            } else {
                time
            },
            None => time,
        };
        self.last_block_time_ms = Some(latest_time);
    }

    /// Works in the next block that both queues have, if there is a state and such a block.
    fn advance(&mut self) -> (advanced: Result<(), ListenerError>)
        ensures
            advanced == old(self)@.advance_result(),
            final(self)@ == old(self)@.advanced(),
    {
        if !self.is_ready() {
            return Ok(());
        }
        let ghost start = self@;
        let pair = match self.pop_cache() {
            Some(pair) => pair,
            None => {
                return Ok(());
            },
        };
        let ghost view = pair@;
        assert(self@ == start.searched());
        let (statuses, diffs) = pair.clone().into_parts();
        if let Some(state) = &mut self.order_book_state {
            match state.apply_updates(statuses, diffs) {
                Ok(()) => {},
                Err(error) => {
                    assert(self@ =~= start.advanced());
                    return Err(error);
                },
            }
        }
        if let Some(cache) = &mut self.fetched_snapshot_cache {
            cache.push_back(pair.clone());
        }
        proof {
            if start.cache is Some {
                assert(self@.cache->0 =~= start.cache->0.push(view));
            }
        }
        let (status_batch, diff_batch) = pair.into_parts();
        self.send(InternalMessage::L4BookUpdates { diff_batch, status_batch });
        assert(self@ =~= start.advanced());
        Ok(())
    }

    /// Takes a batch in, and works in the next block where one is complete.
    ///
    /// Where a block cannot be worked in, the state holds the part of it that could be, and is
    /// of no use any more: the caller gives it up.
    pub fn receive_batch(&mut self, updates: EventBatch) -> (received: Result<(), ListenerError>)
        ensures
            received == old(self)@.receive_result(updates@),
            final(self)@ == old(self)@.received(updates@),
    {
        let ghost start = self@;
        let ghost event = updates@;
        match updates {
            EventBatch::Orders(batch) => {
                self.note_block_time(batch.block_time());
                match self.order_status_cache.push(batch) {
                    Ok(_) => {},
                    Err(error) => {
                        assert(self@ =~= start.queued(event));
                        return Err(error);
                    },
                }
            },
            EventBatch::BookDiffs(batch) => {
                self.note_block_time(batch.block_time());
                match self.order_diff_cache.push(batch) {
                    Ok(_) => {},
                    Err(error) => {
                        assert(self@ =~= start.queued(event));
                        return Err(error);
                    },
                }
            },
            EventBatch::Fills(batch) => {
                self.note_block_time(batch.block_time());
                let is_news = match self.last_fill {
                    Some(height) => height < batch.block_number(),
                    None => true,
                };
                if is_news {
                    self.last_fill = Some(batch.block_number());
                    self.send(InternalMessage::Fills { batch });
                }
            },
        }
        assert(self@ =~= start.queued(event));
        self.advance()
    }

    /// Starts to collect the blocks that are worked in.
    pub fn begin_caching(&mut self)
        ensures
            final(self)@ == old(self)@.collecting(),
    {
        self.fetched_snapshot_cache = Some(VecDeque::new());
        assert(self@.cache->0 =~= Seq::<PairView>::empty());
    }

    /// Takes the collected blocks and stops collecting.
    pub fn take_cache(&mut self) -> (cache: VecDeque<BlockPair>)
        ensures
            cache@.map_values(|pair: BlockPair| pair@) == old(self)@.collected(),
            final(self)@ == (ListenerView { cache: None, ..old(self)@ }),
    {
        match self.fetched_snapshot_cache.take() {
            Some(cache) => cache,
            None => {
                let cache: VecDeque<BlockPair> = VecDeque::new();
                assert(cache@.map_values(|pair: BlockPair| pair@) =~= Seq::<PairView>::empty());
                cache
            },
        }
    }

    /// Starts from a snapshot, at a time of the wall clock in milliseconds since the epoch
    /// (none if it stands before that) and of the listener's own clock in nanoseconds.
    ///
    /// The time of the last block becomes the present: the snapshot shows the present state,
    /// so there is no lag yet, while the first batch may be from before a restart.
    pub fn init_from_snapshot(
        &mut self,
        snapshot: Snapshots<InnerL4Order>,
        height: u64,
        wall_clock_ms: Option<u128>,
        now: u64,
    )
        ensures
            final(self)@ == old(self)@.initialized(snapshot@, height, wall_clock_ms, now),
    {
        let ghost start = self@;
        let mut new_order_book = OrderBookState::from_snapshot(
            snapshot,
            height,
            0,
            true,
            self.ignore_spot,
        );
        let ghost caught_up = drained(
            new_order_book@,
            start.diff_queue,
            start.status_queue,
        );
        let mut retry = false;
        loop
            invariant_except_break
                !retry,
                caught_up == drained(new_order_book@, self@.diff_queue, self@.status_queue),
            invariant
                start == old(self)@,
                self@ == (ListenerView {
                    diff_queue: self@.diff_queue,
                    status_queue: self@.status_queue,
                    ..start
                }),
            ensures
                caught_up.failed == retry,
                caught_up.state == new_order_book@,
                caught_up.diffs == self@.diff_queue,
                caught_up.statuses == self@.status_queue,
            decreases self@.diff_queue.batches.len() + self@.status_queue.batches.len(),
        {
            proof {
                lemma_pairing_shrinks(self@.diff_queue, self@.status_queue);
            }
            let pair = match self.pop_cache() {
                Some(pair) => pair,
                None => {
                    break;
                },
            };
            let (statuses, diffs) = pair.into_parts();
            if new_order_book.apply_updates(statuses, diffs).is_err() {
                // Older updates are missing: wait for the next snapshot.
                retry = true;
                break;
            }
        }
        if retry {
            let mut reports = new_order_book.take_skipped();
            self.skipped.append(&mut reports);
            let mut gaps = new_order_book.take_gaps();
            self.gaps.append(&mut gaps);
            assert(self@.gaps =~= start.gaps + caught_up.state.gaps);
            assert(self@.skipped =~= start.skipped + caught_up.state.skipped);
        } else {
            self.shelve_state();
            self.order_book_state = Some(new_order_book);
            let now_ms: u64 = match wall_clock_ms {
                Some(ms) => #[verifier::truncate] (ms as u64),
                None => 0,
            };
            self.last_block_time_ms = Some(now_ms);
            self.ready_at = Some(now);
        }
        assert(self@ =~= start.initialized(snapshot@, height, wall_clock_ms, now));
    }

    /// Takes a snapshot, where there is a state.
    pub fn compute_snapshot(&self) -> (timed: Option<TimedSnapshots>)
        ensures
            timed is Some <==> self@.state is Some,
            timed matches Some(timed) ==> {
                &&& timed.time == self@.state->0.time
                &&& timed.height == self@.state->0.height
                &&& snapshot_books(timed.snapshot@) == self@.state->0.books
            },
    {
        match &self.order_book_state {
            Some(state) => Some(state.compute_snapshot()),
            None => None,
        }
    }

    /// The time and the views of the state's block, unless they have been handed out for good.
    pub fn l2_snapshots(&mut self, prevent_future_snaps: bool) -> (views: Option<
        (u64, L2Snapshots),
    >)
        ensures
            views is Some <==> old(self)@.state is Some && !old(self)@.state->0.snapped,
            views matches Some((time, views)) ==> time == old(self)@.state->0.time && views@
                == all_views(old(self)@.state->0.books),
            final(self)@ == old(self)@.looked_at(prevent_future_snaps),
    {
        if let Some(state) = &mut self.order_book_state {
            state.l2_snapshots(prevent_future_snaps)
        } else {
            None
        }
    }

    /// Leaves the views of the state's block for the subscribers, once per block.
    fn publish_l2(&mut self)
        ensures
            final(self)@ == old(self)@.published(),
    {
        let ghost start = self@;
        if let Some((time, l2_snapshots)) = self.l2_snapshots(true) {
            self.send(InternalMessage::Snapshot { l2_snapshots, time });
        }
        assert(self@ =~= start.published());
    }
}

/// What came of a piece of data.
#[derive(Clone, Copy, Debug, PartialEq, Eq, Structural)]
pub enum DataOutcome {
    /// All lines were taken in.
    Finished,
    /// A line cannot be read: the node is still writing it. So many bytes, from the start of
    /// the line on, are to be read again.
    Torn { rewind: usize },
    /// The listener was reset, and the rest of the lines is of no use.
    Resynced,
}

/// What to do after some lines of a file that is no longer written.
#[derive(Clone, Copy, Debug, PartialEq, Eq, Structural)]
pub enum StreamStep {
    Continue,
    /// The listener was reset, and the rest of the lines is of no use.
    Stop,
}

/// What to do with a file of which an event tells.
#[derive(Clone, Copy, Debug, PartialEq, Eq, Structural)]
pub enum FileAction {
    /// Read the rest of the previous file, then this one from its start.
    SwitchTo,
    /// Read what was added to the file that is being read.
    ReadMore,
    /// Read this one from its end. What was just added is missed.
    TrackFromEnd,
}

/// What to do with a file that was created or modified, while one of its stream is being read or
/// none is.
pub open spec fn file_action(created: bool, reading: bool) -> FileAction {
    if created {
        FileAction::SwitchTo
    } else if reading {
        FileAction::ReadMore
    } else {
        FileAction::TrackFromEnd
    }
}

/// A line that is an event, or none.
pub open spec fn event_view(line: Option<EventBatch>) -> Option<EventView> {
    match line {
        Some(batch) => Some(batch@),
        None => None,
    }
}

/// The lines of a piece of data, each an event or none.
pub open spec fn event_views(lines: Seq<Option<EventBatch>>) -> Seq<Option<EventView>> {
    lines.map_values(|line: Option<EventBatch>| event_view(line))
}

/// A line that is an event, or cannot be read.
pub open spec fn line_view(line: Result<EventBatch, String>) -> Option<EventView> {
    match line {
        Ok(batch) => Some(batch@),
        Err(_) => None,
    }
}

/// Lines that are events, or cannot be read.
pub open spec fn line_views(lines: Seq<Result<EventBatch, String>>) -> Seq<Option<EventView>> {
    lines.map_values(|line: Result<EventBatch, String>| line_view(line))
}

/// What came of a piece of data whose lines were worked through.
pub open spec fn data_outcome(end: LinesEnd, data: Seq<u8>) -> Result<DataOutcome, ListenerError> {
    match end {
        LinesEnd::Through => Ok(DataOutcome::Finished),
        LinesEnd::Torn(at) => Ok(
            DataOutcome::Torn { rewind: (data.len() - lines_of(data)[at].0) as usize },
        ),
        LinesEnd::Reset => Ok(DataOutcome::Resynced),
        LinesEnd::Failed(error) => Err(error),
    }
}

/// The listener after a piece of data: unless the state was given up, the views of its block go
/// to the subscribers.
pub open spec fn data_left<F>(run: LinesRun<F>) -> ListenerView<F> {
    match run.end {
        LinesEnd::Through => run.listener.published(),
        LinesEnd::Torn(_) => run.listener.published(),
        LinesEnd::Reset => run.listener,
        LinesEnd::Failed(_) => run.listener,
    }
}

/// What to do after lines of a closed file that were worked through.
pub open spec fn stream_step(
    end: LinesEnd,
    lines: Seq<Result<EventBatch, String>>,
    source: EventSource,
) -> Result<StreamStep, ListenerError> {
    match end {
        LinesEnd::Through => Ok(StreamStep::Continue),
        LinesEnd::Reset => Ok(StreamStep::Stop),
        LinesEnd::Failed(error) => Err(error),
        LinesEnd::Torn(at) => Err(
            ListenerError::StreamParse { source, reason: lines[at]->Err_0 },
        ),
    }
}

impl<F> OrderBookListener<F> {
    /// Gives up the state after an error, and says whether the listener starts anew: it then
    /// holds nothing that waits, so that the queues do not fill before the next snapshot.
    fn give_up(&mut self, error: &ListenerError) -> (resync: bool)
        ensures
            resync == asks_resync(*error),
            final(self)@ == old(self)@.given_up(*error),
    {
        let resync = error.is_gap_grace_resync();
        self.shelve_state();
        if resync {
            self.last_block_time_ms = None;
            self.ready_at = None;
            self.order_status_cache.clear();
            self.order_diff_cache.clear();
        }
        assert(self@ =~= old(self)@.given_up(*error));
        resync
    }

    /// Notes that a line of a stream could be read.
    fn note_line_read(&mut self, event_source: EventSource, event_batch: &EventBatch)
        ensures
            final(self)@ == old(self)@.line_read(event_source, event_batch@),
    {
        let ghost start = self@;
        self.parse_fail_tracker_mut(event_source).clear();
        let state_height = self.height();
        if let Some(path) = self.take_pending_first_batch_log(event_source) {
            let block = event_batch.block_number();
            self.first_batches.push(FirstBatch { event_source, path, block, state_height });
        }
        assert(self@ =~= start.line_read(event_source, event_batch@));
    }

    /// Takes in the lines of a piece of a stream.
    ///
    /// `lines` tells of each line that is not empty what event it is, up to the first that
    /// cannot be read. That one is most often still being written, and is to be read again.
    pub fn process_data(
        &mut self,
        data: &[u8],
        lines: Vec<Option<EventBatch>>,
        event_source: EventSource,
    ) -> (processed: Result<DataOutcome, ListenerError>)
        requires
            lines@.len() == lines_of(data@).len() || (0 < lines@.len() < lines_of(
                data@,
            ).len() && lines@.last() is None),
        ensures
            ({
                let run = lines_run(old(self)@, event_views(lines@), event_source);
                &&& processed == data_outcome(run.end, data@)
                &&& final(self)@ == data_left(run)
            }),
    {
        let total_len: usize = data.len();
        let spans = split_lines(data);
        let count: usize = spans.len();
        let ghost bytes = data@;
        let ghost start = self@;
        let ghost all = event_views(lines@);
        let ghost take = |listener: ListenerView<F>, event: EventView|
            event_taken(listener.line_read(event_source, event), event);
        proof {
            lemma_lines_from(bytes, 0);
            assert(all.take(0) =~= Seq::empty());
        }
        let mut at: usize = 0;
        for line in it: lines
            invariant
                start == old(self)@,
                bytes == data@,
                total_len == bytes.len(),
                all == event_views(it.seq()),
                all == event_views(lines@),
                at == it.index(),
                all.len() <= count,
                spans@.len() == count,
                spans@.map_values(|span: LineSpan| span_of(span)) == lines_of(bytes),
                forall|i: int|
                    0 <= i < lines_of(bytes).len() ==> 0 <= (#[trigger] lines_of(bytes)[i]).0
                        <= bytes.len(),
                take == (|listener: ListenerView<F>, event: EventView|
                    event_taken(listener.line_read(event_source, event), event)),
                run_lines(start, all.take(at as int), take).end == LinesEnd::Through,
                self@ == run_lines(start, all.take(at as int), take).listener,
        {
            proof {
                assert(all.take(at + 1).drop_last() =~= all.take(at as int));
                assert(all.take(at + 1).last() == event_view(line));
                lemma_end_stays(start, all, at + 1, take);
            }
            let event_batch = match line {
                Some(event_batch) => event_batch,
                None => {
                    assert(span_of(spans@[at as int]) == spans@.map_values(
                        |span: LineSpan| span_of(span),
                    )[at as int]);
                    let rewind: usize = total_len - spans[at].start;
                    self.publish_l2();
                    return Ok(DataOutcome::Torn { rewind });
                },
            };
            // A line was read, so nothing is stuck any more: the next failure is a new one.
            self.note_line_read(event_source, &event_batch);
            match self.receive_batch(event_batch) {
                Ok(()) => {},
                Err(error) => {
                    if self.give_up(&error) {
                        return Ok(DataOutcome::Resynced);
                    }
                    return Err(error);
                },
            }
            assert(at < all.len());
            at = at + 1;
        }
        assert(all.take(all.len() as int) =~= all);
        self.publish_l2();
        Ok(DataOutcome::Finished)
    }

    /// Takes in lines of a file that is no longer written, each the event that it is, or why it
    /// cannot be read.
    ///
    /// Such a file has no line that is still being written, so a line that cannot be read is
    /// an error. Going on would lead to a wrong state, and to an error much later.
    pub fn stream_lines(
        &mut self,
        lines: Vec<Result<EventBatch, String>>,
        event_source: EventSource,
    ) -> (step: Result<StreamStep, ListenerError>)
        ensures
            ({
                let run = stream_run(old(self)@, line_views(lines@));
                &&& final(self)@ == run.listener
                &&& step == stream_step(run.end, lines@, event_source)
            }),
    {
        let ghost start = self@;
        let ghost all = line_views(lines@);
        let ghost take = |listener: ListenerView<F>, event: EventView|
            event_taken(listener, event);
        assert(all.take(0) =~= Seq::empty());
        for line in it: lines
            invariant
                start == old(self)@,
                it.seq() == lines@,
                all == line_views(lines@),
                take == (|listener: ListenerView<F>, event: EventView|
                    event_taken(listener, event)),
                run_lines(start, all.take(it.index() as int), take).end == LinesEnd::Through,
                self@ == run_lines(start, all.take(it.index() as int), take).listener,
        {
            let ghost at = it.index() as int;
            proof {
                assert(all.take(at + 1).drop_last() =~= all.take(at));
                assert(all.take(at + 1).last() == line_view(line));
                lemma_end_stays(start, all, at + 1, take);
            }
            let event_batch = match line {
                Ok(event_batch) => event_batch,
                Err(reason) => {
                    return Err(ListenerError::StreamParse { source: event_source, reason });
                },
            };
            match self.receive_batch(event_batch) {
                Ok(()) => {},
                Err(error) => {
                    if self.give_up(&error) {
                        return Ok(StreamStep::Stop);
                    }
                    return Err(error);
                },
            }
        }
        assert(all.take(all.len() as int) =~= all);
        Ok(StreamStep::Continue)
    }

    /// Ends the work on a file that is no longer written: the views of the state's block go to
    /// the subscribers.
    pub fn finish_stream(&mut self)
        ensures
            final(self)@ == old(self)@.published(),
    {
        self.publish_l2();
    }

    /// Notes that a stream cannot be read at a place of its file, and says how that is to be
    /// reported.
    pub fn record_parse_failure(
        &mut self,
        event_source: EventSource,
        offset: Option<u64>,
        now: u64,
    ) -> (report: ParseFailureReport)
        ensures
            ({
                let counted = old(self)@.source(event_source).parse_fail.counted(offset, now);
                &&& report == counted.report(now)
                &&& final(self)@ == old(self)@.stuck_at(event_source, offset, now)
            }),
    {
        self.parse_fail_tracker_mut(event_source).record(offset, now)
    }

    /// What to do with a file that was created or modified. Where no file of the stream is
    /// being read, a modified one is taken for a new one, but read from its end.
    pub fn process_update(&self, created: bool, event_source: EventSource) -> (action: FileAction)
        ensures
            action == file_action(created, self@.source(event_source).file is Some),
    {
        if created {
            FileAction::SwitchTo
        } else if self.is_reading(event_source) {
            FileAction::ReadMore
        } else {
            FileAction::TrackFromEnd
        }
    }

    /// Takes the previous file of a stream, whose rest is to be read before a new file.
    pub fn begin_file_creation(&mut self, event_source: EventSource) -> (previous: Option<F>)
        ensures
            previous == old(self)@.source(event_source).file,
            final(self)@ == old(self)@.without_file(event_source),
    {
        self.file_mut(event_source).take()
    }

    /// Turns to a new file of a stream.
    pub fn finish_file_creation(&mut self, event_source: EventSource, file: F, path: String)
        ensures
            final(self)@ == old(self)@.with_file(event_source, file, path),
    {
        *self.file_mut(event_source) = Some(file);
        self.set_pending_first_batch_log(event_source, path);
    }

    /// How far, in milliseconds, the latest block time lies behind the wall clock. None if no
    /// batch came in yet, or if the block time lies in the future.
    pub fn block_time_lag_ms(&self, wall_clock_ms: Option<u128>) -> (lag: Option<i64>)
        ensures
            lag == block_lag(self@.last_block_time, wall_clock_ms),
    {
        match (self.last_block_time_ms, wall_clock_ms) {
            (Some(last), Some(now)) => {
                if now <= i64::MAX as u128 && last as u128 <= now {
                    Some((now - last as u128) as i64)
                } else {
                    None
                }
            },
            _ => None,
        }
    }

    /// Whether the listener became ready a short while ago and is still catching up.
    pub fn in_init_grace_period(&self, now: u64) -> (in_grace: bool)
        ensures
            in_grace == self@.in_grace(now),
    {
        match self.ready_at {
            Some(at) => now.saturating_sub(at) < LAG_GRACE_AFTER_INIT_NANOS,
            None => false,
        }
    }

    /// Whether a stream has been stuck at one place for long. The listener is then not too
    /// slow, but waits for the node to finish a line; once it does, the lag is gone.
    pub fn has_active_parse_stall(&self, now: u64) -> (stalled: bool)
        ensures
            stalled == self@.is_stalled(now),
    {
        self.fills.parse_fail.is_active_stall(now)
            || self.order_statuses.parse_fail.is_active_stall(now)
            || self.order_diffs.parse_fail.is_active_stall(now)
    }
}

impl<F> OrderBookListener<F> {
    /// Does what a fetched snapshot asks for: starts from it, or grafts in the books that the
    /// state lacks. Nothing else changes the listener.
    pub fn settle_snapshot(
        &mut self,
        verdict: SnapshotVerdict,
        height: u64,
        wall_clock_ms: Option<u128>,
        now: u64,
    )
        ensures
            final(self)@ == old(self)@.settled(verdict, height, wall_clock_ms, now),
    {
        match verdict {
            SnapshotVerdict::Initialize { snapshot } => {
                self.init_from_snapshot(snapshot, height, wall_clock_ms, now);
            },
            SnapshotVerdict::ExtraBooks { extras } => {
                if let Some(state) = &mut self.order_book_state {
                    state.absorb_extra_books(extras, true);
                }
            },
            SnapshotVerdict::CatchUpFailed { .. } => {},
            SnapshotVerdict::NotEnoughUpdates { .. } => {},
            SnapshotVerdict::SnapshotLagging { .. } => {},
            SnapshotVerdict::Consistent => {},
            SnapshotVerdict::Mismatch { .. } => {},
        }
    }
}

} // verus!
