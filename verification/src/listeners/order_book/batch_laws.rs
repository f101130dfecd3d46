//! What becomes of each batch that comes in.

use crate::listeners::order_book::batch_queue::QueueView;
use crate::listeners::order_book::error::{asks_resync, ListenerError};
use crate::listeners::order_book::model::{
    drained, lines_run, pairing, stream_run, EventView, LinesEnd, ListenerView, MessageView,
    PairView,
};
use crate::listeners::order_book::state::{apply_result, started, state_after, StateView};
use crate::order_book::book::{snapshot_book, Snapshot};
use crate::types::inner::InnerL4Order;
use crate::types::node_data::{
    BatchView, EventSource, NodeDataFill, NodeDataOrderDiff, NodeDataOrderStatus,
};
use vstd::prelude::*;

verus! {

/// A batch joins the end of its queue, unless one of its block or of a later one has come in
/// before, or 60000 batches wait already. The first is no error, and the second is. Either way
/// the queue then stays as it is.
pub proof fn lemma_batch_joins_the_queue<T>(queue: QueueView<T>, batch: BatchView<T>)
    ensures
        ({
            let stale = queue.last is Some && queue.last->0 >= batch.number;
            let full = queue.batches.len() >= 60_000;
            &&& stale ==> queue.push_result(batch) == Ok::<bool, ListenerError>(false)
            &&& !stale && full ==> queue.push_result(batch) == Err::<bool, ListenerError>(
                ListenerError::QueueOverflow { len: queue.batches.len() as usize },
            )
            &&& !stale && !full ==> queue.push_result(batch) == Ok::<bool, ListenerError>(true)
            &&& stale || full ==> queue.pushed(batch) == queue
            &&& !stale && !full ==> {
                &&& queue.pushed(batch).last == Some(batch.number)
                &&& queue.pushed(batch).batches.len() == queue.batches.len() + 1
                &&& queue.pushed(batch).batches.last() == batch
                &&& forall|i: int|
                    0 <= i < queue.batches.len() ==> #[trigger] queue.pushed(batch).batches[i]
                        == queue.batches[i]
            }
        }),
{
}

/// The first batch leaves a queue first, and what came in last is still known.
pub proof fn lemma_first_batch_leaves_first<T>(queue: QueueView<T>)
    ensures
        queue.popped().last == queue.last,
        queue.batches.len() == 0 ==> queue.popped() == queue,
        queue.batches.len() > 0 ==> {
            &&& queue.popped().batches.len() == queue.batches.len() - 1
            &&& forall|i: int|
                0 < i < queue.batches.len() ==> queue.popped().batches[i - 1]
                    == #[trigger] queue.batches[i]
        },
{
}

/// A queue without its first `n` batches.
pub open spec fn without_first<T>(queue: QueueView<T>, n: int) -> QueueView<T> {
    QueueView { batches: queue.batches.skip(n), last: queue.last }
}

/// A queue has a batch of a later block.
pub open spec fn has_later<T>(queue: QueueView<T>, number: u64) -> bool {
    exists|i: int| 0 <= i < queue.batches.len() && number < (#[trigger] queue.batches[i]).number
}

/// The first `n` batches of a queue are each older than some batch of another.
pub open spec fn are_outrun<T, U>(queue: QueueView<T>, n: int, other: QueueView<U>) -> bool {
    forall|i: int| 0 <= i < n ==> has_later(other, (#[trigger] queue.batches[i]).number)
}

/// What the search for a common block takes out of the queues: from each the batches up to the
/// one that is found, or, where none is, those that a batch of the other queue has outrun,
/// until one queue is empty. All others stay, and the batches that are found are whole.
pub open spec fn takes_out(
    diffs: QueueView<NodeDataOrderDiff>,
    statuses: QueueView<NodeDataOrderStatus>,
    n: int,
    m: int,
) -> bool {
    let found = pairing(diffs, statuses);
    &&& 0 <= n <= diffs.batches.len()
    &&& 0 <= m <= statuses.batches.len()
    &&& are_outrun(diffs, n, statuses)
    &&& are_outrun(statuses, m, diffs)
    &&& match found.pair {
        Some(pair) => {
            &&& n < diffs.batches.len()
            &&& m < statuses.batches.len()
            &&& pair.diffs == diffs.batches[n]
            &&& pair.statuses == statuses.batches[m]
            &&& pair.diffs.number == pair.statuses.number
            &&& found.diffs == without_first(diffs, n + 1)
            &&& found.statuses == without_first(statuses, m + 1)
        },
        None => {
            &&& n == diffs.batches.len() || m == statuses.batches.len()
            &&& found.diffs == without_first(diffs, n)
            &&& found.statuses == without_first(statuses, m)
        },
    }
}

proof fn lemma_outrun_more<T, U>(queue: QueueView<T>, n: int, other: QueueView<U>)
    requires
        0 <= n,
        queue.batches.len() > 0,
        n <= queue.batches.len() - 1,
        are_outrun(queue.popped(), n, other),
        other.batches.len() > 0,
        queue.batches[0].number < other.batches[0].number,
    ensures
        are_outrun(queue, n + 1, other),
{
    let rest = queue.popped();
    assert forall|i: int| 0 <= i < n + 1 implies has_later(
        other,
        (#[trigger] queue.batches[i]).number,
    ) by {
        if i == 0 {
            assert(queue.batches[0].number < other.batches[0].number);
        } else {
            assert(rest.batches[i - 1] == queue.batches[i]);
        }
    }
}

proof fn lemma_outrun_by_rest<T, U>(queue: QueueView<T>, n: int, other: QueueView<U>)
    requires
        0 <= n <= queue.batches.len(),
        other.batches.len() > 0,
        are_outrun(queue, n, other.popped()),
    ensures
        are_outrun(queue, n, other),
{
    let rest = other.popped();
    assert forall|i: int| 0 <= i < n implies has_later(
        other,
        (#[trigger] queue.batches[i]).number,
    ) by {
        let number = queue.batches[i].number;
        let j = choose|j: int|
            0 <= j < rest.batches.len() && number < (#[trigger] rest.batches[j]).number;
        assert(other.batches[j + 1] == rest.batches[j]);
    }
}

/// The search for a common block takes nothing else out of the queues than the batches of that
/// block and those that a batch of the other queue has outrun.
pub proof fn lemma_search_takes_out_what_is_outrun(
    diffs: QueueView<NodeDataOrderDiff>,
    statuses: QueueView<NodeDataOrderStatus>,
) -> (taken: (int, int))
    ensures
        takes_out(diffs, statuses, taken.0, taken.1),
    decreases diffs.batches.len() + statuses.batches.len(),
{
    if diffs.batches.len() == 0 || statuses.batches.len() == 0 {
        assert(without_first(diffs, 0) =~= diffs);
        assert(without_first(statuses, 0) =~= statuses);
        (0, 0)
    } else if diffs.batches[0].number < statuses.batches[0].number {
        let rest = diffs.popped();
        let taken = lemma_search_takes_out_what_is_outrun(rest, statuses);
        lemma_outrun_more(diffs, taken.0, statuses);
        lemma_outrun_by_rest(statuses, taken.1, diffs);
        assert(without_first(rest, taken.0) =~= without_first(diffs, taken.0 + 1));
        if taken.0 < rest.batches.len() {
            assert(without_first(rest, taken.0 + 1) =~= without_first(diffs, taken.0 + 2));
        }
        (taken.0 + 1, taken.1)
    } else if diffs.batches[0].number > statuses.batches[0].number {
        let rest = statuses.popped();
        let taken = lemma_search_takes_out_what_is_outrun(diffs, rest);
        lemma_outrun_more(statuses, taken.1, diffs);
        lemma_outrun_by_rest(diffs, taken.0, statuses);
        assert(without_first(rest, taken.1) =~= without_first(statuses, taken.1 + 1));
        if taken.1 < rest.batches.len() {
            assert(without_first(rest, taken.1 + 1) =~= without_first(statuses, taken.1 + 2));
        }
        (taken.0, taken.1 + 1)
    } else {
        assert(without_first(diffs, 1) =~= diffs.popped());
        assert(without_first(statuses, 1) =~= statuses.popped());
        (0, 0)
    }
}

/// How a listener moves on once a batch is in its queue. Without a state it does not. Otherwise
/// the next block that both queues have is worked into the state; one that is worked in is
/// collected where blocks are, and told of where anyone listens. One that is not is neither.
pub open spec fn moves_on<F>(
    listener: ListenerView<F>,
    after: ListenerView<F>,
    result: Result<(), ListenerError>,
) -> bool {
    let found = pairing(listener.diff_queue, listener.status_queue);
    let searched = ListenerView {
        diff_queue: found.diffs,
        status_queue: found.statuses,
        ..listener
    };
    if listener.state is None {
        after == listener && result is Ok
    } else if found.pair is None {
        after == searched && result is Ok
    } else {
        let state = listener.state->0;
        let statuses = found.pair->0.statuses;
        let diffs = found.pair->0.diffs;
        &&& result == apply_result(state, statuses, diffs)
        &&& after == (ListenerView {
            state: after.state,
            cache: after.cache,
            outbox: after.outbox,
            ..searched
        })
        &&& after.state == Some(state_after(state, statuses, diffs))
        &&& result is Err ==> after.cache == listener.cache && after.outbox == listener.outbox
        &&& result is Ok ==> {
            &&& listener.cache is None ==> after.cache is None
            &&& listener.cache is Some ==> after.cache == Some(
                listener.cache->0.push(PairView { statuses, diffs }),
            )
            &&& listener.outbox is None ==> after.outbox is None
            &&& listener.outbox is Some ==> after.outbox == Some(
                listener.outbox->0.push(
                    MessageView::L4BookUpdates { diff_batch: diffs, status_batch: statuses },
                ),
            )
        }
    }
}

/// The later of the latest block time so far and that of a batch.
pub open spec fn later_time(so_far: Option<u64>, time: u64) -> Option<u64> {
    if so_far is Some && so_far->0 >= time {
        so_far
    } else {
        Some(time)
    }
}

/// A batch of statuses goes into the queue of statuses, and the listener moves on. Where the queue
/// has no room, the batch is refused, and nothing changes but the latest block time.
pub proof fn lemma_statuses_are_received<F>(
    listener: ListenerView<F>,
    batch: BatchView<NodeDataOrderStatus>,
)
    ensures
        ({
            let event = EventView::Orders(batch);
            let timed = ListenerView {
                last_block_time: later_time(listener.last_block_time, batch.time),
                ..listener
            };
            match listener.status_queue.push_result(batch) {
                Err(error) => {
                    &&& listener.receive_result(event) == Err::<(), ListenerError>(error)
                    &&& listener.received(event) == timed
                },
                Ok(_) => moves_on(
                    ListenerView { status_queue: listener.status_queue.pushed(batch), ..timed },
                    listener.received(event),
                    listener.receive_result(event),
                ),
            }
        }),
{
}

/// A batch of diffs goes into the queue of diffs, and the listener moves on. Where the queue has
/// no room, the batch is refused, and nothing changes but the latest block time.
pub proof fn lemma_diffs_are_received<F>(
    listener: ListenerView<F>,
    batch: BatchView<NodeDataOrderDiff>,
)
    ensures
        ({
            let event = EventView::BookDiffs(batch);
            let timed = ListenerView {
                last_block_time: later_time(listener.last_block_time, batch.time),
                ..listener
            };
            match listener.diff_queue.push_result(batch) {
                Err(error) => {
                    &&& listener.receive_result(event) == Err::<(), ListenerError>(error)
                    &&& listener.received(event) == timed
                },
                Ok(_) => moves_on(
                    ListenerView { diff_queue: listener.diff_queue.pushed(batch), ..timed },
                    listener.received(event),
                    listener.receive_result(event),
                ),
            }
        }),
{
}

/// A batch of fills is passed on at once where anyone listens and its block is later than that of
/// all fills so far, and is dropped otherwise. The listener then moves on.
pub proof fn lemma_fills_are_received<F>(
    listener: ListenerView<F>,
    batch: BatchView<NodeDataFill>,
)
    ensures
        ({
            let event = EventView::Fills(batch);
            let timed = ListenerView {
                last_block_time: later_time(listener.last_block_time, batch.time),
                ..listener
            };
            let taken = if listener.last_fill is Some && listener.last_fill->0 >= batch.number {
                timed
            } else if listener.outbox is None {
                ListenerView { last_fill: Some(batch.number), ..timed }
            } else {
                ListenerView {
                    last_fill: Some(batch.number),
                    outbox: Some(listener.outbox->0.push(MessageView::Fills { batch })),
                    ..timed
                }
            };
            moves_on(taken, listener.received(event), listener.receive_result(event))
        }),
{
}

/// It makes no difference which of a block's two batches comes first, where nothing else waits.
pub proof fn lemma_streams_come_in_either_order<F>(
    listener: ListenerView<F>,
    statuses: BatchView<NodeDataOrderStatus>,
    diffs: BatchView<NodeDataOrderDiff>,
)
    requires
        statuses.number == diffs.number,
        listener.status_queue.batches.len() == 0,
        listener.diff_queue.batches.len() == 0,
    ensures
        ({
            let (orders, changes) = (EventView::Orders(statuses), EventView::BookDiffs(diffs));
            let one_way = listener.received(orders);
            let other_way = listener.received(changes);
            &&& listener.receive_result(orders) is Ok
            &&& listener.receive_result(changes) is Ok
            &&& one_way.received(changes) == other_way.received(orders)
            &&& one_way.receive_result(changes) == other_way.receive_result(orders)
        }),
{
    let (orders, changes) = (EventView::Orders(statuses), EventView::BookDiffs(diffs));
    let one_way = listener.received(orders);
    let other_way = listener.received(changes);
    assert(one_way.status_queue == listener.status_queue.pushed(statuses));
    assert(one_way.diff_queue == listener.diff_queue);
    assert(other_way.diff_queue == listener.diff_queue.pushed(diffs));
    assert(other_way.status_queue == listener.status_queue);
    assert(one_way.queued(changes) =~= other_way.queued(orders));
}

/// The listener after an error that its state does not survive: it has no state, and what the
/// state had to report is kept. Where the error asks for a fresh start, nothing waits in either
/// queue any more, no block time is known, and the listener does not count as ready. Nothing else
/// of it changes.
pub proof fn lemma_state_is_given_up<F>(listener: ListenerView<F>, error: ListenerError)
    ensures
        ({
            let after = listener.given_up(error);
            &&& after.state is None
            &&& listener.state is None ==> after.skipped == listener.skipped && after.gaps
                == listener.gaps
            &&& listener.state matches Some(state) ==> after.skipped == listener.skipped
                + state.skipped && after.gaps == listener.gaps + state.gaps
            &&& asks_resync(error) ==> {
                &&& after.diff_queue.batches.len() == 0
                &&& after.diff_queue.last is None
                &&& after.status_queue.batches.len() == 0
                &&& after.status_queue.last is None
                &&& after.last_block_time is None
                &&& after.ready_at is None
            }
            &&& !asks_resync(error) ==> {
                &&& after.diff_queue == listener.diff_queue
                &&& after.status_queue == listener.status_queue
                &&& after.last_block_time == listener.last_block_time
                &&& after.ready_at == listener.ready_at
            }
            &&& after == (ListenerView {
                state: after.state,
                skipped: after.skipped,
                gaps: after.gaps,
                diff_queue: after.diff_queue,
                status_queue: after.status_queue,
                last_block_time: after.last_block_time,
                ready_at: after.ready_at,
                ..listener
            })
        }),
{
    let after = listener.given_up(error);
    if listener.state is None {
        assert(after.skipped =~= listener.skipped);
        assert(after.gaps =~= listener.gaps);
    }
}

/// A line that was read ends the failures of its stream, and of no other. Where it is the first
/// of a new file, that is noted, with its block and the height of the state when it came. Nothing
/// else changes.
pub proof fn lemma_line_is_noted<F>(
    listener: ListenerView<F>,
    source: EventSource,
    event: EventView,
)
    ensures
        ({
            let after = listener.line_read(source, event);
            let mine = after.source(source);
            let awaited = listener.source(source).pending_first_batch_log;
            &&& mine.file == listener.source(source).file
            &&& mine.pending_first_batch_log is None
            &&& mine.parse_fail.fail_count == 0
            &&& mine.parse_fail.last_fail_offset is None
            &&& mine.parse_fail.first_fail_at is None
            &&& mine.parse_fail.last_warn_at is None
            &&& source != EventSource::Fills ==> after.fills == listener.fills
            &&& source != EventSource::OrderStatuses ==> after.order_statuses
                == listener.order_statuses
            &&& source != EventSource::OrderDiffs ==> after.order_diffs == listener.order_diffs
            &&& awaited is None ==> after.first_batches == listener.first_batches
            &&& awaited is Some ==> {
                let noted = after.first_batches.last();
                &&& after.first_batches.len() == listener.first_batches.len() + 1
                &&& after.first_batches.drop_last() == listener.first_batches
                &&& noted.event_source == source
                &&& noted.path == awaited->0
                &&& noted.block == match event {
                    EventView::Orders(batch) => batch.number,
                    EventView::BookDiffs(batch) => batch.number,
                    EventView::Fills(batch) => batch.number,
                }
                &&& noted.state_height is Some <==> listener.state is Some
                &&& listener.state matches Some(state) ==> noted.state_height
                    == Some(state.height)
            }
            &&& after == (ListenerView {
                fills: after.fills,
                order_statuses: after.order_statuses,
                order_diffs: after.order_diffs,
                first_batches: after.first_batches,
                ..listener
            })
        }),
{
    let after = listener.line_read(source, event);
    if listener.source(source).pending_first_batch_log is Some {
        assert(after.first_batches.drop_last() =~= listener.first_batches);
    }
}

/// One line of a stream: one that cannot be read changes nothing and is where the work ends. One
/// that can be read is noted, and its batch received. Where the batch cannot be taken in, the
/// state is given up and the work ends there too, with the error unless that asks for a fresh
/// start.
pub proof fn lemma_one_line<F>(
    listener: ListenerView<F>,
    source: EventSource,
    event: EventView,
)
    ensures
        ({
            let nothing = lines_run(listener, Seq::empty(), source);
            let torn = lines_run(listener, seq![None], source);
            let run = lines_run(listener, seq![Some(event)], source);
            let read = listener.line_read(source, event);
            &&& nothing.listener == listener && nothing.end == LinesEnd::Through
            &&& torn.listener == listener && torn.end == LinesEnd::Torn(0)
            &&& match read.receive_result(event) {
                Ok(()) => run.end == LinesEnd::Through && run.listener == read.received(event),
                Err(error) => {
                    &&& run.end == if asks_resync(error) {
                        LinesEnd::Reset
                    } else {
                        LinesEnd::Failed(error)
                    }
                    &&& run.listener == read.received(event).given_up(error)
                },
            }
        }),
{
    assert(seq![None::<EventView>].drop_last() =~= Seq::empty());
    assert(seq![Some(event)].drop_last() =~= Seq::empty());
}

/// One line of a closed file: the same, but that nothing is noted of it.
pub proof fn lemma_one_closed_line<F>(listener: ListenerView<F>, event: EventView)
    ensures
        ({
            let nothing = stream_run(listener, Seq::empty());
            let torn = stream_run(listener, seq![None]);
            let run = stream_run(listener, seq![Some(event)]);
            &&& nothing.listener == listener && nothing.end == LinesEnd::Through
            &&& torn.listener == listener && torn.end == LinesEnd::Torn(0)
            &&& match listener.receive_result(event) {
                Ok(()) => run.end == LinesEnd::Through && run.listener == listener.received(event),
                Err(error) => {
                    &&& run.end == if asks_resync(error) {
                        LinesEnd::Reset
                    } else {
                        LinesEnd::Failed(error)
                    }
                    &&& run.listener == listener.received(event).given_up(error)
                },
            }
        }),
{
    assert(seq![None::<EventView>].drop_last() =~= Seq::empty());
    assert(seq![Some(event)].drop_last() =~= Seq::empty());
}

/// A state that starts from a snapshot stands at the snapshot's block, has the snapshot's books
/// and no others, and tolerates one gap. Its views have not been handed out, and it has nothing
/// to report.
pub proof fn lemma_state_starts_from_the_snapshot(
    snapshot: Map<Seq<char>, Snapshot<InnerL4Order>>,
    height: u64,
    time: u64,
    ignore_triggers: bool,
    ignore_spot: bool,
    coin: Seq<char>,
)
    ensures
        ({
            let state = started(snapshot, height, time, ignore_triggers, ignore_spot);
            &&& state.books.contains_key(coin) <==> snapshot.contains_key(coin)
            &&& snapshot.contains_key(coin) ==> state.books[coin] == snapshot_book(
                snapshot[coin],
            ).loaded(ignore_triggers)
            &&& state.height == height
            &&& state.time == time
            &&& state.ignore_spot == ignore_spot
            &&& state.allow_initial_gap
            &&& !state.snapped
            &&& !state.last_warn.contains_key(coin)
            &&& state.skipped.len() == 0
            &&& state.gaps.len() == 0
        }),
{
}

/// A listener that starts from a snapshot, with no block in both of its queues, has the state of
/// the snapshot without its trigger orders, counts as ready from now on, and takes the present
/// for the time of the latest block, or the epoch where the clock stands before that.
pub proof fn lemma_start_with_nothing_queued<F>(
    listener: ListenerView<F>,
    snapshot: Map<Seq<char>, Snapshot<InnerL4Order>>,
    height: u64,
    wall_clock_ms: Option<u128>,
    now: u64,
)
    requires
        pairing(listener.diff_queue, listener.status_queue).pair is None,
        listener.state is None,
    ensures
        ({
            let found = pairing(listener.diff_queue, listener.status_queue);
            let after = listener.initialized(snapshot, height, wall_clock_ms, now);
            after == (ListenerView {
                state: Some(started(snapshot, height, 0, true, listener.ignore_spot)),
                diff_queue: found.diffs,
                status_queue: found.statuses,
                last_block_time: match wall_clock_ms {
                    Some(ms) => Some(ms as u64),
                    None => Some(0),
                },
                ready_at: Some(now),
                ..listener
            })
        }),
{
    let after = listener.initialized(snapshot, height, wall_clock_ms, now);
    assert(after.skipped =~= listener.skipped);
    assert(after.gaps =~= listener.gaps);
}

/// The blocks that both queues have when a listener starts are worked into the snapshot's state
/// one after the other, as if they came in now: the first as a listener with that state moves on
/// by it, and then the rest. Where one cannot be worked in, the start fails.
pub proof fn lemma_queued_blocks_are_worked_in(
    state: StateView,
    diffs: QueueView<NodeDataOrderDiff>,
    statuses: QueueView<NodeDataOrderStatus>,
)
    ensures
        ({
            let found = pairing(diffs, statuses);
            let end = drained(state, diffs, statuses);
            match found.pair {
                None => {
                    &&& !end.failed
                    &&& end.state == state
                    &&& end.diffs == found.diffs
                    &&& end.statuses == found.statuses
                },
                Some(pair) => {
                    let next = state_after(state, pair.statuses, pair.diffs);
                    if apply_result(state, pair.statuses, pair.diffs) is Ok {
                        end == drained(next, found.diffs, found.statuses)
                    } else {
                        &&& end.failed
                        &&& end.state == next
                        &&& end.diffs == found.diffs
                        &&& end.statuses == found.statuses
                    }
                },
            }
        }),
{
}

/// A start that fails leaves the listener as it is, but that the blocks up to the one that could
/// not be worked in are gone from its queues, and that it has what there was to report. One that
/// succeeds changes nothing but the state, the queues and the clocks; what a state that it
/// replaces had to report is kept.
pub proof fn lemma_start_with_blocks_queued<F>(
    listener: ListenerView<F>,
    snapshot: Map<Seq<char>, Snapshot<InnerL4Order>>,
    height: u64,
    wall_clock_ms: Option<u128>,
    now: u64,
)
    ensures
        ({
            let end = drained(
                started(snapshot, height, 0, true, listener.ignore_spot),
                listener.diff_queue,
                listener.status_queue,
            );
            let after = listener.initialized(snapshot, height, wall_clock_ms, now);
            &&& after.diff_queue == end.diffs
            &&& after.status_queue == end.statuses
            &&& end.failed ==> after.state == listener.state
            &&& !end.failed ==> after.state == Some(end.state)
            &&& end.failed ==> {
                &&& after.last_block_time == listener.last_block_time
                &&& after.ready_at == listener.ready_at
                &&& after.skipped == listener.skipped + end.state.skipped
                &&& after.gaps == listener.gaps + end.state.gaps
            }
            &&& !end.failed ==> {
                &&& after.last_block_time == match wall_clock_ms {
                    Some(ms) => Some(ms as u64),
                    None => Some(0u64),
                }
                &&& after.ready_at == Some(now)
                &&& listener.state is None ==> after.skipped == listener.skipped && after.gaps
                    == listener.gaps
                &&& listener.state matches Some(state) ==> after.skipped == listener.skipped
                    + state.skipped && after.gaps == listener.gaps + state.gaps
            }
            &&& after == (ListenerView {
                state: after.state,
                diff_queue: after.diff_queue,
                status_queue: after.status_queue,
                last_block_time: after.last_block_time,
                ready_at: after.ready_at,
                skipped: after.skipped,
                gaps: after.gaps,
                ..listener
            })
        }),
{
    let after = listener.initialized(snapshot, height, wall_clock_ms, now);
    if listener.state is None && after.state is Some {
        assert(after.skipped =~= listener.skipped);
        assert(after.gaps =~= listener.gaps);
    }
}

} // verus!
