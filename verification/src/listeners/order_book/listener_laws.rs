//! What holds of the listener through all events.

use crate::listeners::order_book::batch_queue::{
    lemma_pop_well_formed, lemma_push_well_formed, QueueView,
};
use crate::listeners::order_book::model::{
    drained, is_new_fill, lemma_pairing_shrinks, lines_run, pairing, stream_run, EventView,
    LinesEnd, ListenerView, MessageView, PairView, LAG_GRACE_AFTER_INIT_NANOS,
};
use crate::listeners::order_book::source::{
    elapsed, ParseFailureReport, ParseFailureTracker, PARSE_FAIL_LOUD_RETRIES,
    PARSE_FAIL_WARN_INTERVAL_NANOS,
};
use crate::listeners::order_book::state::{started, state_after, StateView};
use crate::listeners::order_book::state_laws::{
    all_in_priority, lemma_block_in_priority, lemma_block_no_triggers,
    lemma_extra_books_in_priority, lemma_extra_books_no_triggers, lemma_started_in_priority,
    lemma_started_no_triggers, none_triggers,
};
use crate::listeners::order_book::supervisor::fatal_lag;
use crate::order_book::book::Snapshot;
use crate::types::inner::InnerL4Order;
use crate::types::node_data::{
    BatchView, EventSource, NodeDataFill, NodeDataOrderDiff, NodeDataOrderStatus,
};
use vstd::prelude::*;

verus! {

/// A batch of a block waits in a queue.
pub open spec fn has_block<T>(queue: QueueView<T>, number: u64) -> bool {
    exists|i: int| 0 <= i < queue.batches.len() && (#[trigger] queue.batches[i]).number == number
}

proof fn lemma_popped_blocks<T>(queue: QueueView<T>)
    requires
        queue.well_formed(),
        queue.batches.len() > 0,
    ensures
        forall|number: u64|
            has_block(queue, number) <==> number == queue.batches[0].number || has_block(
                queue.popped(),
                number,
            ),
        forall|number: u64| #[trigger]
            has_block(queue.popped(), number) ==> number > queue.batches[0].number,
{
    let rest = queue.popped();
    assert forall|number: u64|
        has_block(queue, number) <==> number == queue.batches[0].number || has_block(
            rest,
            number,
        ) by {
        if has_block(queue, number) && number != queue.batches[0].number {
            let i = choose|i: int|
                0 <= i < queue.batches.len() && (#[trigger] queue.batches[i]).number == number;
            assert(rest.batches[i - 1].number == number);
        }
        if has_block(rest, number) {
            let i = choose|i: int|
                0 <= i < rest.batches.len() && (#[trigger] rest.batches[i]).number == number;
            assert(queue.batches[i + 1].number == number);
        }
    }
    assert forall|number: u64| #[trigger] has_block(rest, number) implies number
        > queue.batches[0].number by {
        let i = choose|i: int|
            0 <= i < rest.batches.len() && (#[trigger] rest.batches[i]).number == number;
        assert(queue.batches[0].number < queue.batches[i + 1].number);
    }
}

/// The block that is found is the earliest that both queues have, and one is found wherever
/// there is one. The later blocks of both queues stay.
pub proof fn lemma_earliest_common_block(
    diffs: QueueView<NodeDataOrderDiff>,
    statuses: QueueView<NodeDataOrderStatus>,
)
    requires
        diffs.well_formed(),
        statuses.well_formed(),
    ensures
        ({
            let found = pairing(diffs, statuses);
            &&& found.diffs.well_formed()
            &&& found.statuses.well_formed()
            &&& match found.pair {
                Some(pair) => {
                    &&& pair.statuses.number == pair.diffs.number
                    &&& has_block(diffs, pair.diffs.number)
                    &&& has_block(statuses, pair.diffs.number)
                    &&& forall|number: u64| #[trigger]
                        has_block(diffs, number) && #[trigger] has_block(statuses, number)
                            ==> number >= pair.diffs.number
                    &&& forall|number: u64|
                        number > pair.diffs.number ==> (#[trigger] has_block(diffs, number)
                            == has_block(found.diffs, number))
                    &&& forall|number: u64|
                        number > pair.diffs.number ==> (#[trigger] has_block(statuses, number)
                            == has_block(found.statuses, number))
                },
                None => forall|number: u64|
                    !(#[trigger] has_block(diffs, number) && #[trigger] has_block(
                        statuses,
                        number,
                    )),
            }
        }),
    decreases diffs.batches.len() + statuses.batches.len(),
{
    if diffs.batches.len() > 0 && statuses.batches.len() > 0 {
        lemma_popped_blocks(diffs);
        lemma_popped_blocks(statuses);
        lemma_pop_well_formed(diffs);
        lemma_pop_well_formed(statuses);
        if diffs.batches[0].number < statuses.batches[0].number {
            lemma_earliest_common_block(diffs.popped(), statuses);
        } else if diffs.batches[0].number > statuses.batches[0].number {
            lemma_earliest_common_block(diffs, statuses.popped());
        } else {
            assert(has_block(diffs, diffs.batches[0].number));
            assert(has_block(statuses, statuses.batches[0].number));
        }
    }
}

/// Whatever batch comes in, the queues stay in block order and within their bound, and what is
/// collected belongs together block by block.
pub proof fn lemma_received_well_formed<F>(listener: ListenerView<F>, event: EventView)
    requires
        listener.well_formed(),
    ensures
        listener.received(event).well_formed(),
{
    match event {
        EventView::Orders(batch) => lemma_push_well_formed(listener.status_queue, batch),
        EventView::BookDiffs(batch) => lemma_push_well_formed(listener.diff_queue, batch),
        EventView::Fills(_) => {},
    }
    let queued = listener.queued(event);
    lemma_earliest_common_block(queued.diff_queue, queued.status_queue);
}

/// So they do through the lines of a piece of data.
pub proof fn lemma_lines_well_formed<F>(
    listener: ListenerView<F>,
    lines: Seq<Option<EventView>>,
    source: EventSource,
)
    requires
        listener.well_formed(),
    ensures
        lines_run(listener, lines, source).listener.well_formed(),
        lines_run(listener, lines, source).listener.published().well_formed(),
    decreases lines.len(),
{
    if lines.len() > 0 {
        lemma_lines_well_formed(listener, lines.drop_last(), source);
        let before = lines_run(listener, lines.drop_last(), source);
        if before.end == LinesEnd::Through && lines.last() is Some {
            let read = before.listener.line_read(source, lines.last()->0);
            assert(read.well_formed());
            lemma_received_well_formed(read, lines.last()->0);
        }
    }
}

proof fn lemma_drained_well_formed(
    state: StateView,
    diffs: QueueView<NodeDataOrderDiff>,
    statuses: QueueView<NodeDataOrderStatus>,
)
    requires
        diffs.well_formed(),
        statuses.well_formed(),
    ensures
        drained(state, diffs, statuses).diffs.well_formed(),
        drained(state, diffs, statuses).statuses.well_formed(),
        all_in_priority(state.books) ==> all_in_priority(
            drained(state, diffs, statuses).state.books,
        ),
        none_triggers(state.books) ==> none_triggers(drained(state, diffs, statuses).state.books),
        state.height <= drained(state, diffs, statuses).state.height,
    decreases diffs.batches.len() + statuses.batches.len(),
{
    lemma_earliest_common_block(diffs, statuses);
    lemma_pairing_shrinks(diffs, statuses);
    let found = pairing(diffs, statuses);
    if let Some(pair) = found.pair {
        if all_in_priority(state.books) {
            lemma_block_in_priority(state, pair.statuses, pair.diffs);
        }
        if none_triggers(state.books) {
            lemma_block_no_triggers(state, pair.statuses, pair.diffs);
        }
        lemma_drained_well_formed(
            state_after(state, pair.statuses, pair.diffs),
            found.diffs,
            found.statuses,
        );
    }
}

/// A start from a snapshot keeps the queues in block order and within their bound.
pub proof fn lemma_initialized_well_formed<F>(
    listener: ListenerView<F>,
    snapshot: Map<Seq<char>, Snapshot<InnerL4Order>>,
    height: u64,
    wall_clock_ms: Option<u128>,
    now: u64,
)
    requires
        listener.well_formed(),
    ensures
        listener.initialized(snapshot, height, wall_clock_ms, now).well_formed(),
{
    lemma_drained_well_formed(
        started(snapshot, height, 0, true, listener.ignore_spot),
        listener.diff_queue,
        listener.status_queue,
    );
}

/// The books of the listener, if it has any, are in price-time priority, and no order on them
/// waits for a trigger.
pub open spec fn is_sound<F>(listener: ListenerView<F>) -> bool {
    listener.state matches Some(state) ==> all_in_priority(state.books) && none_triggers(
        state.books,
    )
}

/// No batch makes the books unsound.
pub proof fn lemma_received_sound<F>(listener: ListenerView<F>, event: EventView)
    requires
        is_sound(listener),
    ensures
        is_sound(listener.received(event)),
{
    let queued = listener.queued(event);
    if let Some(state) = queued.state {
        if let Some(pair) = pairing(queued.diff_queue, queued.status_queue).pair {
            lemma_block_in_priority(state, pair.statuses, pair.diffs);
            lemma_block_no_triggers(state, pair.statuses, pair.diffs);
        }
    }
}

/// No piece of data makes them unsound.
pub proof fn lemma_lines_sound<F>(
    listener: ListenerView<F>,
    lines: Seq<Option<EventView>>,
    source: EventSource,
)
    requires
        is_sound(listener),
    ensures
        is_sound(lines_run(listener, lines, source).listener),
        is_sound(lines_run(listener, lines, source).listener.published()),
    decreases lines.len(),
{
    if lines.len() > 0 {
        lemma_lines_sound(listener, lines.drop_last(), source);
        let before = lines_run(listener, lines.drop_last(), source);
        if before.end == LinesEnd::Through && lines.last() is Some {
            lemma_received_sound(
                before.listener.line_read(source, lines.last()->0),
                lines.last()->0,
            );
        }
    }
}

/// A fetched snapshot does not make them unsound, whatever it holds: neither where the listener
/// starts from it, nor where its books are grafted in.
pub proof fn lemma_snapshot_sound<F>(
    listener: ListenerView<F>,
    snapshot: Map<Seq<char>, Snapshot<InnerL4Order>>,
    height: u64,
    wall_clock_ms: Option<u128>,
    now: u64,
)
    requires
        listener.well_formed(),
        is_sound(listener),
    ensures
        is_sound(listener.initialized(snapshot, height, wall_clock_ms, now)),
        is_sound(listener.with_extras(snapshot)),
{
    let fresh = started(snapshot, height, 0, true, listener.ignore_spot);
    lemma_started_in_priority(snapshot, height, 0, true, listener.ignore_spot);
    lemma_started_no_triggers(snapshot, height, 0, listener.ignore_spot);
    lemma_drained_well_formed(fresh, listener.diff_queue, listener.status_queue);
    if let Some(state) = listener.state {
        lemma_extra_books_in_priority(state, snapshot, true);
        lemma_extra_books_no_triggers(state, snapshot);
    }
}

/// A state after some blocks, one after the other.
pub open spec fn replayed(state: StateView, blocks: Seq<PairView>) -> StateView
    decreases blocks.len(),
{
    if blocks.len() == 0 {
        state
    } else {
        state_after(
            replayed(state, blocks.drop_last()),
            blocks.last().statuses,
            blocks.last().diffs,
        )
    }
}

/// Two states are the same but for what of them has been handed out: their views, and the
/// reports of diffs that they passed over and of gaps that they accepted.
pub open spec fn same_books_and_height(a: StateView, b: StateView) -> bool {
    a == (StateView { snapped: a.snapped, skipped: a.skipped, gaps: a.gaps, ..b })
}

/// What is collected, worked into a copy of the state from when collecting began, gives the
/// state: so it was when collecting began, and so it stays with every batch and every view that
/// is handed out.
pub proof fn lemma_collected_blocks_give_the_state<F>(
    listener: ListenerView<F>,
    copy: StateView,
    event: EventView,
)
    requires
        listener.state is Some,
        listener.cache is Some,
        same_books_and_height(replayed(copy, listener.cache->0), listener.state->0),
        listener.receive_result(event) is Ok,
    ensures
        ({
            let after = listener.received(event);
            &&& after.state is Some
            &&& after.cache is Some
            &&& same_books_and_height(replayed(copy, after.cache->0), after.state->0)
            &&& same_books_and_height(
                replayed(copy, after.published().cache->0),
                after.published().state->0,
            )
        }),
{
    let queued = listener.queued(event);
    let state = listener.state->0;
    let so_far = replayed(copy, listener.cache->0);
    if let Some(pair) = pairing(queued.diff_queue, queued.status_queue).pair {
        let collected = listener.cache->0.push(pair);
        assert(collected.drop_last() =~= listener.cache->0);
        assert(same_books_and_height(
            state_after(so_far, pair.statuses, pair.diffs),
            state_after(state, pair.statuses, pair.diffs),
        ));
    }
}

/// A later block that is worked in is told of, once, and the state is then at that block.
pub proof fn lemma_new_block_is_told_of<F>(listener: ListenerView<F>, event: EventView)
    requires
        listener.state is Some,
        listener.outbox is Some,
        listener.receive_result(event) is Ok,
        pairing(
            listener.queued(event).diff_queue,
            listener.queued(event).status_queue,
        ).pair matches Some(pair) && pair.statuses.number > listener.state->0.height,
    ensures
        ({
            let queued = listener.queued(event);
            let pair = pairing(queued.diff_queue, queued.status_queue).pair->0;
            let after = listener.received(event);
            &&& after.outbox == Some(
                queued.outbox->0.push(
                    MessageView::L4BookUpdates {
                        diff_batch: pair.diffs,
                        status_batch: pair.statuses,
                    },
                ),
            )
            &&& after.state is Some
            &&& after.state->0.height == pair.statuses.number
            &&& after.state->0.time == pair.statuses.time
        }),
{
}

/// The batches of fills among some messages.
pub open spec fn fills_among(messages: Seq<MessageView>) -> Seq<BatchView<NodeDataFill>>
    decreases messages.len(),
{
    if messages.len() == 0 {
        Seq::empty()
    } else {
        let before = fills_among(messages.drop_last());
        match messages.last() {
            MessageView::Fills { batch } => before.push(batch),
            _ => before,
        }
    }
}

/// The batches of fills that wait to be sent.
pub open spec fn fills_sent<F>(listener: ListenerView<F>) -> Seq<BatchView<NodeDataFill>> {
    match listener.outbox {
        Some(outbox) => fills_among(outbox),
        None => Seq::empty(),
    }
}

/// A batch of fills of a block whose fills have come in, or of an earlier one, is not sent on.
/// A later one is, once, where anyone listens.
pub proof fn lemma_fills_sent_for_new_blocks_only<F>(
    listener: ListenerView<F>,
    batch: BatchView<NodeDataFill>,
)
    ensures
        ({
            let after = listener.received(EventView::Fills(batch));
            if !is_new_fill(listener.last_fill, batch.number) {
                &&& fills_sent(after) == fills_sent(listener)
                &&& after.last_fill == listener.last_fill
            } else {
                &&& listener.outbox is Some ==> fills_sent(after) == fills_sent(listener).push(
                    batch,
                )
                &&& after.last_fill == Some(batch.number)
            }
        }),
{
    let event = EventView::Fills(batch);
    if let Some(outbox) = listener.outbox {
        let queued = listener.queued(event).outbox->0;
        lemma_fills_among_push(outbox, MessageView::Fills { batch });
        if let Some(pair) = pairing(listener.diff_queue, listener.status_queue).pair {
            lemma_fills_among_push(
                queued,
                MessageView::L4BookUpdates { diff_batch: pair.diffs, status_batch: pair.statuses },
            );
        }
    }
}

proof fn lemma_fills_among_push(messages: Seq<MessageView>, message: MessageView)
    ensures
        fills_among(messages.push(message)) == match message {
            MessageView::Fills { batch } => fills_among(messages).push(batch),
            _ => fills_among(messages),
        },
{
    assert(messages.push(message).drop_last() =~= messages);
}

/// No batch takes the latest block of fills back.
pub proof fn lemma_last_fill_never_falls<F>(listener: ListenerView<F>, event: EventView)
    ensures
        ({
            let after = listener.received(event).last_fill;
            &&& listener.last_fill matches Some(before) ==> after is Some && after->0 >= before
            &&& event matches EventView::Fills(batch) ==> after is Some && after->0 >= batch.number
        }),
{
}

/// The listener after some batches.
pub open spec fn received_all<F>(
    listener: ListenerView<F>,
    events: Seq<EventView>,
) -> ListenerView<F>
    decreases events.len(),
{
    if events.len() == 0 {
        listener
    } else {
        received_all(listener, events.drop_last()).received(events.last())
    }
}

proof fn lemma_last_fill_stays<F>(listener: ListenerView<F>, events: Seq<EventView>)
    ensures
        listener.last_fill matches Some(before) ==> {
            let after = received_all(listener, events).last_fill;
            after is Some && after->0 >= before
        },
    decreases events.len(),
{
    if events.len() > 0 {
        lemma_last_fill_stays(listener, events.drop_last());
        lemma_last_fill_never_falls(
            received_all(listener, events.drop_last()),
            events.last(),
        );
    }
}

/// After a batch of fills, and whatever batches came then, one of the same block or of an
/// earlier one is not sent on.
pub proof fn lemma_fill_block_sent_once<F>(
    listener: ListenerView<F>,
    first: BatchView<NodeDataFill>,
    between: Seq<EventView>,
    second: BatchView<NodeDataFill>,
)
    requires
        second.number <= first.number,
    ensures
        ({
            let before = received_all(listener.received(EventView::Fills(first)), between);
            fills_sent(before.received(EventView::Fills(second))) == fills_sent(before)
        }),
{
    let start = listener.received(EventView::Fills(first));
    lemma_last_fill_never_falls(listener, EventView::Fills(first));
    lemma_last_fill_stays(start, between);
    lemma_fills_sent_for_new_blocks_only(received_all(start, between), second);
}

/// The failures after some at one place, at these times.
pub open spec fn after_failures(
    tracker: ParseFailureTracker,
    offset: u64,
    times: Seq<u64>,
) -> ParseFailureTracker
    decreases times.len(),
{
    if times.len() == 0 {
        tracker
    } else {
        after_failures(tracker, offset, times.drop_last()).counted(
            Some(offset),
            times.last(),
        ).reported(times.last())
    }
}

/// Of the failures at a new place, the first few are reported as errors, and no later one is.
pub proof fn lemma_first_failures_are_loud(
    tracker: ParseFailureTracker,
    offset: u64,
    times: Seq<u64>,
)
    requires
        tracker.last_fail_offset != Some(offset),
        0 < times.len() <= u32::MAX,
    ensures
        ({
            let before = after_failures(tracker, offset, times.drop_last());
            let counted = before.counted(Some(offset), times.last());
            &&& counted.fail_count == times.len()
            &&& counted.first_fail_at == Some(times[0])
            &&& counted.report(times.last()) == ParseFailureReport::Loud <==> times.len()
                <= PARSE_FAIL_LOUD_RETRIES
            &&& after_failures(tracker, offset, times).last_fail_offset == Some(offset)
            &&& after_failures(tracker, offset, times).fail_count == times.len()
            &&& after_failures(tracker, offset, times).first_fail_at == Some(times[0])
        }),
    decreases times.len(),
{
    if times.len() > 1 {
        lemma_first_failures_are_loud(tracker, offset, times.drop_last());
    } else {
        assert(times.drop_last() =~= Seq::empty());
    }
}

/// The views of a block are handed out once.
pub proof fn lemma_published_once<F>(listener: ListenerView<F>)
    ensures
        listener.published().published() == listener.published(),
{
}

/// Data that could not be taken in leaves the listener without a state. Where the listener
/// starts anew, nothing waits either.
pub proof fn lemma_failure_leaves_no_state<F>(
    listener: ListenerView<F>,
    lines: Seq<Option<EventView>>,
    source: EventSource,
)
    ensures
        ({
            let run = lines_run(listener, lines, source);
            &&& run.end is Failed ==> run.listener.state is None
            &&& run.end == LinesEnd::Reset ==> {
                &&& run.listener.state is None
                &&& run.listener.diff_queue == QueueView::<NodeDataOrderDiff>::empty()
                &&& run.listener.status_queue == QueueView::<NodeDataOrderStatus>::empty()
                &&& run.listener.last_block_time is None
                &&& run.listener.ready_at is None
            }
        }),
    decreases lines.len(),
{
    if lines.len() > 0 {
        lemma_failure_leaves_no_state(listener, lines.drop_last(), source);
    }
}

/// A closed file keeps the queues in block order and within their bound and the books sound, and
/// one that could not be taken in leaves no state.
pub proof fn lemma_stream_keeps_the_listener<F>(
    listener: ListenerView<F>,
    lines: Seq<Option<EventView>>,
)
    requires
        listener.well_formed(),
        is_sound(listener),
    ensures
        ({
            let run = stream_run(listener, lines);
            &&& run.listener.well_formed()
            &&& is_sound(run.listener)
            &&& run.end is Failed || run.end == LinesEnd::Reset ==> run.listener.state is None
        }),
    decreases lines.len(),
{
    if lines.len() > 0 {
        lemma_stream_keeps_the_listener(listener, lines.drop_last());
        let before = stream_run(listener, lines.drop_last());
        if before.end == LinesEnd::Through && lines.last() is Some {
            lemma_received_well_formed(before.listener, lines.last()->0);
            lemma_received_sound(before.listener, lines.last()->0);
        }
    }
}

/// A batch never takes the latest block time back.
pub proof fn lemma_block_time_never_falls<F>(listener: ListenerView<F>, event: EventView)
    ensures
        ({
            let after = listener.received(event).last_block_time;
            &&& after is Some
            &&& after->0 >= event.time()
            &&& listener.last_block_time matches Some(before) ==> after->0 >= before
        }),
{
}

/// A listener that has just started from a snapshot is not stopped for its lag for a while.
pub proof fn lemma_no_lag_stop_after_start<F>(
    listener: ListenerView<F>,
    snapshot: Map<Seq<char>, Snapshot<InnerL4Order>>,
    height: u64,
    wall_clock_ms: Option<u128>,
    now: u64,
    then: u64,
    wall_clock_then: Option<u128>,
    fetch_in_flight: bool,
)
    requires
        listener.state is None,
        elapsed(now, then) < LAG_GRACE_AFTER_INIT_NANOS,
    ensures
        fatal_lag(
            listener.initialized(snapshot, height, wall_clock_ms, now),
            fetch_in_flight,
            wall_clock_then,
            then,
        ) is None,
{
}

/// A place that fails to be read is an error the first few times, and is then reported once in
/// a while only: after a report, the next one comes when a minute has passed, if the place still
/// fails.
pub proof fn lemma_stuck_place_reports(
    tracker: ParseFailureTracker,
    offset: u64,
    now: u64,
    then: u64,
)
    ensures
        ({
            let counted = tracker.counted(Some(offset), now);
            let again = counted.reported(now).counted(Some(offset), then);
            &&& tracker.last_fail_offset != Some(offset) ==> counted.report(now)
                == ParseFailureReport::Loud
            &&& counted.fail_count <= PARSE_FAIL_LOUD_RETRIES ==> counted.report(now)
                == ParseFailureReport::Loud
            &&& counted.report(now) is StillStuck ==> {
                if elapsed(now, then) < PARSE_FAIL_WARN_INTERVAL_NANOS {
                    again.report(then) == ParseFailureReport::Silent
                } else {
                    again.report(then) is StillStuck
                }
            }
        }),
{
}

} // verus!
