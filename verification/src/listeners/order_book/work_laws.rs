//! What the listener makes of its data, its views and the time.

use crate::lines::{lemma_lines_from, lines_of};
use crate::listeners::order_book::error::ListenerError;
use crate::listeners::order_book::fetch_plan::{
    backoff_secs, is_transient, step_after, FetchStepView, PostOutcome,
};
use crate::listeners::order_book::l2::{all_views, views_table, L2SnapshotParams};
use crate::listeners::order_book::listener::{
    data_left, data_outcome, event_views, file_action, line_views, stream_step, DataOutcome,
    FileAction, StreamStep,
};
use crate::listeners::order_book::listener_laws::replayed;
use crate::listeners::order_book::messages::EventBatch;
use crate::listeners::order_book::model::{
    block_lag, pairing, EventView, LinesEnd, LinesRun, ListenerView, MessageView,
};
use crate::listeners::order_book::source::{ParseFailureReport, ParseFailureTracker};
use crate::listeners::order_book::state::StateView;
use crate::listeners::order_book::supervisor::{
    action_for, FilePlace, ListenAction, ListenEvent, StopReason,
};
use crate::order_book::book::{BookView, Snapshot};
use crate::order_book::level_laws::{adds_up, lemma_levels_add_up_the_orders};
use crate::order_book::levels::snapshot_levels;
use crate::order_book::types::Side;
use crate::types::inner::InnerLevel;
use crate::types::node_data::EventSource;
use vstd::arithmetic::power2::{lemma2_to64, lemma_pow2_unfold};
use vstd::prelude::*;

verus! {

/// Data that was worked through is done with. Where a line could not be read, what is to be read
/// again is the data from the start of that line on, and at least a byte of it.
pub proof fn lemma_torn_data_is_read_again(data: Seq<u8>, at: int)
    requires
        0 <= at < lines_of(data).len(),
        data.len() <= usize::MAX,
    ensures
        data_outcome(LinesEnd::Through, data) == Ok::<DataOutcome, ListenerError>(
            DataOutcome::Finished,
        ),
        data_outcome(LinesEnd::Torn(at), data) matches Ok(DataOutcome::Torn { rewind }) && 0
            < rewind <= data.len() && data.len() - rewind == lines_of(data)[at].0,
{
    lemma_lines_from(data, 0);
    assert(lines_of(data)[at].0 < lines_of(data)[at].1);
}

/// Data after which the listener starts anew is no error. Data that could not be taken in is the
/// error that it was refused with.
pub proof fn lemma_refused_data_is_the_error(data: Seq<u8>, error: ListenerError)
    ensures
        data_outcome(LinesEnd::Reset, data) == Ok::<DataOutcome, ListenerError>(
            DataOutcome::Resynced,
        ),
        data_outcome(LinesEnd::Failed(error), data) == Err::<DataOutcome, ListenerError>(error),
{
}

/// Lines of a closed file that were all taken in are followed by the next. The rest is of no use
/// after a fresh start. A line that cannot be read is an error, which names the stream and says
/// why it cannot be.
pub proof fn lemma_closed_file_goes_on(
    lines: Seq<Result<EventBatch, String>>,
    at: int,
    source: EventSource,
    error: ListenerError,
)
    requires
        0 <= at < lines.len(),
        lines[at] is Err,
    ensures
        stream_step(LinesEnd::Through, lines, source) == Ok::<StreamStep, ListenerError>(
            StreamStep::Continue,
        ),
        stream_step(LinesEnd::Reset, lines, source) == Ok::<StreamStep, ListenerError>(
            StreamStep::Stop,
        ),
        stream_step(LinesEnd::Failed(error), lines, source) == Err::<StreamStep, ListenerError>(
            error,
        ),
        stream_step(LinesEnd::Torn(at), lines, source) matches Err(
            ListenerError::StreamParse { source: stream, reason },
        ) && stream == source && lines[at] == Err::<EventBatch, String>(reason),
{
}

/// Every line that was read as a batch is that batch, of its own stream, and no other line is one.
/// No line is lost, and none is added.
pub proof fn lemma_lines_are_their_batches(
    lines: Seq<Option<EventBatch>>,
    closed: Seq<Result<EventBatch, String>>,
    i: int,
)
    ensures
        event_views(lines).len() == lines.len(),
        line_views(closed).len() == closed.len(),
        0 <= i < lines.len() ==> match lines[i] {
            Some(EventBatch::Orders(batch)) => event_views(lines)[i] == Some(
                EventView::Orders(batch@),
            ),
            Some(EventBatch::BookDiffs(batch)) => event_views(lines)[i] == Some(
                EventView::BookDiffs(batch@),
            ),
            Some(EventBatch::Fills(batch)) => event_views(lines)[i] == Some(
                EventView::Fills(batch@),
            ),
            None => event_views(lines)[i] is None,
        },
        0 <= i < closed.len() ==> match closed[i] {
            Ok(EventBatch::Orders(batch)) => line_views(closed)[i] == Some(
                EventView::Orders(batch@),
            ),
            Ok(EventBatch::BookDiffs(batch)) => line_views(closed)[i] == Some(
                EventView::BookDiffs(batch@),
            ),
            Ok(EventBatch::Fills(batch)) => line_views(closed)[i] == Some(
                EventView::Fills(batch@),
            ),
            Err(_) => line_views(closed)[i] is None,
        },
{
}

/// A view that is added is found by its rounding, and those of other roundings stay.
pub proof fn lemma_views_are_found_by_rounding(
    views: Seq<(L2SnapshotParams, Snapshot<InnerLevel>)>,
    params: L2SnapshotParams,
    other: L2SnapshotParams,
    view: Snapshot<InnerLevel>,
)
    requires
        other != params,
    ensures
        ({
            let after = views_table(views.push((params, view)));
            &&& !views_table(Seq::empty()).contains_key(params)
            &&& after.contains_key(params)
            &&& after[params] == snapshot_levels(view)
            &&& after.contains_key(other) == views_table(views).contains_key(other)
            &&& after.contains_key(other) ==> after[other] == views_table(views)[other]
        }),
{
    assert(views.push((params, view)).drop_last() =~= views);
}

/// After data that was worked through, and after data that ends in a line that is still written,
/// the views are handed out; after data that the state did not survive they are not.
pub proof fn lemma_views_follow_the_data<F>(run: LinesRun<F>)
    ensures
        run.end == LinesEnd::Through || run.end is Torn ==> data_left(run)
            == run.listener.published(),
        run.end == LinesEnd::Reset || run.end is Failed ==> data_left(run) == run.listener,
{
}

/// The views of a block are those of its books, at the block's time. They are handed out where
/// there is a state whose views have not been, and go to whoever listens. Nothing else changes.
pub proof fn lemma_views_are_handed_out<F>(listener: ListenerView<F>)
    ensures
        ({
            let after = listener.published();
            let due = listener.state is Some && !listener.state->0.snapped;
            &&& !due ==> after == listener
            &&& due ==> {
                let state = listener.state->0;
                &&& after.state == Some(StateView { snapped: true, ..state })
                &&& after == (ListenerView {
                    state: after.state,
                    outbox: after.outbox,
                    ..listener
                })
                &&& listener.outbox is None ==> after.outbox is None
                &&& listener.outbox matches Some(waiting) ==> after.outbox == Some(
                    waiting.push(
                        MessageView::Snapshot { views: all_views(state.books), time: state.time },
                    ),
                )
            }
        }),
{
}

/// Every coin with a book has views, and no other coin has any: the orders unrounded, and at two
/// to five figures, at five also by twos and by fives. Each view adds up the orders of the book,
/// side by side.
pub proof fn lemma_views_add_up_the_books(
    books: Map<Seq<char>, BookView>,
    coin: Seq<char>,
    params: L2SnapshotParams,
)
    requires
        books.contains_key(coin) ==> books[coin].in_priority(),
    ensures
        ({
            let views = all_views(books);
            let figures = params.n_sig_figs;
            let mantissa = params.mantissa;
            &&& views.contains_key(coin) <==> books.contains_key(coin)
            &&& views.contains_key(coin) ==> {
                &&& views[coin].contains_key(params) <==> {
                    ||| figures is None && mantissa is None
                    ||| figures == Some(2u32) && mantissa is None
                    ||| figures == Some(3u32) && mantissa is None
                    ||| figures == Some(4u32) && mantissa is None
                    ||| figures == Some(5u32) && mantissa is None
                    ||| figures == Some(5u32) && mantissa == Some(2u64)
                    ||| figures == Some(5u32) && mantissa == Some(5u64)
                }
                &&& views[coin].contains_key(params) ==> {
                    let view = views[coin][params];
                    &&& adds_up(view.bids, books[coin].bids, Side::Bid, figures, mantissa)
                    &&& adds_up(view.asks, books[coin].asks, Side::Ask, figures, mantissa)
                }
            }
        }),
{
    let views = all_views(books);
    if books.contains_key(coin) && views[coin].contains_key(params) {
        lemma_levels_add_up_the_orders(books[coin], params.n_sig_figs, params.mantissa);
    }
}

/// A new file is switched to, whatever is being read. One that was modified is read on from where
/// the last reading ended, and where none of its stream is being read, from its end.
pub proof fn lemma_new_files_are_switched_to(reading: bool)
    ensures
        file_action(true, reading) == FileAction::SwitchTo,
        file_action(false, true) == FileAction::ReadMore,
        file_action(false, false) == FileAction::TrackFromEnd,
{
}

/// A message waits behind those that came before, where anyone listens. Messages that were taken
/// wait no more, and no one is cut off by that.
pub proof fn lemma_messages_are_taken_once<F>(listener: ListenerView<F>, message: MessageView)
    ensures
        listener.outbox is Some ==> listener.with_message(message).waiting()
            == listener.waiting().push(message),
        listener.outbox is None ==> listener.with_message(message).waiting().len() == 0,
        listener.relieved().waiting().len() == 0,
        listener.relieved().outbox is Some <==> listener.outbox is Some,
        listener.relieved() == (ListenerView { outbox: listener.relieved().outbox, ..listener }),
{
}

/// To look at the views of a block changes nothing, unless it is for good: they then count as
/// handed out until the next block.
pub proof fn lemma_looking_at_the_views<F>(listener: ListenerView<F>)
    ensures
        listener.looked_at(false) == listener,
        listener.state matches Some(state) ==> listener.looked_at(true) == (ListenerView {
            state: Some(StateView { snapped: true, ..state }),
            ..listener
        }),
        listener.state is None ==> listener.looked_at(true) == listener,
        listener.looked_at(true).published() == listener.looked_at(true),
{
}

/// A stream whose file was taken has none, and one that was given a file has that one and awaits
/// its first line. The failures that were counted stay, and the other streams do too.
pub proof fn lemma_files_change_hands<F>(
    listener: ListenerView<F>,
    source: EventSource,
    other: EventSource,
    file: F,
    path: String,
)
    requires
        other != source,
    ensures
        ({
            let taken = listener.without_file(source);
            let given = listener.with_file(source, file, path);
            let before = listener.source(source);
            &&& taken.source(source).file is None
            &&& taken.source(source).pending_first_batch_log == before.pending_first_batch_log
            &&& taken.source(source).parse_fail == before.parse_fail
            &&& taken.source(other) == listener.source(other)
            &&& taken.state == listener.state
            &&& given.source(source).file == Some(file)
            &&& given.source(source).pending_first_batch_log == Some(path)
            &&& given.source(source).parse_fail == before.parse_fail
            &&& given.source(other) == listener.source(other)
            &&& given.state == listener.state
            &&& taken.with_file(source, file, path) == given
        }),
{
}

/// A failure to read is counted with the failures of its own stream, and changes nothing else.
pub proof fn lemma_failures_are_counted_by_stream<F>(
    listener: ListenerView<F>,
    source: EventSource,
    other: EventSource,
    offset: Option<u64>,
    now: u64,
)
    requires
        other != source,
    ensures
        ({
            let after = listener.stuck_at(source, offset, now);
            let before = listener.source(source);
            &&& after.source(source).parse_fail == before.parse_fail.counted(
                offset,
                now,
            ).reported(now)
            &&& after.source(source).file == before.file
            &&& after.source(source).pending_first_batch_log == before.pending_first_batch_log
            &&& after.source(other) == listener.source(other)
            &&& after == (ListenerView {
                fills: after.fills,
                order_statuses: after.order_statuses,
                order_diffs: after.order_diffs,
                ..listener
            })
        }),
{
}

/// A listener that begins to collect has collected nothing, whatever it had before, and what it
/// has collected leads from its state to its state. Nothing else of it changes.
pub proof fn lemma_collecting_begins_anew<F>(listener: ListenerView<F>)
    ensures
        ({
            let after = listener.collecting();
            &&& after.cache is Some
            &&& after.collected().len() == 0
            &&& after == (ListenerView { cache: after.cache, ..listener })
            &&& listener.state matches Some(state) ==> replayed(state, after.collected()) == state
        }),
{
}

/// What was collected are the blocks that were worked in since, and nothing where none are
/// collected.
pub proof fn lemma_collected_blocks_are_those_worked_in<F>(
    listener: ListenerView<F>,
    event: EventView,
)
    requires
        listener.state is Some,
        listener.receive_result(event) is Ok,
    ensures
        ({
            let queued = listener.queued(event);
            let found = pairing(queued.diff_queue, queued.status_queue).pair;
            let after = listener.received(event);
            &&& listener.cache is None ==> after.cache is None && after.collected().len() == 0
            &&& listener.cache is Some && found is None ==> after.collected()
                == listener.collected()
            &&& listener.cache is Some && found is Some ==> after.collected()
                == listener.collected().push(found->0)
        }),
{
}

/// A file that was created or modified is seen to where it lies in the directory of a stream, as
/// one of that stream, and no other event of a file is.
pub proof fn lemma_files_are_seen_to<F>(
    listener: ListenerView<F>,
    created: bool,
    modified: bool,
    place: FilePlace,
    events_lost: bool,
    fetch_in_flight: bool,
)
    ensures
        ({
            let event = ListenEvent::FileEvent { created, modified, place };
            let action = action_for(event, events_lost, fetch_in_flight, listener);
            let seen = place.is_file && (created || modified);
            &&& action is Wait || action is ProcessUpdate
            &&& action is ProcessUpdate <==> seen && (place.in_order_statuses || place.in_fills
                || place.in_order_diffs)
            &&& action matches ListenAction::ProcessUpdate { created: new, event_source } ==> {
                &&& new == created
                &&& event_source == EventSource::OrderStatuses ==> place.in_order_statuses
                &&& event_source == EventSource::Fills ==> place.in_fills
                &&& event_source == EventSource::OrderDiffs ==> place.in_order_diffs
                &&& place.in_order_statuses ==> event_source == EventSource::OrderStatuses
                &&& place.in_fills && !place.in_order_statuses ==> event_source
                    == EventSource::Fills
            }
        }),
{
}

/// A watcher that fails or is gone, and a fetch that fails or can no longer report, stop the
/// listener, each for its own reason. A fetch that ended well does not, and a new one is started
/// when it is time for it, unless one is under way.
pub proof fn lemma_failures_stop_the_listener<F>(
    listener: ListenerView<F>,
    reason: String,
    events_lost: bool,
    fetch_in_flight: bool,
)
    ensures
        action_for(
            ListenEvent::WatcherFailed { reason },
            events_lost,
            fetch_in_flight,
            listener,
        ) == (ListenAction::Stop { reason: StopReason::WatcherFailed { reason } }),
        action_for(ListenEvent::WatcherClosed, events_lost, fetch_in_flight, listener) == (
        ListenAction::Stop { reason: StopReason::WatcherClosed }),
        action_for(
            ListenEvent::FetchFailed { reason },
            events_lost,
            fetch_in_flight,
            listener,
        ) == (ListenAction::Stop { reason: StopReason::FetchFailed { reason } }),
        action_for(ListenEvent::FetchSenderGone, events_lost, fetch_in_flight, listener) == (
        ListenAction::Stop { reason: StopReason::FetchSenderGone }),
        action_for(ListenEvent::FetchDone, events_lost, fetch_in_flight, listener) is Wait,
        action_for(ListenEvent::SnapshotTick, events_lost, true, listener) is Wait,
        action_for(ListenEvent::SnapshotTick, events_lost, false, listener) is FetchSnapshot,
{
}

/// A look at the watcher does nothing before half a minute without a file event has passed. After
/// that, lost events stop the listener, and so does the silence where there is a state.
pub proof fn lemma_silence_stops_a_ready_listener<F>(
    listener: ListenerView<F>,
    last_file_event: u64,
    now: u64,
    events_lost: bool,
    fetch_in_flight: bool,
)
    ensures
        ({
            let tick = ListenEvent::QuietTick { last_file_event, now };
            let action = action_for(tick, events_lost, fetch_in_flight, listener);
            let quiet = now >= last_file_event + 30_000_000_000;
            &&& !quiet ==> action is Wait
            &&& quiet && events_lost ==> action == (ListenAction::Stop {
                reason: StopReason::EventsLost,
            })
            &&& quiet && !events_lost && listener.state is Some ==> action == (
            ListenAction::Stop { reason: StopReason::NoFileEvents })
            &&& quiet && !events_lost && listener.state is None ==> action is Wait
        }),
{
}

/// The failures of a stream are a stall where there were more than three at one place and they
/// began more than half a minute ago.
pub open spec fn is_stuck(tracker: ParseFailureTracker, now: u64) -> bool {
    &&& tracker.fail_count > 3
    &&& tracker.first_fail_at is Some
    &&& now > tracker.first_fail_at->0 + 30_000_000_000
}

/// A look at the lag stops the listener where events were lost. Otherwise it does where the latest
/// block lies more than two minutes behind the clock, and then says how far, but not without a
/// state, while a snapshot is fetched, while a stream is stuck, nor in the first five minutes
/// after a start.
pub proof fn lemma_lag_stops_a_caught_up_listener<F>(
    listener: ListenerView<F>,
    wall_clock_ms: Option<u128>,
    now: u64,
    events_lost: bool,
    fetch_in_flight: bool,
)
    ensures
        ({
            let tick = ListenEvent::LagTick { wall_clock_ms, now };
            let action = action_for(tick, events_lost, fetch_in_flight, listener);
            let excused = {
                ||| listener.state is None
                ||| fetch_in_flight
                ||| is_stuck(listener.fills.parse_fail, now)
                ||| is_stuck(listener.order_statuses.parse_fail, now)
                ||| is_stuck(listener.order_diffs.parse_fail, now)
                ||| listener.ready_at is Some && now < listener.ready_at->0 + 300_000_000_000
            };
            let known = listener.last_block_time is Some && wall_clock_ms is Some
                && wall_clock_ms->0 <= i64::MAX;
            let lag = wall_clock_ms->0 - listener.last_block_time->0;
            &&& events_lost ==> action == (ListenAction::Stop { reason: StopReason::EventsLost })
            &&& !events_lost && !excused && known && lag > 120_000 ==> (action matches
                ListenAction::Stop { reason: StopReason::Lagging { lag_ms } } && lag_ms == lag)
            &&& !events_lost && (excused || !known || lag <= 120_000) ==> action is Wait
        }),
{
}

/// The lag is the time from the latest block to now, where both are known and the block does not
/// lie in the future.
pub proof fn lemma_lag_is_the_time_since_the_block(last: u64, now: u128)
    ensures
        block_lag(None, Some(now)) is None,
        block_lag(Some(last), None) is None,
        last > now ==> block_lag(Some(last), Some(now)) is None,
        last <= now <= i64::MAX ==> (block_lag(Some(last), Some(now)) matches Some(lag) && last + lag
            == now),
{
}

/// A failure to read a stream at the place of the last one is counted with it. One at another
/// place, or at a place that is not known, is the first of its own.
pub proof fn lemma_failures_are_counted_by_place(
    tracker: ParseFailureTracker,
    offset: Option<u64>,
    now: u64,
)
    ensures
        ({
            let after = tracker.counted(offset, now);
            let same_place = offset is Some && tracker.last_fail_offset == offset;
            &&& same_place ==> {
                &&& tracker.fail_count < u32::MAX ==> after.fail_count == tracker.fail_count + 1
                &&& tracker.fail_count == u32::MAX ==> after.fail_count == u32::MAX
                &&& after == (ParseFailureTracker { fail_count: after.fail_count, ..tracker })
            }
            &&& !same_place ==> {
                &&& after.fail_count == 1
                &&& after.last_fail_offset == offset
                &&& after.first_fail_at == Some(now)
                &&& after.last_warn_at is None
            }
        }),
{
}

/// Up to three failures at a place are errors. A later one is reported as a place that is still
/// stuck, with its place, its count and how long it has been, but not within a minute of such a
/// report; a report is noted, and nothing else changes.
pub proof fn lemma_failures_are_reported(tracker: ParseFailureTracker, now: u64)
    ensures
        ({
            let report = tracker.report(now);
            let after = tracker.reported(now);
            let quiet = tracker.last_warn_at is Some && now < tracker.last_warn_at->0
                + 60_000_000_000;
            &&& tracker.fail_count <= 3 ==> report is Loud
            &&& tracker.fail_count > 3 && quiet ==> report is Silent
            &&& tracker.fail_count > 3 && !quiet ==> (report matches
                ParseFailureReport::StillStuck { offset, attempts, stuck_for } && offset
                == tracker.last_fail_offset && attempts == tracker.fail_count && (
            tracker.first_fail_at matches Some(since) ==> stuck_for == if now >= since {
                now - since
            } else {
                0
            }) && (tracker.first_fail_at is None ==> stuck_for == 0))
            &&& report is StillStuck ==> after == (ParseFailureTracker {
                last_warn_at: Some(now),
                ..tracker
            })
            &&& !(report is StillStuck) ==> after == tracker
            &&& tracker.is_stalled(now) <==> is_stuck(tracker, now)
        }),
{
}

/// An attempt to fetch a snapshot is made again where the node was not reached: the connection
/// failed, the time was up, or the request could not be sent. An answer of the node, good or bad,
/// is not asked for again.
pub proof fn lemma_only_silence_is_retried(connect: bool, timeout: bool, request: bool)
    ensures
        !is_transient(PostOutcome::Accepted),
        !is_transient(PostOutcome::Rejected),
        is_transient(PostOutcome::NoAnswer { connect, timeout, request }) <==> connect || timeout
            || request,
{
}

/// A snapshot is asked for five times at most. After each attempt on which the node was not
/// reached there is a wait of 1, 2, 4, 8 and 16 seconds, also after the last.
pub proof fn lemma_five_attempts_are_made(outcome: PostOutcome)
    ensures
        outcome is Accepted ==> forall|attempt: nat|
            #[trigger] step_after(attempt, outcome) == FetchStepView::Done,
        outcome is Rejected ==> forall|attempt: nat|
            #[trigger] step_after(attempt, outcome) == FetchStepView::GiveUp,
        outcome matches PostOutcome::NoAnswer { connect, timeout, request } ==> {
            if connect || timeout || request {
                &&& step_after(1, outcome) == (FetchStepView::RetryAfter { secs: 1, attempt: 2 })
                &&& step_after(2, outcome) == (FetchStepView::RetryAfter { secs: 2, attempt: 3 })
                &&& step_after(3, outcome) == (FetchStepView::RetryAfter { secs: 4, attempt: 4 })
                &&& step_after(4, outcome) == (FetchStepView::RetryAfter { secs: 8, attempt: 5 })
                &&& step_after(5, outcome) == (FetchStepView::GiveUpAfter { secs: 16 })
            } else {
                forall|attempt: nat| #[trigger]
                    step_after(attempt, outcome) == FetchStepView::GiveUp
            }
        },
{
    lemma2_to64();
}

/// The first wait is one second, and each later one twice the one before.
pub proof fn lemma_waits_double(attempt: nat)
    requires
        attempt >= 1,
    ensures
        backoff_secs(1) == 1,
        backoff_secs(attempt + 1) == 2 * backoff_secs(attempt),
{
    lemma2_to64();
    lemma_pow2_unfold(attempt);
}

} // verus!
