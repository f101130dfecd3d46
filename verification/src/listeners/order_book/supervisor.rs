//! What the listener does next, and when it stops.

use crate::listeners::order_book::listener::OrderBookListener;
use crate::listeners::order_book::model::{block_lag, ListenerView};
use crate::listeners::order_book::source::elapsed;
use crate::text::{decimal_text, number_text};
use crate::types::node_data::EventSource;
use vstd::prelude::*;

verus! {

/// How many file events may wait for the listener. The three streams make some 45 a second, so
/// this is over three minutes of them; a listener that is farther behind stops, and is started
/// anew.
pub const FS_EVENT_CHANNEL_CAP: usize = 10_000;

/// How far, in milliseconds, the block time may lie behind the wall clock. Enough for a snapshot
/// fetch and a change of peers, too little to let the listener fall behind for good.
pub const MAX_BLOCK_TIME_LAG_MS: i64 = 120_000;

/// How often, in seconds, the lag is looked at, whether or not there are file events.
pub const WATCHDOG_INTERVAL_SECS: u64 = 15;

/// How long, in seconds, after its start the listener first asks for a snapshot.
pub const FIRST_SNAPSHOT_FETCH_SECS: u64 = 5;

/// How often, in seconds, it asks for one.
pub const SNAPSHOT_FETCH_INTERVAL_SECS: u64 = 60;

/// How long, in nanoseconds, it may go without a file event. The node now and then changes its
/// peers, and writes nothing for up to a quarter of a minute.
pub const QUIET_LIMIT_NANOS: u64 = 30_000_000_000;

/// How often, in seconds, it is looked whether the watcher still works.
pub const QUIET_CHECK_INTERVAL_SECS: u64 = 1;

/// Where a file stands of which an event tells.
#[derive(Clone, Copy, Debug, PartialEq, Eq, Structural)]
pub struct FilePlace {
    pub in_order_statuses: bool,
    pub in_fills: bool,
    pub in_order_diffs: bool,
    /// It is a file, and not a directory.
    pub is_file: bool,
}

/// What the listener waits for.
#[derive(Debug)]
pub enum ListenEvent {
    /// A file was created, modified, or something else happened to it.
    FileEvent { created: bool, modified: bool, place: FilePlace },
    /// The watcher has failed.
    WatcherFailed { reason: String },
    /// The watcher is gone.
    WatcherClosed,
    /// A snapshot fetch has ended well.
    FetchDone,
    /// A snapshot fetch has failed.
    FetchFailed { reason: String },
    /// No snapshot fetch can report any more.
    FetchSenderGone,
    /// It is time to ask for a snapshot.
    SnapshotTick,
    /// It is time to look whether the watcher still works. The times are those of the last file
    /// event, or of the start where there was none, and of now, in nanoseconds of one clock.
    QuietTick { last_file_event: u64, now: u64 },
    /// It is time to look at the lag.
    LagTick { wall_clock_ms: Option<u128>, now: u64 },
}

/// What the listener does.
#[derive(Debug)]
pub enum ListenAction {
    Wait,
    /// See to a file of a stream.
    ProcessUpdate { created: bool, event_source: EventSource },
    /// Ask for a snapshot.
    FetchSnapshot,
    Stop { reason: StopReason },
}

/// Why the listener stops.
#[derive(Debug)]
pub enum StopReason {
    WatcherFailed { reason: String },
    WatcherClosed,
    FetchFailed { reason: String },
    FetchSenderGone,
    /// File events were dropped, so the state cannot be trusted.
    EventsLost,
    /// There is a state, and no file event to move it on.
    NoFileEvents,
    /// The blocks come in faster than they are worked in.
    Lagging { lag_ms: i64 },
}

/// The stream that a file belongs to.
pub open spec fn stream_of(place: FilePlace) -> Option<EventSource> {
    if !place.is_file {
        None
    } else if place.in_order_statuses {
        Some(EventSource::OrderStatuses)
    } else if place.in_fills {
        Some(EventSource::Fills)
    } else if place.in_order_diffs {
        Some(EventSource::OrderDiffs)
    } else {
        None
    }
}

/// How far the listener is behind, where that is a reason to stop. It is none without a state,
/// while a snapshot is fetched, while a stream is stuck, or shortly after a start.
pub open spec fn fatal_lag<F>(
    listener: ListenerView<F>,
    fetch_in_flight: bool,
    wall_clock_ms: Option<u128>,
    now: u64,
) -> Option<i64> {
    if listener.state is Some && !fetch_in_flight && !listener.is_stalled(now)
        && !listener.in_grace(now) {
        match block_lag(listener.last_block_time, wall_clock_ms) {
            Some(lag_ms) if lag_ms > MAX_BLOCK_TIME_LAG_MS => Some(lag_ms),
            _ => None,
        }
    } else {
        None
    }
}

/// There was no file event for so long that the watcher may have stopped.
pub open spec fn quiet_due(last_file_event: u64, now: u64) -> bool {
    elapsed(last_file_event, now) >= QUIET_LIMIT_NANOS
}

/// What the listener does about an event.
pub open spec fn action_for<F>(
    event: ListenEvent,
    events_lost: bool,
    fetch_in_flight: bool,
    listener: ListenerView<F>,
) -> ListenAction {
    match event {
        ListenEvent::FileEvent { created, modified, place } => match stream_of(place) {
            Some(event_source) if created || modified => ListenAction::ProcessUpdate {
                created,
                event_source,
            },
            _ => ListenAction::Wait,
        },
        ListenEvent::WatcherFailed { reason } => ListenAction::Stop {
            reason: StopReason::WatcherFailed { reason },
        },
        ListenEvent::WatcherClosed => ListenAction::Stop { reason: StopReason::WatcherClosed },
        ListenEvent::FetchDone => ListenAction::Wait,
        ListenEvent::FetchFailed { reason } => ListenAction::Stop {
            reason: StopReason::FetchFailed { reason },
        },
        ListenEvent::FetchSenderGone => ListenAction::Stop { reason: StopReason::FetchSenderGone },
        ListenEvent::SnapshotTick => if fetch_in_flight {
            ListenAction::Wait
        } else {
            ListenAction::FetchSnapshot
        },
        ListenEvent::QuietTick { last_file_event, now } => if !quiet_due(last_file_event, now) {
            ListenAction::Wait
        } else if events_lost {
            ListenAction::Stop { reason: StopReason::EventsLost }
        } else if listener.state is Some {
            ListenAction::Stop { reason: StopReason::NoFileEvents }
        } else {
            ListenAction::Wait
        },
        ListenEvent::LagTick { wall_clock_ms, now } => if events_lost {
            ListenAction::Stop { reason: StopReason::EventsLost }
        } else {
            match fatal_lag(listener, fetch_in_flight, wall_clock_ms, now) {
                Some(lag_ms) => ListenAction::Stop { reason: StopReason::Lagging { lag_ms } },
                None => ListenAction::Wait,
            }
        },
    }
}

/// Whether there was no file event for so long that the watcher may have stopped.
pub fn is_quiet_due(last_file_event: u64, now: u64) -> (due: bool)
    ensures
        due == (elapsed(last_file_event, now) >= QUIET_LIMIT_NANOS),
{
    now.saturating_sub(last_file_event) >= QUIET_LIMIT_NANOS
}

/// A listener with a state that got no file event for half a minute stops, whatever else holds;
/// one without a state waits, unless events were lost.
pub proof fn lemma_dead_watcher_is_caught<F>(
    listener: ListenerView<F>,
    last_file_event: u64,
    now: u64,
    events_lost: bool,
    fetch_in_flight: bool,
)
    requires
        now - last_file_event >= QUIET_LIMIT_NANOS,
    ensures
        ({
            let tick = ListenEvent::QuietTick { last_file_event, now };
            let action = action_for(tick, events_lost, fetch_in_flight, listener);
            &&& action is Stop <==> listener.state is Some || events_lost
            &&& !events_lost && listener.state is Some ==> action == ListenAction::Stop {
                reason: StopReason::NoFileEvents,
            }
        }),
{
}

/// The stream that a file belongs to.
fn find_stream(place: &FilePlace) -> (stream: Option<EventSource>)
    ensures
        stream == stream_of(*place),
{
    if place.in_order_statuses && place.is_file {
        Some(EventSource::OrderStatuses)
    } else if place.in_fills && place.is_file {
        Some(EventSource::Fills)
    } else if place.in_order_diffs && place.is_file {
        Some(EventSource::OrderDiffs)
    } else {
        None
    }
}

/// Decides what the listener does about an event. `events_lost` says that the watcher had to
/// drop file events, and `fetch_in_flight` that a snapshot is being fetched or looked at.
pub fn next_action<F>(
    event: ListenEvent,
    events_lost: bool,
    fetch_in_flight: bool,
    listener: &OrderBookListener<F>,
) -> (action: ListenAction)
    ensures
        action == action_for(event, events_lost, fetch_in_flight, listener@),
{
    match event {
        ListenEvent::FileEvent { created, modified, place } => {
            if created || modified {
                match find_stream(&place) {
                    Some(event_source) => ListenAction::ProcessUpdate { created, event_source },
                    None => ListenAction::Wait,
                }
            } else {
                ListenAction::Wait
            }
        },
        ListenEvent::WatcherFailed { reason } => ListenAction::Stop {
            reason: StopReason::WatcherFailed { reason },
        },
        ListenEvent::WatcherClosed => ListenAction::Stop { reason: StopReason::WatcherClosed },
        ListenEvent::FetchDone => ListenAction::Wait,
        ListenEvent::FetchFailed { reason } => ListenAction::Stop {
            reason: StopReason::FetchFailed { reason },
        },
        ListenEvent::FetchSenderGone => ListenAction::Stop { reason: StopReason::FetchSenderGone },
        ListenEvent::SnapshotTick => {
            // Two fetches at a time would share the collected blocks.
            if fetch_in_flight {
                ListenAction::Wait
            } else {
                ListenAction::FetchSnapshot
            }
        },
        ListenEvent::QuietTick { last_file_event, now } => {
            if !is_quiet_due(last_file_event, now) {
                ListenAction::Wait
            } else if events_lost {
                ListenAction::Stop { reason: StopReason::EventsLost }
            } else if listener.is_ready() {
                ListenAction::Stop { reason: StopReason::NoFileEvents }
            } else {
                ListenAction::Wait
            }
        },
        ListenEvent::LagTick { wall_clock_ms, now } => {
            if events_lost {
                return ListenAction::Stop { reason: StopReason::EventsLost };
            }
            if listener.is_ready() && !fetch_in_flight && !listener.has_active_parse_stall(now)
                && !listener.in_init_grace_period(now) {
                if let Some(lag_ms) = listener.block_time_lag_ms(wall_clock_ms) {
                    if lag_ms > MAX_BLOCK_TIME_LAG_MS {
                        return ListenAction::Stop { reason: StopReason::Lagging { lag_ms } };
                    }
                }
            }
            ListenAction::Wait
        },
    }
}

/// Why the listener stops, in words.
pub open spec fn stop_text(reason: StopReason) -> Seq<char> {
    match reason {
        StopReason::WatcherFailed { reason } => "Watcher error: "@ + reason@,
        StopReason::WatcherClosed => "Channel closed."@,
        StopReason::FetchFailed { reason } => "Abci state reading error: "@ + reason@,
        StopReason::FetchSenderGone => "Snapshot fetch task sender dropped"@,
        StopReason::EventsLost => "fs event channel overflowed — listener consumer was starved"@,
        StopReason::NoFileEvents => {
            "No file events for 30s — watcher may have stopped or hl-node fell badly behind"@
        },
        StopReason::Lagging { lag_ms } => "Listener block_time lag "@ + signed_text(lag_ms as int)
            + " ms exceeds "@ + decimal_text(MAX_BLOCK_TIME_LAG_MS as nat)
            + " ms — consumer is starved"@,
    }
}

/// A number in decimal, with a sign where it is below zero.
pub open spec fn signed_text(number: int) -> Seq<char> {
    if number < 0 {
        "-"@ + decimal_text((-number) as nat)
    } else {
        decimal_text(number as nat)
    }
}

impl StopReason {
    /// The reason in words.
    pub fn message(&self) -> (text: String)
        ensures
            text@ == stop_text(*self),
    {
        let mut text = String::new();
        match self {
            StopReason::WatcherFailed { reason } => {
                text.append("Watcher error: ");
                text.append(reason.as_str());
            },
            StopReason::WatcherClosed => {
                text.append("Channel closed.");
            },
            StopReason::FetchFailed { reason } => {
                text.append("Abci state reading error: ");
                text.append(reason.as_str());
            },
            StopReason::FetchSenderGone => {
                text.append("Snapshot fetch task sender dropped");
            },
            StopReason::EventsLost => {
                text.append("fs event channel overflowed — listener consumer was starved");
            },
            StopReason::NoFileEvents => {
                text.append(
                    "No file events for 30s — watcher may have stopped or hl-node fell badly behind",
                );
            },
            StopReason::Lagging { lag_ms } => {
                text.append("Listener block_time lag ");
                if *lag_ms < 0 {
                    text.append("-");
                    text.append(number_text((-(*lag_ms as i128)) as u64).as_str());
                } else {
                    text.append(number_text(*lag_ms as u64).as_str());
                }
                text.append(" ms exceeds ");
                text.append(number_text(MAX_BLOCK_TIME_LAG_MS as u64).as_str());
                text.append(" ms — consumer is starved");
            },
        }
        assert(text@ =~= stop_text(*self));
        text
    }
}

/// What of a stream's file could not be seen to, and why.
pub open spec fn processing_error_text(event_source: EventSource, reason: Seq<char>) -> Seq<char> {
    match event_source {
        EventSource::OrderStatuses => "Order status processing error: "@ + reason,
        EventSource::Fills => "Fill update processing error: "@ + reason,
        EventSource::OrderDiffs => "Book diff processing error: "@ + reason,
    }
}

/// What of a stream's file could not be seen to, and why.
pub fn processing_error(event_source: EventSource, reason: &str) -> (text: String)
    ensures
        text@ == processing_error_text(event_source, reason@),
{
    let mut text = String::new();
    match event_source {
        EventSource::OrderStatuses => {
            text.append("Order status processing error: ");
        },
        EventSource::Fills => {
            text.append("Fill update processing error: ");
        },
        EventSource::OrderDiffs => {
            text.append("Book diff processing error: ");
        },
    }
    text.append(reason);
    assert(text@ =~= processing_error_text(event_source, reason@));
    text
}

} // verus!
