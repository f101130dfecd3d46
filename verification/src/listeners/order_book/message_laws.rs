//! What the messages say.

use crate::address::address_text;
use crate::listeners::order_book::consistency::{fault_text, ConsistencyError};
use crate::listeners::order_book::error::{
    asks_resync, change_line, diff_line, diff_text, error_text, order_diff_text, ListenerError,
};
use crate::listeners::order_book::messages::{first_batch_text, FirstBatch};
use crate::listeners::order_book::state::{
    gap_text, skipped_text, AcceptedGap, SkippedChange, SkippedView,
};
use crate::listeners::order_book::supervisor::{processing_error_text, stop_text, StopReason};
use crate::order_book::decimal::DecimalError;
use crate::order_book::types::{Coin, Side};
use crate::text::{contains_text, decimal_text, flag_text, quoted};
use crate::types::inner::{
    order_line, order_text, order_texts, InnerL4Order, OrderTextsView, OrderView,
};
use crate::types::node_data::{EventSource, NodeDataOrderDiff};
use crate::types::OrderDiff;
use vstd::prelude::*;

verus! {

/// A number in digits.
pub open spec fn digits(n: u64) -> Seq<char> {
    decimal_text(n as nat)
}

/// The name of a stream.
pub open spec fn stream_name(source: EventSource) -> Seq<char> {
    match source {
        EventSource::Fills => "Fills"@,
        EventSource::OrderStatuses => "OrderStatuses"@,
        EventSource::OrderDiffs => "OrderDiffs"@,
    }
}

/// The name of a side.
pub open spec fn side_name(side: Side) -> Seq<char> {
    match side {
        Side::Ask => "Ask"@,
        Side::Bid => "Bid"@,
    }
}

/// The name of a change.
pub open spec fn change_name(change: SkippedChange) -> Seq<char> {
    match change {
        SkippedChange::Update => "Update"@,
        SkippedChange::Remove => "Remove"@,
    }
}

/// How far a block lies ahead of another, if it does.
pub open spec fn distance(from: u64, to: u64) -> nat {
    if from <= to {
        (to - from) as nat
    } else {
        0
    }
}

/// A number in digits, behind a minus sign where it is below zero.
pub open spec fn with_sign(n: i64) -> Seq<char> {
    if n >= 0 {
        decimal_text(n as nat)
    } else {
        "-"@ + decimal_text((0 - n) as nat)
    }
}

/// A height, or that there is none.
pub open spec fn height_name(height: Option<u64>) -> Seq<char> {
    if height is Some {
        "Some("@ + digits(height->0) + ")"@
    } else {
        "None"@
    }
}

/// What is said of a gap between blocks names the block that was awaited, then the one that came.
pub proof fn lemma_unexpected_block_is_named(expected: u64, got: u64, time: u64)
    ensures
        error_text(ListenerError::UnexpectedBlock { expected, got, time }) ==
            "Expecting block "@ + digits(expected) + ", got block "@ + digits(got),
{
}

/// What is said of a diff that cannot be worked in shows the diff, behind what of it is missing.
pub proof fn lemma_missing_order_is_shown(diff: NodeDataOrderDiff)
    ensures
        error_text(ListenerError::MissingOpeningStatus { diff }) ==
            "Unable to find order opening status "@ + diff_text(diff),
        error_text(ListenerError::MissingOrder { diff }) ==
            "Unable to find order on the book "@ + diff_text(diff),
{
}

/// What is said of a number that cannot be read says why.
pub proof fn lemma_bad_number_is_explained()
    ensures
        error_text(ListenerError::BadNumber { error: DecimalError::Malformed }) ==
            "invalid decimal number"@,
        error_text(ListenerError::BadNumber { error: DecimalError::TooLarge }) ==
            "decimal number out of range"@,
{
}

/// What is said of a full queue names how many batches wait and how many may.
pub proof fn lemma_full_queue_is_counted(len: usize)
    ensures
        error_text(ListenerError::QueueOverflow { len }) ==
            "BatchQueue overflow: "@ + decimal_text(len as nat) + " unprocessed batches (cap "@
            + decimal_text(60_000) + "). Listener consumer is starved."@,
{
}

/// What is said of a closed file that cannot be read names the stream and the reason.
pub proof fn lemma_unreadable_file_is_named(source: EventSource, reason: String)
    ensures
        error_text(ListenerError::StreamParse { source, reason }) ==
            "Stream parse error in closed "@ + stream_name(source) + " file: "@ + reason@,
{
}

/// A diff is shown with its account, its id, its price, its coin and its change, in this order.
pub proof fn lemma_diff_is_shown(
    user: Seq<char>,
    oid: u64,
    px: Seq<char>,
    coin: Seq<char>,
    change: Seq<char>,
)
    ensures
        diff_line(user, oid, px, coin, change) ==
            "NodeDataOrderDiff { user: "@ + user + ", oid: "@ + digits(oid) + ", px: "@ + px
            + ", coin: "@ + coin + ", raw_book_diff: "@ + change + " }"@,
{
}

/// A change is shown with its sizes: that of a new order, or the one before and then the one after.
pub proof fn lemma_change_is_shown(sz: String, other: String, first: Seq<char>, second: Seq<char>)
    ensures
        change_line(OrderDiff::New { sz }, first, second) == "New { sz: "@ + first + " }"@,
        change_line(OrderDiff::Update { orig_sz: sz, new_sz: other }, first, second) ==
            "Update { orig_sz: "@ + first + ", new_sz: "@ + second + " }"@,
        change_line(OrderDiff::Remove, first, second) == "Remove"@,
{
}

/// A report of a diff that was passed over says what it would have done, to which order of which
/// coin, and at which block.
pub proof fn lemma_skipped_diff_is_named(report: SkippedView)
    ensures
        skipped_text(report) ==
            "Skipping "@ + change_name(report.change) + " for not-yet-grafted coin "@
                + report.coin
            + " oid "@ + digits(report.oid) + " at block "@ + digits(report.height)
            + "; waiting for absorb_extra_books"@,
{
}

/// A report of an accepted gap names the height, the block after it, the block that came, and how
/// far that lies ahead.
pub proof fn lemma_gap_is_measured(gap: AcceptedGap)
    ensures
        gap_text(gap) == "[fresh-start] accepting initial gap: self.height="@ + digits(gap.height)
            + " expected="@ + digits(gap.expected) + " got="@ + digits(gap.got) + " gap_blocks="@
            + decimal_text(distance(gap.height, gap.got)) + " — snapshot state is authoritative"@,
{
}

/// A report of the first batch of a new file names the stream, the file, the block, and the height of
/// the state where there is one.
pub proof fn lemma_first_batch_is_named(report: FirstBatch)
    ensures
        first_batch_text(report) == "[hour-rollover-diag] live-file first batch: source="@
            + stream_name(report.event_source) + " new_file="@ + report.path@ + " first_block="@
            + digits(report.block) + " state.height="@ + height_name(report.state_height),
{
}

/// A fault of a book shows the order that was expected, then the one that is there, or says that there
/// is none. A book that is missing is named.
pub proof fn lemma_fault_is_shown(coin: Coin, expected: InnerL4Order, received: InnerL4Order)
    ensures
        fault_text(ConsistencyError::OrdersDoNotMatch { coin, expected, received }) ==
            "Orders do not match, expected: "@ + order_text(expected@) + " received: "@
            + order_text(received@),
        fault_text(ConsistencyError::MissingOrder { coin, expected }) ==
            "Orders do not match, expected: "@ + order_text(expected@) + " received: none"@,
        fault_text(ConsistencyError::UnexpectedOrder { coin, received }) ==
            "Orders do not match, expected: none received: "@ + order_text(received@),
        fault_text(ConsistencyError::<InnerL4Order>::MissingBook { coin }) ==
            "Missing "@ + coin@ + " book"@,
{
}

/// A listener that stops says why, with the reason that it was given or the lag that it found.
pub proof fn lemma_stop_is_explained(reason: String, lag: i64)
    ensures
        stop_text(StopReason::WatcherFailed { reason }) == "Watcher error: "@ + reason@,
        stop_text(StopReason::WatcherClosed) == "Channel closed."@,
        stop_text(StopReason::FetchFailed { reason }) == "Abci state reading error: "@ + reason@,
        stop_text(StopReason::FetchSenderGone) == "Snapshot fetch task sender dropped"@,
        stop_text(StopReason::EventsLost) ==
            "fs event channel overflowed — listener consumer was starved"@,
        stop_text(StopReason::NoFileEvents) ==
            "No file events for 30s — watcher may have stopped or hl-node fell badly behind"@,
        stop_text(StopReason::Lagging { lag_ms: lag }) ==
            "Listener block_time lag "@ + with_sign(lag) + " ms exceeds "@
            + decimal_text(120_000) + " ms — consumer is starved"@,
{
}

/// A stream whose file could not be seen to is named, and the reason follows.
pub proof fn lemma_failing_stream_is_named(reason: Seq<char>)
    ensures
        processing_error_text(EventSource::OrderStatuses, reason) ==
            "Order status processing error: "@ + reason,
        processing_error_text(EventSource::Fills, reason) ==
            "Fill update processing error: "@ + reason,
        processing_error_text(EventSource::OrderDiffs, reason) ==
            "Book diff processing error: "@ + reason,
{
}

/// An order is shown field by field, its price and size in units.
pub proof fn lemma_order_is_shown(texts: OrderTextsView, order: OrderView)
    ensures
        order_line(texts, order) ==
            "InnerL4Order { user: "@ + texts.user + ", coin: "@ + texts.coin + ", side: "@
            + side_name(order.side) + ", limit_px: "@ + digits(order.limit_px) + ", sz: "@
            + digits(order.sz) + ", oid: "@ + digits(order.oid) + ", timestamp: "@
            + digits(order.timestamp) + ", trigger_condition: "@ + texts.trigger_condition
            + ", is_trigger: "@ + flag_text(order.is_trigger) + ", trigger_px: "@ + texts.trigger_px
            + ", is_position_tpsl: "@ + flag_text(order.is_position_tpsl) + ", reduce_only: "@
            + flag_text(order.reduce_only) + ", order_type: "@ + texts.order_type + ", tif: "@
            + texts.tif + ", cloid: "@ + texts.cloid + " }"@,
{
}

/// The texts of a diff are shown in quotation marks, and its account as an address.
pub proof fn lemma_texts_of_a_diff_are_quoted(diff: NodeDataOrderDiff)
    ensures
        diff_text(diff) == diff_line(
            address_text(diff.user),
            diff.oid,
            quoted(diff.px@),
            quoted(diff.coin@),
            order_diff_text(diff.raw_book_diff),
        ),
        diff.raw_book_diff matches OrderDiff::New { sz } ==> order_diff_text(diff.raw_book_diff)
            == "New { sz: "@ + quoted(sz@) + " }"@,
        diff.raw_book_diff matches OrderDiff::Update { orig_sz, new_sz } ==> order_diff_text(
            diff.raw_book_diff,
        ) == "Update { orig_sz: "@ + quoted(orig_sz@) + ", new_sz: "@ + quoted(new_sz@) + " }"@,
        diff.raw_book_diff is Remove ==> order_diff_text(diff.raw_book_diff) == "Remove"@,
{
}

/// So are those of an order, each in its own field.
pub proof fn lemma_texts_of_an_order_are_quoted(order: OrderView)
    ensures
        ({
            let texts = order_texts(order);
            &&& order_text(order) == order_line(texts, order)
            &&& texts.user == address_text(order.user)
            &&& texts.coin == quoted(order.coin)
            &&& texts.trigger_condition == quoted(order.trigger_condition)
            &&& texts.trigger_px == quoted(order.trigger_px)
            &&& texts.order_type == quoted(order.order_type)
            &&& order.tif is None ==> texts.tif == "None"@
            &&& order.tif is Some ==> texts.tif == "Some("@ + quoted(order.tif->0) + ")"@
            &&& order.cloid is None ==> texts.cloid == "None"@
            &&& order.cloid is Some ==> texts.cloid == "Some("@ + quoted(order.cloid->0) + ")"@
        }),
{
}

/// A flag is shown as a word.
pub proof fn lemma_flag_is_shown()
    ensures
        flag_text(true) == "true"@,
        flag_text(false) == "false"@,
{
}

/// A fresh start is asked for by what an error quotes, a diff or the reason of a reader, where the
/// marker stands there. An error that quotes nothing asks for none.
pub proof fn lemma_marker_asks_for_a_fresh_start(
    source: EventSource,
    reason: String,
    diff: NodeDataOrderDiff,
    expected: u64,
    got: u64,
    time: u64,
    error: DecimalError,
    len: usize,
)
    ensures
        asks_resync(ListenerError::StreamParse { source, reason }) <==> contains_text(
            reason@,
            "[gap-grace-resync]"@,
        ),
        contains_text(diff.coin@, "[gap-grace-resync]"@) || contains_text(
            diff.px@,
            "[gap-grace-resync]"@,
        ) ==> asks_resync(ListenerError::MissingOrder { diff }) && asks_resync(
            ListenerError::MissingOpeningStatus { diff },
        ),
        asks_resync(ListenerError::MissingOrder { diff }) == asks_resync(
            ListenerError::MissingOpeningStatus { diff },
        ),
        !asks_resync(ListenerError::UnexpectedBlock { expected, got, time }),
        !asks_resync(ListenerError::BadNumber { error }),
        !asks_resync(ListenerError::QueueOverflow { len }),
{
}

} // verus!
