//! Why the listener refuses what it is given.

use crate::address::{address_text, is_address_text, is_hex_digit, write_address};
use crate::order_book::decimal::DecimalError;
use crate::text::{
    contains_text, decimal_text, free_of, is_ordinary, is_quoted_plainly, lemma_contains_split,
    lemma_decimal_text_free, lemma_free_text_lacks, number_text, quote, quoted, text_contains,
};
use crate::types::node_data::{EventSource, NodeDataOrderDiff};
use crate::types::OrderDiff;
use vstd::prelude::*;

verus! {

/// How many unprocessed batches of one stream the listener holds before it takes the backlog
/// for runaway lag. At about 14.5 blocks a second this is some 70 minutes of events: enough
/// for a snapshot fetch and a change of peers, too little to fill the memory unnoticed.
pub const BATCH_QUEUE_CAP: usize = 60_000;

/// Why a batch or a line cannot be taken in.
#[derive(Debug)]
pub enum ListenerError {
    /// Blocks are missing between the state and the batch, which is of this time.
    UnexpectedBlock { expected: u64, got: u64, time: u64 },
    /// An order came onto the book without a status that says so.
    MissingOpeningStatus { diff: NodeDataOrderDiff },
    /// An order that is to change is not on the book.
    MissingOrder { diff: NodeDataOrderDiff },
    /// A number in a status or a diff cannot be read.
    BadNumber { error: DecimalError },
    /// A stream has more unprocessed batches than the listener holds.
    QueueOverflow { len: usize },
    /// A line of a file that is no longer written cannot be read.
    StreamParse { source: EventSource, reason: String },
}

/// What marks an error after which the state is fetched anew instead of giving up.
pub open spec fn resync_marker() -> Seq<char> {
    "[gap-grace-resync]"@
}

pub open spec fn decimal_error_text(error: DecimalError) -> Seq<char> {
    match error {
        DecimalError::Malformed => "invalid decimal number"@,
        DecimalError::TooLarge => "decimal number out of range"@,
    }
}

pub open spec fn source_text(source: EventSource) -> Seq<char> {
    match source {
        EventSource::Fills => "Fills"@,
        EventSource::OrderStatuses => "OrderStatuses"@,
        EventSource::OrderDiffs => "OrderDiffs"@,
    }
}

/// The text of a change, with its sizes written as `first` and `second`.
pub open spec fn change_line(diff: OrderDiff, first: Seq<char>, second: Seq<char>) -> Seq<char> {
    match diff {
        OrderDiff::New { .. } => "New { sz: "@ + first + " }"@,
        OrderDiff::Update { .. } => "Update { orig_sz: "@ + first + ", new_sz: "@ + second + " }"@,
        OrderDiff::Remove => "Remove"@,
    }
}

/// The text of a change.
pub open spec fn order_diff_text(diff: OrderDiff) -> Seq<char> {
    match diff {
        OrderDiff::New { sz } => change_line(diff, quoted(sz@), Seq::empty()),
        OrderDiff::Update { orig_sz, new_sz } => change_line(
            diff,
            quoted(orig_sz@),
            quoted(new_sz@),
        ),
        OrderDiff::Remove => change_line(diff, Seq::empty(), Seq::empty()),
    }
}

/// The text of a diff, with its account, texts and change written as given.
pub open spec fn diff_line(
    user: Seq<char>,
    oid: u64,
    px: Seq<char>,
    coin: Seq<char>,
    change: Seq<char>,
) -> Seq<char> {
    "NodeDataOrderDiff { user: "@ + user + ", oid: "@ + decimal_text(oid as nat) + ", px: "@ + px
        + ", coin: "@ + coin + ", raw_book_diff: "@ + change + " }"@
}

/// The text of a diff.
pub open spec fn diff_text(diff: NodeDataOrderDiff) -> Seq<char> {
    diff_line(
        address_text(diff.user),
        diff.oid,
        quoted(diff.px@),
        quoted(diff.coin@),
        order_diff_text(diff.raw_book_diff),
    )
}

/// The texts of a change are ordinary.
pub open spec fn is_ordinary_change(diff: OrderDiff) -> bool {
    match diff {
        OrderDiff::New { sz } => is_ordinary(sz@),
        OrderDiff::Update { orig_sz, new_sz } => is_ordinary(orig_sz@) && is_ordinary(new_sz@),
        OrderDiff::Remove => true,
    }
}

/// The texts of a diff are ordinary.
pub open spec fn is_ordinary_diff(diff: NodeDataOrderDiff) -> bool {
    is_ordinary(diff.px@) && is_ordinary(diff.coin@) && is_ordinary_change(diff.raw_book_diff)
}

/// The texts of a change are written plainly where they are ordinary.
pub open spec fn is_change_written_plainly(diff: OrderDiff) -> bool {
    match diff {
        OrderDiff::New { sz } => is_quoted_plainly(sz@),
        OrderDiff::Update { orig_sz, new_sz } => is_quoted_plainly(orig_sz@) && is_quoted_plainly(
            new_sz@,
        ),
        OrderDiff::Remove => true,
    }
}

/// The account of a diff is written as an address, and its texts plainly where they are ordinary.
pub open spec fn is_written_plainly(diff: NodeDataOrderDiff) -> bool {
    &&& is_address_text(address_text(diff.user))
    &&& is_quoted_plainly(diff.px@)
    &&& is_quoted_plainly(diff.coin@)
    &&& is_change_written_plainly(diff.raw_book_diff)
}

/// The text of an error.
pub open spec fn error_text(error: ListenerError) -> Seq<char> {
    match error {
        ListenerError::UnexpectedBlock { expected, got, .. } => "Expecting block "@ + decimal_text(
            expected as nat,
        ) + ", got block "@ + decimal_text(got as nat),
        ListenerError::MissingOpeningStatus { diff } => "Unable to find order opening status "@
            + diff_text(diff),
        ListenerError::MissingOrder { diff } => "Unable to find order on the book "@ + diff_text(
            diff,
        ),
        ListenerError::BadNumber { error } => decimal_error_text(error),
        ListenerError::QueueOverflow { len } => "BatchQueue overflow: "@ + decimal_text(len as nat)
            + " unprocessed batches (cap "@ + decimal_text(BATCH_QUEUE_CAP as nat)
            + "). Listener consumer is starved."@,
        ListenerError::StreamParse { source, reason } => "Stream parse error in closed "@
            + source_text(source) + " file: "@ + reason@,
    }
}

/// The marker stands in one of the texts of a diff.
pub open spec fn is_marked_diff(diff: NodeDataOrderDiff) -> bool {
    ||| contains_text(diff.px@, resync_marker())
    ||| contains_text(diff.coin@, resync_marker())
    ||| match diff.raw_book_diff {
        OrderDiff::New { sz } => contains_text(sz@, resync_marker()),
        OrderDiff::Update { orig_sz, new_sz } => contains_text(orig_sz@, resync_marker())
            || contains_text(new_sz@, resync_marker()),
        OrderDiff::Remove => false,
    }
}

/// The error asks for a fresh start from the next snapshot: the marker stands in one of the
/// texts that it quotes, and so in its own.
pub open spec fn asks_resync(error: ListenerError) -> bool {
    match error {
        ListenerError::MissingOpeningStatus { diff } => is_marked_diff(diff),
        ListenerError::MissingOrder { diff } => is_marked_diff(diff),
        ListenerError::StreamParse { reason, .. } => contains_text(reason@, resync_marker()),
        ListenerError::UnexpectedBlock { .. } => false,
        ListenerError::BadNumber { .. } => false,
        ListenerError::QueueOverflow { .. } => false,
    }
}

proof fn lemma_marker()
    ensures
        resync_marker().len() > 0,
        resync_marker().contains('['),
        !resync_marker().contains('"'),
        !resync_marker().contains(' '),
{
    reveal_strlit("[gap-grace-resync]");
    assert(resync_marker()[0] == '[');
}

/// The marker stands in a quoted text, behind one that lacks it and before another, where it
/// stands in what is quoted or in the other.
proof fn lemma_marked_after(before: Seq<char>, text: Seq<char>, rest: Seq<char>)
    requires
        free_of(before, '['),
        is_ordinary(text),
        is_quoted_plainly(text),
    ensures
        contains_text(before + quoted(text) + rest, resync_marker()) == (contains_text(
            text,
            resync_marker(),
        ) || contains_text(rest, resync_marker())),
{
    let marker = resync_marker();
    lemma_marker();
    let tail = text + seq!['"'] + rest;
    assert(before + quoted(text) + rest =~= before + seq!['"'] + tail);
    lemma_contains_split(before, '"', tail, marker);
    lemma_contains_split(text, '"', rest, marker);
    lemma_free_text_lacks(before, marker, '[');
}

proof fn lemma_order_diff_marked(diff: OrderDiff, rest: Seq<char>)
    requires
        free_of(rest, '['),
        is_ordinary_change(diff),
        is_change_written_plainly(diff),
    ensures
        contains_text(order_diff_text(diff) + rest, resync_marker()) == match diff {
            OrderDiff::New { sz } => contains_text(sz@, resync_marker()),
            OrderDiff::Update { orig_sz, new_sz } => contains_text(orig_sz@, resync_marker())
                || contains_text(new_sz@, resync_marker()),
            OrderDiff::Remove => false,
        },
{
    let marker = resync_marker();
    lemma_marker();
    reveal_strlit("New { sz: ");
    reveal_strlit("Update { orig_sz: ");
    reveal_strlit(", new_sz: ");
    reveal_strlit(" }");
    reveal_strlit("Remove");
    let end = " }"@ + rest;
    lemma_free_text_lacks(end, marker, '[');
    match diff {
        OrderDiff::New { sz } => {
            lemma_marked_after("New { sz: "@, sz@, end);
            assert(order_diff_text(diff) + rest =~= "New { sz: "@ + quoted(sz@) + end);
        },
        OrderDiff::Update { orig_sz, new_sz } => {
            let second = ", new_sz: "@ + quoted(new_sz@) + end;
            lemma_marked_after(", new_sz: "@, new_sz@, end);
            lemma_marked_after("Update { orig_sz: "@, orig_sz@, second);
            assert(order_diff_text(diff) + rest =~= "Update { orig_sz: "@ + quoted(orig_sz@)
                + second);
        },
        OrderDiff::Remove => {
            lemma_free_text_lacks("Remove"@ + rest, marker, '[');
        },
    }
}

proof fn lemma_diff_marked(before: Seq<char>, diff: NodeDataOrderDiff)
    requires
        free_of(before, '['),
        is_ordinary_diff(diff),
        is_written_plainly(diff),
    ensures
        contains_text(before + diff_text(diff), resync_marker()) == is_marked_diff(diff),
{
    reveal_strlit("NodeDataOrderDiff { user: ");
    reveal_strlit(", oid: ");
    reveal_strlit(", px: ");
    reveal_strlit(", coin: ");
    reveal_strlit(", raw_book_diff: ");
    reveal_strlit(" }");
    let user = address_text(diff.user);
    let oid = decimal_text(diff.oid as nat);
    lemma_decimal_text_free(diff.oid as nat, '[');
    assert(free_of(user, '[')) by {
        assert forall|i: int| 0 <= i < user.len() implies #[trigger] user[i] != '[' by {
            if i >= 2 {
                assert(is_hex_digit(user[i]));
            }
        }
    }
    let head = before + "NodeDataOrderDiff { user: "@ + user + ", oid: "@ + oid + ", px: "@;
    let raw = order_diff_text(diff.raw_book_diff) + " }"@;
    let last = ", raw_book_diff: "@ + raw;
    let rest = ", coin: "@ + quoted(diff.coin@) + last;
    lemma_order_diff_marked(diff.raw_book_diff, " }"@);
    lemma_marker();
    // Nothing crosses the space before the change.
    let label = ", raw_book_diff:"@;
    reveal_strlit(", raw_book_diff:");
    assert(last =~= label + seq![' '] + raw);
    lemma_contains_split(label, ' ', raw, resync_marker());
    lemma_free_text_lacks(label, resync_marker(), '[');
    lemma_marked_after(", coin: "@, diff.coin@, last);
    lemma_marked_after(head, diff.px@, rest);
    assert(before + diff_text(diff) =~= head + quoted(diff.px@) + rest);
}

/// The texts of the diff of an error, where it has one, are ordinary.
pub open spec fn is_ordinary_error(error: ListenerError) -> bool {
    &&& error matches ListenerError::MissingOpeningStatus { diff } ==> is_ordinary_diff(diff)
    &&& error matches ListenerError::MissingOrder { diff } ==> is_ordinary_diff(diff)
}

/// The diff of an error, where it has one, is written plainly.
pub open spec fn is_error_written_plainly(error: ListenerError) -> bool {
    &&& error matches ListenerError::MissingOpeningStatus { diff } ==> is_written_plainly(diff)
    &&& error matches ListenerError::MissingOrder { diff } ==> is_written_plainly(diff)
}

/// The marker stands in the text of an error where the error asks for a fresh start.
proof fn lemma_marked_text(error: ListenerError)
    requires
        is_ordinary_error(error),
        is_error_written_plainly(error),
    ensures
        contains_text(error_text(error), resync_marker()) == asks_resync(error),
{
    let marker = resync_marker();
    lemma_marker();
    match error {
        ListenerError::UnexpectedBlock { expected, got, .. } => {
            reveal_strlit("Expecting block ");
            reveal_strlit(", got block ");
            lemma_decimal_text_free(expected as nat, '[');
            lemma_decimal_text_free(got as nat, '[');
            lemma_free_text_lacks(error_text(error), marker, '[');
        },
        ListenerError::MissingOpeningStatus { diff } => {
            reveal_strlit("Unable to find order opening status ");
            lemma_diff_marked("Unable to find order opening status "@, diff);
        },
        ListenerError::MissingOrder { diff } => {
            reveal_strlit("Unable to find order on the book ");
            lemma_diff_marked("Unable to find order on the book "@, diff);
        },
        ListenerError::BadNumber { error: number } => {
            reveal_strlit("invalid decimal number");
            reveal_strlit("decimal number out of range");
            lemma_free_text_lacks(error_text(error), marker, '[');
        },
        ListenerError::QueueOverflow { len } => {
            reveal_strlit("BatchQueue overflow: ");
            reveal_strlit(" unprocessed batches (cap ");
            reveal_strlit("). Listener consumer is starved.");
            lemma_decimal_text_free(len as nat, '[');
            lemma_decimal_text_free(BATCH_QUEUE_CAP as nat, '[');
            lemma_free_text_lacks(error_text(error), marker, '[');
        },
        ListenerError::StreamParse { source, reason } => {
            reveal_strlit("Stream parse error in closed ");
            reveal_strlit("Fills");
            reveal_strlit("OrderStatuses");
            reveal_strlit("OrderDiffs");
            reveal_strlit(" file: ");
            reveal_strlit(" file:");
            let head = "Stream parse error in closed "@ + source_text(source) + " file:"@;
            assert(error_text(error) =~= head + seq![' '] + reason@);
            lemma_contains_split(head, ' ', reason@, marker);
            lemma_free_text_lacks(head, marker, '[');
        },
    }
}

impl EventSource {
    pub fn name(&self) -> (name: &'static str)
        ensures
            name@ == source_text(*self),
    {
        match self {
            EventSource::Fills => "Fills",
            EventSource::OrderStatuses => "OrderStatuses",
            EventSource::OrderDiffs => "OrderDiffs",
        }
    }
}

/// The text of a change, with its sizes written as `first` and `second`.
pub fn write_change_line(diff: &OrderDiff, first: &str, second: &str) -> (text: String)
    ensures
        text@ == change_line(*diff, first@, second@),
{
    let mut text = String::new();
    match diff {
        OrderDiff::New { .. } => {
            text.append("New { sz: ");
            text.append(first);
            text.append(" }");
        },
        OrderDiff::Update { .. } => {
            text.append("Update { orig_sz: ");
            text.append(first);
            text.append(", new_sz: ");
            text.append(second);
            text.append(" }");
        },
        OrderDiff::Remove => {
            text.append("Remove");
        },
    }
    assert(text@ =~= change_line(*diff, first@, second@));
    text
}

/// The text of a change.
fn write_change(diff: &OrderDiff) -> (text: String)
    ensures
        text@ == order_diff_text(*diff),
        is_change_written_plainly(*diff),
{
    proof {
        reveal_strlit("");
        assert(""@ =~= Seq::empty());
    }
    match diff {
        OrderDiff::New { sz } => write_change_line(diff, quote(sz.as_str()).as_str(), ""),
        OrderDiff::Update { orig_sz, new_sz } => write_change_line(
            diff,
            quote(orig_sz.as_str()).as_str(),
            quote(new_sz.as_str()).as_str(),
        ),
        OrderDiff::Remove => write_change_line(diff, "", ""),
    }
}

/// The text of a diff, with its account, texts and change written as given.
pub fn write_diff_line(user: &str, oid: u64, px: &str, coin: &str, change: &str) -> (text: String)
    ensures
        text@ == diff_line(user@, oid, px@, coin@, change@),
{
    let mut text = String::new();
    text.append("NodeDataOrderDiff { user: ");
    text.append(user);
    text.append(", oid: ");
    text.append(number_text(oid).as_str());
    text.append(", px: ");
    text.append(px);
    text.append(", coin: ");
    text.append(coin);
    text.append(", raw_book_diff: ");
    text.append(change);
    text.append(" }");
    assert(text@ =~= diff_line(user@, oid, px@, coin@, change@));
    text
}

/// The text of a diff.
fn write_diff(diff: &NodeDataOrderDiff) -> (text: String)
    ensures
        text@ == diff_text(*diff),
        is_written_plainly(*diff),
{
    write_diff_line(
        write_address(&diff.user).as_str(),
        diff.oid,
        quote(diff.px.as_str()).as_str(),
        quote(diff.coin.as_str()).as_str(),
        write_change(&diff.raw_book_diff).as_str(),
    )
}

/// Whether the marker stands in a text.
fn is_marked(text: &String) -> (marked: bool)
    ensures
        marked == contains_text(text@, resync_marker()),
{
    text_contains(text.as_str(), "[gap-grace-resync]")
}

/// Whether the marker stands in one of the texts of a diff.
fn is_diff_marked(diff: &NodeDataOrderDiff) -> (marked: bool)
    ensures
        marked == is_marked_diff(*diff),
{
    is_marked(&diff.px) || is_marked(&diff.coin) || match &diff.raw_book_diff {
        OrderDiff::New { sz } => is_marked(sz),
        OrderDiff::Update { orig_sz, new_sz } => is_marked(orig_sz) || is_marked(new_sz),
        OrderDiff::Remove => false,
    }
}

impl ListenerError {
    /// The error in words. The marker of a fresh start stands there where the error asks for
    /// one.
    pub fn message(&self) -> (text: String)
        ensures
            text@ == error_text(*self),
            is_error_written_plainly(*self),
            is_ordinary_error(*self) ==> contains_text(text@, resync_marker()) == asks_resync(
                *self,
            ),
    {
        let mut text = String::new();
        match self {
            ListenerError::UnexpectedBlock { expected, got, .. } => {
                text.append("Expecting block ");
                text.append(number_text(*expected).as_str());
                text.append(", got block ");
                text.append(number_text(*got).as_str());
            },
            ListenerError::MissingOpeningStatus { diff } => {
                text.append("Unable to find order opening status ");
                text.append(write_diff(diff).as_str());
            },
            ListenerError::MissingOrder { diff } => {
                text.append("Unable to find order on the book ");
                text.append(write_diff(diff).as_str());
            },
            ListenerError::BadNumber { error } => match error {
                DecimalError::Malformed => text.append("invalid decimal number"),
                DecimalError::TooLarge => text.append("decimal number out of range"),
            },
            ListenerError::QueueOverflow { len } => {
                text.append("BatchQueue overflow: ");
                text.append(number_text(*len as u64).as_str());
                text.append(" unprocessed batches (cap ");
                text.append(number_text(BATCH_QUEUE_CAP as u64).as_str());
                text.append("). Listener consumer is starved.");
            },
            ListenerError::StreamParse { source, reason } => {
                text.append("Stream parse error in closed ");
                text.append(source.name());
                text.append(" file: ");
                text.append(reason.as_str());
            },
        }
        assert(text@ =~= error_text(*self));
        proof {
            if is_ordinary_error(*self) {
                lemma_marked_text(*self);
            }
        }
        text
    }

    /// Whether the error asks for a fresh start from the next snapshot.
    pub fn is_gap_grace_resync(&self) -> (resync: bool)
        ensures
            resync == asks_resync(*self),
    {
        match self {
            ListenerError::MissingOpeningStatus { diff } => is_diff_marked(diff),
            ListenerError::MissingOrder { diff } => is_diff_marked(diff),
            ListenerError::StreamParse { reason, .. } => is_marked(reason),
            ListenerError::UnexpectedBlock { .. } => false,
            ListenerError::BadNumber { .. } => false,
            ListenerError::QueueOverflow { .. } => false,
        }
    }
}

} // verus!
