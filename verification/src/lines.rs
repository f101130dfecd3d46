//! Splitting data into lines.

use vstd::prelude::*;

verus! {

/// The byte that ends a line.
pub const LINE_FEED: u8 = 10;

/// The byte that may stand before it.
pub const CARRIAGE_RETURN: u8 = 13;

/// Where a line stands, without what ends it.
#[derive(Clone, Copy, Debug, PartialEq, Eq, Structural)]
pub struct LineSpan {
    pub start: usize,
    pub end: usize,
}

/// The first line feed at or after a place, or the end of the data.
pub open spec fn line_feed_from(data: Seq<u8>, at: int) -> int
    decreases data.len() - at,
{
    if at >= data.len() {
        data.len() as int
    } else if data[at] == LINE_FEED {
        at
    } else {
        line_feed_from(data, at + 1)
    }
}

/// Where a line that starts at a place ends: before its line feed, and before the carriage
/// return in front of that. A carriage return at the end of the data belongs to the line.
pub open spec fn line_end(data: Seq<u8>, at: int) -> int {
    let feed = line_feed_from(data, at);
    if feed < data.len() && feed > at && data[feed - 1] == CARRIAGE_RETURN {
        feed - 1
    } else {
        feed
    }
}

/// Where the line after one that starts at a place starts.
pub open spec fn next_line(data: Seq<u8>, at: int) -> int {
    let feed = line_feed_from(data, at);
    if feed < data.len() {
        feed + 1
    } else {
        feed
    }
}

/// The lines from a place on that are not empty, each with its start and its end.
pub open spec fn lines_from(data: Seq<u8>, at: int) -> Seq<(int, int)>
    decreases data.len() - at,
{
    if at >= data.len() {
        Seq::empty()
    } else {
        proof {
            lemma_line_feed(data, at);
        }
        let rest = lines_from(data, next_line(data, at));
        if line_end(data, at) > at {
            seq![(at, line_end(data, at))] + rest
        } else {
            rest
        }
    }
}

/// The lines of some data that are not empty.
pub open spec fn lines_of(data: Seq<u8>) -> Seq<(int, int)> {
    lines_from(data, 0)
}

/// The start and the end of a line.
pub open spec fn span_of(span: LineSpan) -> (int, int) {
    (span.start as int, span.end as int)
}

/// A line feed that is found stands at or after the place, and none stands between.
pub proof fn lemma_line_feed(data: Seq<u8>, at: int)
    ensures
        at <= data.len() ==> at <= line_feed_from(data, at) <= data.len(),
        line_feed_from(data, at) < data.len() ==> data[line_feed_from(data, at)] == LINE_FEED,
        forall|i: int| at <= i < line_feed_from(data, at) ==> data[i] != LINE_FEED,
    decreases data.len() - at,
{
    if at < data.len() && data[at] != LINE_FEED {
        lemma_line_feed(data, at + 1);
    }
}

/// Every line lies within the data and holds something, no line holds a line feed, and each
/// starts after the end of the one before it.
pub proof fn lemma_lines_from(data: Seq<u8>, at: int)
    requires
        0 <= at,
    ensures
        forall|i: int|
            0 <= i < lines_from(data, at).len() ==> at <= (#[trigger] lines_from(data, at)[i]).0
                < lines_from(data, at)[i].1 <= data.len(),
        forall|i: int, k: int|
            0 <= i < lines_from(data, at).len() && (#[trigger] lines_from(data, at)[i]).0 <= k
                < lines_from(data, at)[i].1 ==> #[trigger] data[k] != LINE_FEED,
        forall|i: int, j: int|
            0 <= i < j < lines_from(data, at).len() ==> (#[trigger] lines_from(data, at)[i]).1 < (
            #[trigger] lines_from(data, at)[j]).0,
    decreases data.len() - at,
{
    if at < data.len() {
        lemma_line_feed(data, at);
        lemma_lines_from(data, next_line(data, at));
        let rest = lines_from(data, next_line(data, at));
        let lines = lines_from(data, at);
        if line_end(data, at) > at {
            assert(lines == seq![(at, line_end(data, at))] + rest);
            assert forall|i: int| 0 <= i < lines.len() implies at <= (#[trigger] lines[i]).0
                < lines[i].1 <= data.len() by {
                if i > 0 {
                    assert(lines[i] == rest[i - 1]);
                }
            }
            assert forall|i: int, k: int|
                0 <= i < lines.len() && (#[trigger] lines[i]).0 <= k < lines[i].1 implies
                #[trigger] data[k] != LINE_FEED by {
                if i > 0 {
                    assert(lines[i] == rest[i - 1]);
                }
            }
            assert forall|i: int, j: int| 0 <= i < j < lines.len() implies (
            #[trigger] lines[i]).1 < (#[trigger] lines[j]).0 by {
                assert(lines[j] == rest[j - 1]);
                if i > 0 {
                    assert(lines[i] == rest[i - 1]);
                }
            }
        }
    }
}

/// The lines with their places counted from another place on.
pub open spec fn moved_back(lines: Seq<(int, int)>, by: int) -> Seq<(int, int)> {
    lines.map_values(|line: (int, int)| (line.0 - by, line.1 - by))
}

proof fn lemma_line_feed_skip(data: Seq<u8>, skipped: int, at: int)
    requires
        0 <= skipped <= at,
        skipped <= data.len(),
    ensures
        line_feed_from(data.skip(skipped), at - skipped) == line_feed_from(data, at) - skipped,
    decreases data.len() - at,
{
    if at < data.len() {
        assert(data.skip(skipped)[at - skipped] == data[at]);
        if data[at] != LINE_FEED {
            lemma_line_feed_skip(data, skipped, at + 1);
        }
    }
}

proof fn lemma_lines_skip(data: Seq<u8>, skipped: int, at: int)
    requires
        0 <= skipped <= at,
        skipped <= data.len(),
    ensures
        lines_from(data.skip(skipped), at - skipped) == moved_back(lines_from(data, at), skipped),
    decreases data.len() - at,
{
    let rest = data.skip(skipped);
    if at < data.len() {
        lemma_line_feed(data, at);
        lemma_line_feed_skip(data, skipped, at);
        let feed = line_feed_from(data, at);
        if feed > at {
            assert(rest[feed - 1 - skipped] == data[feed - 1]);
        }
        lemma_lines_skip(data, skipped, next_line(data, at));
        assert(next_line(rest, at - skipped) == next_line(data, at) - skipped);
        assert(line_end(rest, at - skipped) == line_end(data, at) - skipped);
    }
    assert(lines_from(rest, at - skipped) =~= moved_back(lines_from(data, at), skipped));
}

proof fn lemma_lines_from_start(data: Seq<u8>, at: int, k: int)
    requires
        0 <= at,
        0 <= k < lines_from(data, at).len(),
    ensures
        lines_from(data, lines_from(data, at)[k].0) == lines_from(data, at).skip(k),
    decreases data.len() - at,
{
    if at < data.len() {
        lemma_line_feed(data, at);
        let lines = lines_from(data, at);
        let next = next_line(data, at);
        let rest = lines_from(data, next);
        if line_end(data, at) > at {
            assert(lines == seq![(at, line_end(data, at))] + rest);
            if k > 0 {
                lemma_lines_from_start(data, next, k - 1);
                assert(lines[k] == rest[k - 1]);
                assert(lines.skip(k) =~= rest.skip(k - 1));
            } else {
                assert(lines.skip(0) =~= lines);
            }
        } else {
            lemma_lines_from_start(data, next, k);
        }
    }
}

/// Data that is read again from the start of a line on has that line and the ones after it.
pub proof fn lemma_read_again_from_line(data: Seq<u8>, k: int)
    requires
        0 <= k < lines_of(data).len(),
    ensures
        ({
            let start = lines_of(data)[k].0;
            &&& 0 <= start < data.len()
            &&& lines_of(data.skip(start)) == moved_back(lines_of(data).skip(k), start)
        }),
{
    let start = lines_of(data)[k].0;
    lemma_lines_from(data, 0);
    lemma_lines_from_start(data, 0, k);
    lemma_lines_skip(data, start, start);
}

/// A line is whole: it starts at the start of the data or behind a line feed, and ends at the end
/// of the data, or before a line feed and the carriage return in front of it, where one is there.
pub open spec fn is_whole_line(data: Seq<u8>, start: int, end: int) -> bool {
    &&& 0 <= start < end <= data.len()
    &&& start > 0 ==> data[start - 1] == 10
    &&& end < data.len() ==> {
        ||| data[end] == 10 && data[end - 1] != 13
        ||| data[end] == 13 && end + 1 < data.len() && data[end + 1] == 10
    }
}

/// A byte ends a line: a line feed, or a carriage return right before one.
pub open spec fn ends_line(data: Seq<u8>, at: int) -> bool {
    ||| data[at] == 10
    ||| data[at] == 13 && at + 1 < data.len() && data[at + 1] == 10
}

/// A byte stands in one of some lines.
pub open spec fn is_in_a_line(lines: Seq<(int, int)>, at: int) -> bool {
    exists|k: int| 0 <= k < lines.len() && (#[trigger] lines[k]).0 <= at < lines[k].1
}

proof fn lemma_lines_from_are_whole(data: Seq<u8>, at: int)
    requires
        0 <= at,
        0 < at <= data.len() ==> data[at - 1] == 10,
    ensures
        forall|k: int|
            0 <= k < lines_from(data, at).len() ==> is_whole_line(
                data,
                (#[trigger] lines_from(data, at)[k]).0,
                lines_from(data, at)[k].1,
            ),
        forall|i: int|
            at <= i < data.len() && !#[trigger] ends_line(data, i) ==> is_in_a_line(
                lines_from(data, at),
                i,
            ),
    decreases data.len() - at,
{
    if at < data.len() {
        lemma_line_feed(data, at);
        let feed = line_feed_from(data, at);
        let next = next_line(data, at);
        if feed < data.len() {
            lemma_lines_from_are_whole(data, next);
        }
        let rest = lines_from(data, next);
        let lines = lines_from(data, at);
        let kept: int = if line_end(data, at) > at {
            1
        } else {
            0
        };
        assert(forall|k: int| 0 <= k < rest.len() ==> #[trigger] lines[k + kept] == rest[k]);
        assert forall|k: int| 0 <= k < lines.len() implies is_whole_line(
            data,
            (#[trigger] lines[k]).0,
            lines[k].1,
        ) by {
            if k >= kept {
                assert(lines[k] == rest[k - kept]);
            } else {
                assert(lines[0] == (at, line_end(data, at)));
            }
        }
        assert forall|i: int| at <= i < data.len() && !#[trigger] ends_line(
            data,
            i,
        ) implies is_in_a_line(lines, i) by {
            if i >= next {
                let k = choose|k: int|
                    0 <= k < rest.len() && (#[trigger] rest[k]).0 <= i < rest[k].1;
                assert(lines[k + kept] == rest[k]);
            } else {
                assert(i < line_end(data, at));
                assert(lines[0] == (at, line_end(data, at)));
            }
        }
    }
}

/// The lines of some data are whole, and every byte stands in one of them, but for those that end
/// a line.
pub proof fn lemma_lines_hold_all_bytes(data: Seq<u8>)
    ensures
        forall|k: int|
            0 <= k < lines_of(data).len() ==> is_whole_line(
                data,
                (#[trigger] lines_of(data)[k]).0,
                lines_of(data)[k].1,
            ),
        forall|i: int|
            0 <= i < data.len() && !#[trigger] ends_line(data, i) ==> is_in_a_line(
                lines_of(data),
                i,
            ),
{
    lemma_lines_from_are_whole(data, 0);
}

/// Splits data into its lines, without those that are empty.
pub fn split_lines(data: &[u8]) -> (spans: Vec<LineSpan>)
    ensures
        spans@.map_values(|span: LineSpan| span_of(span)) == lines_of(data@),
{
    let ghost all = data@;
    let mut spans: Vec<LineSpan> = Vec::new();
    let mut at: usize = 0;
    assert(spans@.map_values(|span: LineSpan| span_of(span)) + lines_from(all, 0) =~= lines_of(
        all,
    ));
    while at < data.len()
        invariant
            all == data@,
            at <= all.len(),
            spans@.map_values(|span: LineSpan| span_of(span)) + lines_from(all, at as int)
                == lines_of(all),
        decreases all.len() - at,
    {
        let mut feed: usize = at;
        while feed < data.len() && data[feed] != LINE_FEED
            invariant
                all == data@,
                at <= feed <= all.len(),
                line_feed_from(all, at as int) == line_feed_from(all, feed as int),
            decreases all.len() - feed,
        {
            feed = feed + 1;
        }
        assert(line_feed_from(all, at as int) == feed);
        let end: usize = if feed < data.len() && feed > at && data[feed - 1] == CARRIAGE_RETURN {
            feed - 1
        } else {
            feed
        };
        let ghost before = spans@.map_values(|span: LineSpan| span_of(span));
        let ghost rest = lines_from(all, next_line(all, at as int));
        if end > at {
            spans.push(LineSpan { start: at, end });
            assert(spans@.map_values(|span: LineSpan| span_of(span)) =~= before.push(
                (at as int, end as int),
            ));
            assert(before.push((at as int, end as int)) + rest =~= before + (seq![
                (at as int, end as int),
            ] + rest));
        }
        at = if feed < data.len() {
            feed + 1
        } else {
            feed
        };
    }
    assert(lines_from(all, at as int) =~= Seq::empty());
    assert(spans@.map_values(|span: LineSpan| span_of(span)) =~= lines_of(all));
    spans
}

} // verus!
