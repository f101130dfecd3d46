//! What holds of the work on lines, however they come.

use crate::listeners::order_book::model::{
    event_taken, lines_run, run_lines, stream_run, EventView, LinesEnd, LinesRun, ListenerView,
};
use crate::types::node_data::EventSource;
use vstd::prelude::*;

verus! {

/// The end of the work on some lines that come after others.
pub open spec fn moved_on(end: LinesEnd, by: nat) -> LinesEnd {
    match end {
        LinesEnd::Torn(at) => LinesEnd::Torn(at + by),
        _ => end,
    }
}

/// It makes no difference in how many pieces lines come, whatever is done with each.
pub proof fn lemma_pieces<F>(
    listener: ListenerView<F>,
    first: Seq<Option<EventView>>,
    second: Seq<Option<EventView>>,
    take: spec_fn(ListenerView<F>, EventView) -> LinesRun<F>,
)
    requires
        run_lines(listener, first, take).end == LinesEnd::Through,
        forall|listener: ListenerView<F>, event: EventView|
            !((#[trigger] take(listener, event)).end is Torn),
    ensures
        ({
            let whole = run_lines(listener, first + second, take);
            let rest = run_lines(run_lines(listener, first, take).listener, second, take);
            whole == (LinesRun {
                listener: rest.listener,
                end: moved_on(rest.end, first.len()),
            })
        }),
    decreases second.len(),
{
    if second.len() == 0 {
        assert(first + second =~= first);
    } else {
        lemma_pieces(listener, first, second.drop_last(), take);
        assert((first + second).drop_last() =~= first + second.drop_last());
        assert((first + second).last() == second.last());
    }
}

/// It makes no difference in how many pieces the lines of a stream come.
pub proof fn lemma_lines_in_pieces<F>(
    listener: ListenerView<F>,
    first: Seq<Option<EventView>>,
    second: Seq<Option<EventView>>,
    source: EventSource,
)
    requires
        lines_run(listener, first, source).end == LinesEnd::Through,
    ensures
        ({
            let whole = lines_run(listener, first + second, source);
            let rest = lines_run(lines_run(listener, first, source).listener, second, source);
            whole == (LinesRun {
                listener: rest.listener,
                end: moved_on(rest.end, first.len()),
            })
        }),
{
    let take = |listener: ListenerView<F>, event: EventView|
        event_taken(listener.line_read(source, event), event);
    lemma_pieces(listener, first, second, take);
}

/// Nor does it for the lines of a closed file.
pub proof fn lemma_stream_in_pieces<F>(
    listener: ListenerView<F>,
    first: Seq<Option<EventView>>,
    second: Seq<Option<EventView>>,
)
    requires
        stream_run(listener, first).end == LinesEnd::Through,
    ensures
        ({
            let whole = stream_run(listener, first + second);
            let rest = stream_run(stream_run(listener, first).listener, second);
            whole == (LinesRun {
                listener: rest.listener,
                end: moved_on(rest.end, first.len()),
            })
        }),
{
    let take = |listener: ListenerView<F>, event: EventView| event_taken(listener, event);
    lemma_pieces(listener, first, second, take);
}

/// The lines before one that cannot be read are taken in as if it were not there, and what
/// comes after it is not looked at.
pub proof fn lemma_torn_line_stops<F>(
    listener: ListenerView<F>,
    before: Seq<Option<EventView>>,
    source: EventSource,
)
    requires
        lines_run(listener, before, source).end == LinesEnd::Through,
    ensures
        lines_run(listener, before.push(None), source) == (LinesRun {
            listener: lines_run(listener, before, source).listener,
            end: LinesEnd::Torn(before.len() as int),
        }),
{
    assert(before.push(None).drop_last() =~= before);
}

/// Two listeners are the same but for their files and what is noted of those.
pub open spec fn same_but_files<F>(a: ListenerView<F>, b: ListenerView<F>) -> bool {
    a == (ListenerView {
        fills: a.fills,
        order_statuses: a.order_statuses,
        order_diffs: a.order_diffs,
        first_batches: a.first_batches,
        ..b
    })
}

proof fn lemma_files_queued<F>(a: ListenerView<F>, b: ListenerView<F>, event: EventView)
    requires
        same_but_files(a, b),
    ensures
        same_but_files(a.queued(event), b.queued(event)),
        a.queue_result(event) == b.queue_result(event),
{
}

proof fn lemma_files_advanced<F>(a: ListenerView<F>, b: ListenerView<F>)
    requires
        same_but_files(a, b),
    ensures
        same_but_files(a.advanced(), b.advanced()),
        a.advance_result() == b.advance_result(),
{
}

proof fn lemma_files_taken<F>(a: ListenerView<F>, b: ListenerView<F>, event: EventView)
    requires
        same_but_files(a, b),
    ensures
        same_but_files(event_taken(a, event).listener, event_taken(b, event).listener),
        event_taken(a, event).end == event_taken(b, event).end,
{
    lemma_files_queued(a, b, event);
    lemma_files_advanced(a.queued(event), b.queued(event));
    assert(a.receive_result(event) == b.receive_result(event));
    assert(same_but_files(a.received(event), b.received(event)));
}

/// Lines that can all be read do the same to the listener whether their file is still written or
/// closed, but for what is noted of the file.
pub proof fn lemma_stream_as_data<F>(
    listener: ListenerView<F>,
    lines: Seq<Option<EventView>>,
    source: EventSource,
)
    requires
        forall|i: int| 0 <= i < lines.len() ==> #[trigger] lines[i] is Some,
    ensures
        ({
            let stream = stream_run(listener, lines);
            let data = lines_run(listener, lines, source);
            &&& same_but_files(stream.listener, data.listener)
            &&& stream.end == data.end
        }),
    decreases lines.len(),
{
    if lines.len() > 0 {
        let init = lines.drop_last();
        assert forall|i: int| 0 <= i < init.len() implies #[trigger] init[i] is Some by {
            assert(init[i] == lines[i]);
        }
        assert(lines[lines.len() - 1] is Some);
        lemma_stream_as_data(listener, init, source);
        let event = lines.last()->0;
        let stream = stream_run(listener, init);
        let data = lines_run(listener, init, source);
        if stream.end == LinesEnd::Through {
            let read = data.listener.line_read(source, event);
            assert(same_but_files(stream.listener, read));
            lemma_files_taken(stream.listener, read, event);
        }
    }
}

} // verus!
