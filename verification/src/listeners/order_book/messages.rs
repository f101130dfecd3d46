//! What goes into the listener, and what comes out of it.

use crate::listeners::order_book::error::source_text;
use crate::listeners::order_book::l2::L2Snapshots;
use crate::listeners::order_book::model::{EventView, MessageView, PairView};
use crate::text::{decimal_text, number_text};
use crate::types::node_data::{
    Batch, EventSource, NodeDataFill, NodeDataOrderDiff, NodeDataOrderStatus,
};
use vstd::prelude::*;

verus! {

/// The events of one block in one stream.
#[derive(Debug)]
pub enum EventBatch {
    Orders(Batch<NodeDataOrderStatus>),
    BookDiffs(Batch<NodeDataOrderDiff>),
    Fills(Batch<NodeDataFill>),
}

impl View for EventBatch {
    type V = EventView;

    open spec fn view(&self) -> EventView {
        match self {
            EventBatch::Orders(batch) => EventView::Orders(batch@),
            EventBatch::BookDiffs(batch) => EventView::BookDiffs(batch@),
            EventBatch::Fills(batch) => EventView::Fills(batch@),
        }
    }
}

/// What the listener tells its subscribers.
#[derive(Debug)]
pub enum InternalMessage {
    Snapshot { l2_snapshots: L2Snapshots, time: u64 },
    Fills { batch: Batch<NodeDataFill> },
    L4BookUpdates {
        diff_batch: Batch<NodeDataOrderDiff>,
        status_batch: Batch<NodeDataOrderStatus>,
    },
}

impl View for InternalMessage {
    type V = MessageView;

    open spec fn view(&self) -> MessageView {
        match self {
            InternalMessage::Snapshot { l2_snapshots, time } => MessageView::Snapshot {
                views: l2_snapshots@,
                time: *time,
            },
            InternalMessage::Fills { batch } => MessageView::Fills { batch: batch@ },
            InternalMessage::L4BookUpdates { diff_batch, status_batch } => {
                MessageView::L4BookUpdates {
                    diff_batch: diff_batch@,
                    status_batch: status_batch@,
                }
            },
        }
    }
}

impl EventBatch {
    /// The block of the events.
    pub fn block_number(&self) -> (number: u64)
        ensures
            number == self@.number(),
    {
        match self {
            EventBatch::Orders(batch) => batch.block_number(),
            EventBatch::BookDiffs(batch) => batch.block_number(),
            EventBatch::Fills(batch) => batch.block_number(),
        }
    }
}

/// The first batch of a new file of a stream.
#[derive(Debug)]
pub struct FirstBatch {
    pub event_source: EventSource,
    pub path: String,
    pub block: u64,
    /// The height of the state when the batch came.
    pub state_height: Option<u64>,
}

/// A height that may not be there, in words.
pub open spec fn height_text(height: Option<u64>) -> Seq<char> {
    match height {
        Some(height) => "Some("@ + decimal_text(height as nat) + ")"@,
        None => "None"@,
    }
}

/// The text of a report of a first batch.
pub open spec fn first_batch_text(report: FirstBatch) -> Seq<char> {
    "[hour-rollover-diag] live-file first batch: source="@ + source_text(report.event_source) + " new_file="@
        + report.path@ + " first_block="@ + decimal_text(report.block as nat) + " state.height="@
        + height_text(report.state_height)
}

impl FirstBatch {
    /// The report in words.
    pub fn message(&self) -> (text: String)
        ensures
            text@ == first_batch_text(*self),
    {
        let mut text = String::new();
        text.append("[hour-rollover-diag] live-file first batch: source=");
        text.append(self.event_source.name());
        text.append(" new_file=");
        text.append(self.path.as_str());
        text.append(" first_block=");
        text.append(number_text(self.block).as_str());
        text.append(" state.height=");
        match self.state_height {
            Some(height) => {
                text.append("Some(");
                text.append(number_text(height).as_str());
                text.append(")");
            },
            None => {
                text.append("None");
            },
        }
        assert(text@ =~= first_batch_text(*self));
        text
    }
}

/// The statuses and the diffs of one block.
#[derive(Debug)]
pub struct BlockPair {
    statuses: Batch<NodeDataOrderStatus>,
    diffs: Batch<NodeDataOrderDiff>,
}

impl View for BlockPair {
    type V = PairView;

    closed spec fn view(&self) -> PairView {
        PairView { statuses: self.statuses@, diffs: self.diffs@ }
    }
}

impl BlockPair {
    #[verifier::type_invariant]
    spec fn same_block(self) -> bool {
        self.statuses@.number == self.diffs@.number
    }

    pub fn new(
        statuses: Batch<NodeDataOrderStatus>,
        diffs: Batch<NodeDataOrderDiff>,
    ) -> (pair: BlockPair)
        requires
            statuses@.number == diffs@.number,
        ensures
            pair@.statuses == statuses@,
            pair@.diffs == diffs@,
    {
        BlockPair { statuses, diffs }
    }

    pub fn into_parts(self) -> (parts: (Batch<NodeDataOrderStatus>, Batch<NodeDataOrderDiff>))
        ensures
            parts.0@ == self@.statuses,
            parts.1@ == self@.diffs,
            parts.0@.number == parts.1@.number,
    {
        proof {
            use_type_invariant(&self);
        }
        (self.statuses, self.diffs)
    }
}

impl Clone for BlockPair {
    fn clone(&self) -> (copy: BlockPair)
        ensures
            copy@ == self@,
    {
        proof {
            use_type_invariant(self);
        }
        BlockPair { statuses: self.statuses.clone(), diffs: self.diffs.clone() }
    }
}

} // verus!
