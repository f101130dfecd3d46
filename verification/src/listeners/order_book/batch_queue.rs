//! The batches of one stream that wait for the other streams.

use crate::listeners::order_book::error::{ListenerError, BATCH_QUEUE_CAP};
use crate::types::node_data::{Batch, BatchView};
use std::collections::VecDeque;
use vstd::prelude::*;

verus! {

/// The batches that wait, first come first, and the block of the last one that came in.
#[verifier::ext_equal]
pub ghost struct QueueView<T> {
    pub batches: Seq<BatchView<T>>,
    pub last: Option<u64>,
}

impl<T> QueueView<T> {
    pub open spec fn empty() -> QueueView<T> {
        QueueView { batches: Seq::empty(), last: None }
    }

    /// A batch of this block, or of a later one, has come in already.
    pub open spec fn is_stale(self, number: u64) -> bool {
        self.last matches Some(last) && last >= number
    }

    /// The queue has no room.
    pub open spec fn is_full(self) -> bool {
        self.batches.len() >= BATCH_QUEUE_CAP
    }

    /// What becomes of a batch that comes in: dropped if stale, refused if there is no room.
    pub open spec fn push_result(self, batch: BatchView<T>) -> Result<bool, ListenerError> {
        if self.is_stale(batch.number) {
            Ok(false)
        } else if self.is_full() {
            Err(ListenerError::QueueOverflow { len: self.batches.len() as usize })
        } else {
            Ok(true)
        }
    }

    /// The queue after a batch came in.
    pub open spec fn pushed(self, batch: BatchView<T>) -> QueueView<T> {
        if self.push_result(batch) == Ok::<bool, ListenerError>(true) {
            QueueView { batches: self.batches.push(batch), last: Some(batch.number) }
        } else {
            self
        }
    }

    /// The queue without its first batch.
    pub open spec fn popped(self) -> QueueView<T> {
        if self.batches.len() > 0 {
            QueueView { batches: self.batches.drop_first(), ..self }
        } else {
            self
        }
    }

    /// Every batch is of a later block than the one before it, the last one of the latest block
    /// that came in, and there are not too many.
    pub open spec fn well_formed(self) -> bool {
        &&& self.batches.len() <= BATCH_QUEUE_CAP
        &&& forall|i: int, j: int|
            0 <= i < j < self.batches.len() ==> (#[trigger] self.batches[i]).number < (
            #[trigger] self.batches[j]).number
        &&& self.batches.len() > 0 ==> self.last == Some(self.batches.last().number)
    }
}

/// Whatever comes in, the queue stays in block order and within its bound.
pub proof fn lemma_push_well_formed<T>(queue: QueueView<T>, batch: BatchView<T>)
    requires
        queue.well_formed(),
    ensures
        queue.pushed(batch).well_formed(),
{
    let after = queue.pushed(batch);
    assert forall|i: int, j: int| 0 <= i < j < after.batches.len() implies (
    #[trigger] after.batches[i]).number < (#[trigger] after.batches[j]).number by {
        if j == queue.batches.len() && i < queue.batches.len() - 1 {
            assert(queue.batches[i].number < queue.batches[queue.batches.len() - 1].number);
        }
    }
}

/// A queue that gives up its first batch stays in block order and within its bound.
pub proof fn lemma_pop_well_formed<T>(queue: QueueView<T>)
    requires
        queue.well_formed(),
    ensures
        queue.popped().well_formed(),
{
    let after = queue.popped();
    assert forall|i: int, j: int| 0 <= i < j < after.batches.len() implies (
    #[trigger] after.batches[i]).number < (#[trigger] after.batches[j]).number by {
        if queue.batches.len() > 0 {
            assert(after.batches[i] == queue.batches[i + 1]);
            assert(after.batches[j] == queue.batches[j + 1]);
        }
    }
}

/// The batches of one stream that wait.
#[derive(Debug)]
pub struct BatchQueue<T> {
    deque: VecDeque<Batch<T>>,
    last_ts: Option<u64>,
}

impl<T> View for BatchQueue<T> {
    type V = QueueView<T>;

    closed spec fn view(&self) -> QueueView<T> {
        QueueView { batches: self.deque@.map_values(|batch: Batch<T>| batch@), last: self.last_ts }
    }
}

impl<T> BatchQueue<T> {
    pub fn new() -> (queue: BatchQueue<T>)
        ensures
            queue@ == QueueView::<T>::empty(),
            queue@.well_formed(),
    {
        let queue = BatchQueue { deque: VecDeque::new(), last_ts: None };
        assert(queue@ =~= QueueView::<T>::empty());
        queue
    }

    /// Takes a batch in: `Ok(true)` if it was put in, `Ok(false)` if its block is not later than
    /// the last one and it was dropped, an error if there is no room.
    pub fn push(&mut self, block: Batch<T>) -> (pushed: Result<bool, ListenerError>)
        ensures
            pushed == old(self)@.push_result(block@),
            final(self)@ == old(self)@.pushed(block@),
            old(self)@.well_formed() ==> final(self)@.well_formed(),
    {
        proof {
            if self@.well_formed() {
                lemma_push_well_formed(self@, block@);
            }
        }
        if let Some(last_ts) = self.last_ts {
            if last_ts >= block.block_number() {
                return Ok(false);
            }
        }
        if self.deque.len() >= BATCH_QUEUE_CAP {
            return Err(ListenerError::QueueOverflow { len: self.deque.len() });
        }
        let ghost view = block@;
        self.last_ts = Some(block.block_number());
        self.deque.push_back(block);
        assert(self@ =~= old(self)@.pushed(view));
        Ok(true)
    }

    pub fn pop_front(&mut self) -> (first: Option<Batch<T>>)
        ensures
            first is Some <==> old(self)@.batches.len() > 0,
            first matches Some(batch) ==> batch@ == old(self)@.batches[0],
            final(self)@ == old(self)@.popped(),
            old(self)@.well_formed() ==> final(self)@.well_formed(),
    {
        proof {
            if self@.well_formed() {
                lemma_pop_well_formed(self@);
            }
        }
        let first = self.deque.pop_front();
        assert(self@ =~= old(self)@.popped());
        first
    }

    pub fn front(&self) -> (first: Option<&Batch<T>>)
        ensures
            first is Some <==> self@.batches.len() > 0,
            first matches Some(batch) ==> batch@ == self@.batches[0],
    {
        if self.deque.len() > 0 {
            Some(&self.deque[0])
        } else {
            None
        }
    }

    pub fn clear(&mut self)
        ensures
            final(self)@ == QueueView::<T>::empty(),
            final(self)@.well_formed(),
    {
        self.deque.clear();
        self.last_ts = None;
        assert(self@ =~= QueueView::<T>::empty());
    }
}

} // verus!
