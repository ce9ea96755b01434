//! Unbounded queues shared between workers.
//!
//! The queues are those of the `crossbeam` crate. What is stated here of each operation holds
//! while the caller has the queue to itself.

use crossbeam::queue::SegQueue;
use vstd::prelude::*;

verus! {

/// `crossbeam::queue::SegQueue`, an unbounded first-in first-out queue.
#[verifier::external_type_specification]
#[verifier::external_body]
#[verifier::reject_recursive_types(T)]
pub struct ExSegQueue<T>(SegQueue<T>);

/// The blocks in a queue, oldest first: the address of each, and whether it must be freed.
pub uninterp spec fn queued_blocks(queue: SegQueue<(usize, bool)>) -> Seq<(usize, bool)>;

/// The batches of object addresses in a queue, oldest first.
pub uninterp spec fn queued_batches(queue: SegQueue<Vec<usize>>) -> Seq<Vec<usize>>;

/// `SegQueue::new`: an empty queue of blocks.
#[verifier::external_body]
pub(crate) fn new_block_queue() -> (queue: SegQueue<(usize, bool)>)
    ensures
        queued_blocks(queue) == Seq::<(usize, bool)>::empty(),
{
    SegQueue::new()
}

/// `SegQueue::push`: the block becomes the youngest entry.
#[verifier::external_body]
pub(crate) fn push_block(queue: &mut SegQueue<(usize, bool)>, block: (usize, bool))
    ensures
        queued_blocks(*final(queue)) == queued_blocks(*old(queue)).push(block),
{
    queue.push(block)
}

/// `SegQueue::pop`: takes the oldest entry, or returns `None` iff there is none.
#[verifier::external_body]
pub(crate) fn pop_block(queue: &mut SegQueue<(usize, bool)>) -> (block: Option<(usize, bool)>)
    ensures
        queued_blocks(*old(queue)).len() == 0 ==> block is None && queued_blocks(*final(queue))
            == queued_blocks(*old(queue)),
        queued_blocks(*old(queue)).len() > 0 ==> block == Some(queued_blocks(*old(queue))[0])
            && queued_blocks(*final(queue)) == queued_blocks(*old(queue)).drop_first(),
{
    queue.pop()
}

/// `SegQueue::len`: the number of entries.
#[verifier::external_body]
pub(crate) fn count_blocks(queue: &SegQueue<(usize, bool)>) -> (len: usize)
    ensures
        len == queued_blocks(*queue).len(),
{
    queue.len()
}

/// `SegQueue::new`: an empty queue of batches.
#[verifier::external_body]
pub(crate) fn new_batch_queue() -> (queue: SegQueue<Vec<usize>>)
    ensures
        queued_batches(queue) == Seq::<Vec<usize>>::empty(),
{
    SegQueue::new()
}

/// `SegQueue::push`: the batch becomes the youngest entry.
#[verifier::external_body]
pub(crate) fn push_batch(queue: &mut SegQueue<Vec<usize>>, batch: Vec<usize>)
    ensures
        queued_batches(*final(queue)) == queued_batches(*old(queue)).push(batch),
{
    queue.push(batch)
}

/// `SegQueue::pop`: takes the oldest entry, or returns `None` iff there is none.
#[verifier::external_body]
pub(crate) fn pop_batch(queue: &mut SegQueue<Vec<usize>>) -> (batch: Option<Vec<usize>>)
    ensures
        queued_batches(*old(queue)).len() == 0 ==> batch is None && queued_batches(*final(queue))
            == queued_batches(*old(queue)),
        queued_batches(*old(queue)).len() > 0 ==> batch == Some(queued_batches(*old(queue))[0])
            && queued_batches(*final(queue)) == queued_batches(*old(queue)).drop_first(),
{
    queue.pop()
}

/// `SegQueue::len`: the number of entries.
#[verifier::external_body]
pub(crate) fn count_batches(queue: &SegQueue<Vec<usize>>) -> (len: usize)
    ensures
        len == queued_batches(*queue).len(),
{
    queue.len()
}

/// The batches in a queue, oldest first, each as the addresses that it holds.
pub open spec fn batches(queue: SegQueue<Vec<usize>>) -> Seq<Seq<usize>> {
    queued_batches(queue).map_values(|batch: Vec<usize>| batch@)
}

} // verus!
