//! The page resource that blocks come from and go back to.

use crate::policy::immix::block::Block;
use vstd::prelude::*;

verus! {

/// A block on its way back, and whether its pages go back to the operating system at once.
#[derive(Debug, Clone, Copy, PartialEq, Eq, Structural)]
pub struct ReleasedBlock {
    /// The block.
    pub block: Block,
    /// Whether the pages of the block are returned whatever the settings say.
    pub madvise: bool,
}

/// What a page resource holds.
#[verifier::ext_equal]
pub ghost struct PageResourceView {
    /// Released blocks that are still in the queue of the worker that released them.
    pub pending: Seq<ReleasedBlock>,
    /// Released blocks that any thread can acquire.
    pub free: Seq<ReleasedBlock>,
}

/// The blocks that were released.
pub struct BlockPageResource {
    /// Released blocks that are still in the queue of the worker that released them.
    pub pending: Vec<ReleasedBlock>,
    /// Released blocks that any thread can acquire.
    pub free: Vec<ReleasedBlock>,
}

impl View for BlockPageResource {
    type V = PageResourceView;

    open spec fn view(&self) -> PageResourceView {
        PageResourceView { pending: self.pending@, free: self.free@ }
    }
}

impl BlockPageResource {
    /// A page resource to which nothing was released yet.
    pub fn new() -> (pr: Self)
        ensures
            pr@.pending == Seq::<ReleasedBlock>::empty(),
            pr@.free == Seq::<ReleasedBlock>::empty(),
    {
        BlockPageResource { pending: Vec::new(), free: Vec::new() }
    }

    /// Releases a block.
    pub fn release_block_with(&mut self, block: Block, madvise: bool)
        ensures
            final(self)@ == (PageResourceView {
                pending: old(self)@.pending.push(ReleasedBlock { block, madvise }),
                ..old(self)@
            }),
    {
        self.pending.push(ReleasedBlock { block, madvise });
    }

    /// Releases a block whose pages need not go back to the operating system.
    pub fn release_block(&mut self, block: Block)
        ensures
            final(self)@ == (PageResourceView {
                pending: old(self)@.pending.push(ReleasedBlock { block, madvise: false }),
                ..old(self)@
            }),
    {
        self.release_block_with(block, false);
    }

    /// Makes every released block available to all threads.
    pub fn flush_all(&mut self)
        ensures
            final(self)@.pending == Seq::<ReleasedBlock>::empty(),
            final(self)@.free == old(self)@.free + old(self)@.pending,
    {
        self.free.append(&mut self.pending);
    }

    /// Forgets the phases of the free blocks. The free list keeps none.
    pub fn reset_nursery_state(&mut self)
        ensures
            final(self)@ == old(self)@,
    {
    }
}

} // verus!
