//! Which blocks the mutators were given in the current phase.

use crate::policy::immix::block::Block;
use vstd::prelude::*;

verus! {

/// What the block-allocation state holds.
#[verifier::ext_equal]
pub ghost struct BlockAllocationView {
    /// The clean blocks that were handed out to mutators in the current phase.
    pub nursery_blocks: Seq<Block>,
    /// How many of them were promoted in place.
    pub in_place_promoted_nursery_blocks: usize,
}

/// The blocks that mutators were given in the current phase.
pub struct BlockAllocation {
    /// The clean blocks that were handed out to mutators in the current phase.
    pub nursery_blocks: Vec<Block>,
    /// How many of them were promoted in place.
    pub in_place_promoted_nursery_blocks: usize,
}

impl View for BlockAllocation {
    type V = BlockAllocationView;

    open spec fn view(&self) -> BlockAllocationView {
        BlockAllocationView {
            nursery_blocks: self.nursery_blocks@,
            in_place_promoted_nursery_blocks: self.in_place_promoted_nursery_blocks,
        }
    }
}

impl BlockAllocation {
    /// No block was handed out yet.
    pub fn new() -> (allocation: Self)
        ensures
            allocation@ == (BlockAllocationView {
                nursery_blocks: Seq::empty(),
                in_place_promoted_nursery_blocks: 0,
            }),
    {
        BlockAllocation { nursery_blocks: Vec::new(), in_place_promoted_nursery_blocks: 0 }
    }

    /// Records a clean block that was handed out. Blocks for copies are not nursery blocks.
    pub fn record_clean_block(&mut self, block: Block, copy: bool)
        ensures
            final(self)@ == (BlockAllocationView {
                nursery_blocks: if copy {
                    old(self)@.nursery_blocks
                } else {
                    old(self)@.nursery_blocks.push(block)
                },
                ..old(self)@
            }),
    {
        if !copy {
            self.nursery_blocks.push(block);
        }
    }

    /// Counts a block that was promoted in place.
    pub fn note_promoted(&mut self)
        ensures
            final(self)@ == (BlockAllocationView {
                in_place_promoted_nursery_blocks: old(
                    self,
                )@.in_place_promoted_nursery_blocks.wrapping_add(1),
                ..old(self)@
            }),
    {
        self.in_place_promoted_nursery_blocks =
        self.in_place_promoted_nursery_blocks.wrapping_add(1);
    }

    /// Starts a new phase, in which no block was handed out yet.
    pub fn reset_nursery_counters(&mut self)
        ensures
            final(self)@ == (BlockAllocationView {
                nursery_blocks: Seq::empty(),
                in_place_promoted_nursery_blocks: 0,
            }),
    {
        self.nursery_blocks = Vec::new();
        self.in_place_promoted_nursery_blocks = 0;
    }
}

} // verus!
