//! Blocks: the unit in which the Immix space acquires and releases memory.

use crate::policy::immix::block_allocation::BlockAllocationView;
use crate::policy::immix::defrag::{Histogram, NUM_BINS};
use crate::policy::immix::immixspace::{ImmixSpace, ImmixSpaceView};
use crate::policy::immix::line::Line;
use crate::util::address::Address;
use crate::util::constants::{
    BYTES_IN_BLOCK, BYTES_IN_CHUNK, BYTES_IN_LINE, CELLS_IN_BLOCK, CELLS_IN_LINE, LINES_IN_BLOCK,
};
use crate::util::linear_scan::Chunk;
use crate::util::metadata::{HeapMetadata, MetadataView};
use crate::util::side_metadata::{filled, zero_range};
use crate::util::vm::MetadataLocation;
use vstd::prelude::*;

verus! {

/// The block allocation state.
#[derive(Debug, Clone, Copy, PartialEq, Eq, Structural)]
pub enum BlockState {
    /// The block is not allocated.
    Unallocated,
    /// The block is allocated but not marked.
    Unmarked,
    /// The block is allocated and marked.
    Marked,
    /// The block is marked as reusable.
    Reusable {
        /// How many of its lines are taken.
        unavailable_lines: u8,
    },
}

impl BlockState {
    const MARK_UNALLOCATED: u8 = 0;

    const MARK_UNMARKED: u8 = 255;

    const MARK_MARKED: u8 = 254;

    /// The state that a byte of the mark table stands for.
    pub open spec fn of_byte(byte: u8) -> BlockState {
        if byte == 0 {
            BlockState::Unallocated
        } else if byte == 255 {
            BlockState::Unmarked
        } else if byte == 254 {
            BlockState::Marked
        } else {
            BlockState::Reusable { unavailable_lines: byte }
        }
    }

    /// The byte of the mark table that stands for the state.
    pub open spec fn to_byte(self) -> u8 {
        match self {
            BlockState::Unallocated => 0,
            BlockState::Unmarked => 255,
            BlockState::Marked => 254,
            BlockState::Reusable { unavailable_lines } => unavailable_lines,
        }
    }

    /// Whether the block is reusable.
    pub fn is_reusable(&self) -> (reusable: bool)
        ensures
            reusable == (self is Reusable),
    {
        matches!(self, BlockState::Reusable { .. })
    }
}

impl From<u8> for BlockState {
    fn from(state: u8) -> (block_state: Self) {
        if state == BlockState::MARK_UNALLOCATED {
            BlockState::Unallocated
        } else if state == BlockState::MARK_UNMARKED {
            BlockState::Unmarked
        } else if state == BlockState::MARK_MARKED {
            BlockState::Marked
        } else {
            BlockState::Reusable { unavailable_lines: state }
        }
    }
}

impl vstd::std_specs::convert::FromSpecImpl<u8> for BlockState {
    open spec fn obeys_from_spec() -> bool {
        true
    }

    open spec fn from_spec(state: u8) -> Self {
        BlockState::of_byte(state)
    }
}

impl From<BlockState> for u8 {
    fn from(state: BlockState) -> (byte: Self) {
        match state {
            BlockState::Unallocated => BlockState::MARK_UNALLOCATED,
            BlockState::Unmarked => BlockState::MARK_UNMARKED,
            BlockState::Marked => BlockState::MARK_MARKED,
            BlockState::Reusable { unavailable_lines } => unavailable_lines,
        }
    }
}

impl vstd::std_specs::convert::FromSpecImpl<BlockState> for u8 {
    open spec fn obeys_from_spec() -> bool {
        true
    }

    open spec fn from_spec(state: BlockState) -> Self {
        state.to_byte()
    }
}

/// Every byte is the encoding of the state it stands for.
pub proof fn law_state_of_byte_round_trips(byte: u8)
    ensures
        BlockState::of_byte(byte).to_byte() == byte,
{
}

/// A state survives its encoding, unless it claims a number of taken lines whose byte is given to
/// another state.
pub proof fn law_byte_of_state_round_trips(state: BlockState)
    requires
        state matches BlockState::Reusable { unavailable_lines } ==> 0 < unavailable_lines < 254,
    ensures
        BlockState::of_byte(state.to_byte()) == state,
{
}

/// A block of the Immix space.
#[derive(Debug, Clone, Copy, PartialEq, Eq, Structural)]
pub struct Block(pub Address);

impl Block {
    /// Bytes in a block.
    pub const BYTES: usize = BYTES_IN_BLOCK;

    /// Pages in a block.
    pub const PAGES: usize = 8;

    /// Lines in a block.
    pub const LINES: usize = LINES_IN_BLOCK;

    const DEFRAG_SOURCE_STATE: u8 = 255;

    /// The address of the block as an integer.
    pub open spec fn addr(self) -> int {
        self.0.0 as int
    }

    /// The block lies in the heap and is block aligned.
    pub open spec fn valid(self, m: MetadataView) -> bool {
        m.in_heap(self.addr()) && self.addr() % BYTES_IN_BLOCK as int == 0
    }

    /// The position of the block in the per-block tables.
    pub open spec fn index(self, m: MetadataView) -> int {
        m.block(self.addr())
    }

    /// The first position of the block in the per-object tables.
    pub open spec fn first_cell(self, m: MetadataView) -> int {
        self.index(m) * CELLS_IN_BLOCK
    }

    /// The position after the block in the per-object tables.
    pub open spec fn end_cell(self, m: MetadataView) -> int {
        (self.index(m) + 1) * CELLS_IN_BLOCK
    }

    /// The first position of the block in the per-line tables.
    pub open spec fn first_line(self, m: MetadataView) -> int {
        self.index(m) * LINES_IN_BLOCK
    }

    /// The position after the block in the per-line tables.
    pub open spec fn end_line_index(self, m: MetadataView) -> int {
        (self.index(m) + 1) * LINES_IN_BLOCK
    }

    /// The state of the block.
    pub open spec fn state(self, m: MetadataView) -> BlockState {
        BlockState::of_byte(m.block_mark[self.index(m)])
    }

    /// The block is a source for defragmentation.
    pub open spec fn defrag_source(self, m: MetadataView) -> bool {
        m.block_defrag[self.index(m)] == 255
    }

    /// Every reference count in the block is zero.
    pub open spec fn all_counts_zero(self, m: MetadataView) -> bool {
        zero_range(m.rc, self.first_cell(m), self.end_cell(m))
    }

    /// The block was handed out, clean or for reuse, in the current phase.
    pub open spec fn in_current_phase(self, m: MetadataView) -> bool {
        m.block_epoch[self.index(m)] == m.global_phase_epoch
    }

    /// The tables after the block was stamped with the current phase.
    pub open spec fn stamped(self, m: MetadataView) -> MetadataView {
        MetadataView {
            block_epoch: m.block_epoch.update(self.index(m), m.global_phase_epoch),
            ..m
        }
    }

    /// The phase after the current one. The phase after the last one is the first.
    pub open spec fn next_phase(m: MetadataView) -> u8 {
        if m.global_phase_epoch == 254 {
            1
        } else {
            (m.global_phase_epoch + 1) as u8
        }
    }

    /// A block that is stamped belongs to the current phase, be it a phase of mutators or of a
    /// collection, and no longer does when the next phase begins.
    pub proof fn law_stamped_block_is_current(self, m: MetadataView)
        requires
            m.wf(),
            self.valid(m),
        ensures
            self.in_current_phase(self.stamped(m)),
            !self.in_current_phase(
                MetadataView { global_phase_epoch: Self::next_phase(m), ..self.stamped(m) },
            ),
    {
        lemma_block_positions(m, self);
    }

    /// The block may be swept: it is allocated, and it is not reused in a mutator phase.
    pub open spec fn sweepable(self, m: MetadataView) -> bool {
        &&& self.state(m) != BlockState::Unallocated
        &&& !(m.global_phase_epoch % 2 == 1 && self.in_current_phase(m))
    }

    /// The block that starts at `address`, which is block aligned.
    pub fn from_aligned_address(address: Address) -> (block: Self)
        requires
            address.0 as int % BYTES_IN_BLOCK as int == 0,
        ensures
            block.0 == address,
    {
        Block(address)
    }

    /// The block that contains `address`.
    pub fn from_unaligned_address(address: Address) -> (block: Self)
        ensures
            block.addr() == address.0 - address.0 as int % BYTES_IN_BLOCK as int,
            block.addr() % BYTES_IN_BLOCK as int == 0,
    {
        Block(Address(address.0 - address.0 % BYTES_IN_BLOCK))
    }

    /// The first address of the block.
    pub fn start(&self) -> (address: Address)
        ensures
            address == self.0,
    {
        self.0
    }

    /// The first address after the block.
    pub fn end(&self) -> (address: Address)
        requires
            self.addr() + BYTES_IN_BLOCK <= usize::MAX,
        ensures
            address.0 == self.addr() + BYTES_IN_BLOCK,
    {
        Address(self.0.0 + BYTES_IN_BLOCK)
    }

    /// The chunk that contains the block.
    pub fn chunk(&self) -> (chunk: Chunk)
        ensures
            chunk.0.0 == self.addr() - self.addr() % BYTES_IN_CHUNK as int,
    {
        Chunk::from_unaligned_address(self.0)
    }

    /// Whether objects may live in the block.
    pub fn may_have_objects(&self, meta: &HeapMetadata) -> (may: bool)
        requires
            meta.wf(),
            self.valid(meta@),
        ensures
            may == (self.state(meta@) != BlockState::Unallocated),
    {
        self.get_state(meta) != BlockState::Unallocated
    }

    /// The mark states of the block's lines.
    pub fn line_mark_table(&self, meta: &HeapMetadata) -> (marks: Vec<u8>)
        requires
            meta.wf(),
            self.valid(meta@),
        ensures
            marks@ == meta@.line_mark.subrange(
                self.first_line(meta@),
                self.end_line_index(meta@),
            ),
            marks@.len() == LINES_IN_BLOCK,
    {
        proof {
            lemma_block_positions(meta@, *self);
        }
        let first: usize = meta.line(self.0);
        let mut marks: Vec<u8> = Vec::new();
        let mut i: usize = 0;
        while i < LINES_IN_BLOCK
            invariant
                i <= LINES_IN_BLOCK,
                meta.wf(),
                first + LINES_IN_BLOCK <= meta@.line_mark.len(),
                marks@ == meta@.line_mark.subrange(first as int, first + i),
            decreases LINES_IN_BLOCK - i,
        {
            marks.push(meta.line_mark.load(first + i));
            i += 1;
        }
        marks
    }

    /// The state of the block.
    pub fn get_state(&self, meta: &HeapMetadata) -> (state: BlockState)
        requires
            meta.wf(),
            self.valid(meta@),
        ensures
            state == self.state(meta@),
    {
        BlockState::from(meta.block_mark.load(meta.block(self.0)))
    }

    /// Sets the state of the block.
    pub fn set_state(&self, meta: &mut HeapMetadata, state: BlockState)
        requires
            old(meta).wf(),
            self.valid(old(meta)@),
        ensures
            final(meta).wf(),
            final(meta)@ == (MetadataView {
                block_mark: old(meta)@.block_mark.update(self.index(old(meta)@), state.to_byte()),
                ..old(meta)@
            }),
    {
        let index: usize = meta.block(self.0);
        meta.block_mark.store(index, u8::from(state));
    }

    /// Whether the block is a source for defragmentation.
    pub fn is_defrag_source(&self, meta: &HeapMetadata) -> (source: bool)
        requires
            meta.wf(),
            self.valid(meta@),
        ensures
            source == self.defrag_source(meta@),
    {
        meta.block_defrag.load(meta.block(self.0)) == Self::DEFRAG_SOURCE_STATE
    }

    /// Makes the block a source for defragmentation, or not.
    pub fn set_as_defrag_source(&self, meta: &mut HeapMetadata, defrag: bool)
        requires
            old(meta).wf(),
            self.valid(old(meta)@),
        ensures
            final(meta).wf(),
            final(meta)@ == (MetadataView {
                block_defrag: old(meta)@.block_defrag.update(
                    self.index(old(meta)@),
                    if defrag {
                        255u8
                    } else {
                        0u8
                    },
                ),
                ..old(meta)@
            }),
    {
        let byte: u8 = if defrag {
            Self::DEFRAG_SOURCE_STATE
        } else {
            0
        };
        let index: usize = meta.block(self.0);
        meta.block_defrag.store(index, byte);
    }

    /// Sets the block's log bit. Returns true iff it was not set before, so that the caller does
    /// the bookkeeping of the block once.
    pub fn log(&self, meta: &mut HeapMetadata) -> (first: bool)
        requires
            old(meta).wf(),
            self.valid(old(meta)@),
        ensures
            final(meta).wf(),
            first == (old(meta)@.block_log[self.index(old(meta)@)] == 0),
            final(meta)@ == (MetadataView {
                block_log: old(meta)@.block_log.update(self.index(old(meta)@), 1),
                ..old(meta)@
            }),
    {
        let index: usize = meta.block(self.0);
        if meta.block_log.load(index) == 1 {
            assert(meta@.block_log =~= meta@.block_log.update(index as int, 1));
            return false;
        }
        meta.block_log.compare_exchange(index, 0, 1).is_ok()
    }

    /// Clears the block's log bit.
    pub fn unlog(&self, meta: &mut HeapMetadata)
        requires
            old(meta).wf(),
            self.valid(old(meta)@),
        ensures
            final(meta).wf(),
            final(meta)@ == (MetadataView {
                block_log: old(meta)@.block_log.update(self.index(old(meta)@), 0),
                ..old(meta)@
            }),
    {
        let index: usize = meta.block(self.0);
        meta.block_log.store(index, 0);
    }

    /// Clears the unlog bits of the block's fields.
    pub fn clear_field_unlog_table(&self, meta: &mut HeapMetadata)
        requires
            old(meta).wf(),
            self.valid(old(meta)@),
        ensures
            final(meta).wf(),
            final(meta)@ == (MetadataView {
                field_unlog: filled(
                    old(meta)@.field_unlog,
                    self.first_cell(old(meta)@),
                    self.end_cell(old(meta)@),
                    0,
                ),
                ..old(meta)@
            }),
    {
        proof {
            lemma_block_positions(meta@, *self);
        }
        let first: usize = meta.cell(self.0);
        meta.field_unlog.fill(first, first + CELLS_IN_BLOCK, 0);
    }

    /// Sets the unlog bits of the block's fields.
    pub fn initialize_field_unlog_table_as_unlogged(&self, meta: &mut HeapMetadata)
        requires
            old(meta).wf(),
            self.valid(old(meta)@),
        ensures
            final(meta).wf(),
            final(meta)@ == (MetadataView {
                field_unlog: filled(
                    old(meta)@.field_unlog,
                    self.first_cell(old(meta)@),
                    self.end_cell(old(meta)@),
                    1,
                ),
                ..old(meta)@
            }),
    {
        proof {
            lemma_block_positions(meta@, *self);
        }
        let first: usize = meta.cell(self.0);
        meta.field_unlog.fill(first, first + CELLS_IN_BLOCK, 1);
    }

    /// Clears the reference counts of the block.
    pub fn clear_rc_table(&self, meta: &mut HeapMetadata)
        requires
            old(meta).wf(),
            self.valid(old(meta)@),
        ensures
            final(meta).wf(),
            final(meta)@ == (MetadataView {
                rc: filled(
                    old(meta)@.rc,
                    self.first_cell(old(meta)@),
                    self.end_cell(old(meta)@),
                    0,
                ),
                ..old(meta)@
            }),
    {
        proof {
            lemma_block_positions(meta@, *self);
        }
        let first: usize = meta.cell(self.0);
        meta.rc.fill(first, first + CELLS_IN_BLOCK, 0);
    }

    /// Clears the straddle marks of the block's lines.
    pub fn clear_striddle_table(&self, meta: &mut HeapMetadata)
        requires
            old(meta).wf(),
            self.valid(old(meta)@),
        ensures
            final(meta).wf(),
            final(meta)@ == (MetadataView {
                straddle: filled(
                    old(meta)@.straddle,
                    self.first_line(old(meta)@),
                    self.end_line_index(old(meta)@),
                    0,
                ),
                ..old(meta)@
            }),
    {
        proof {
            lemma_block_positions(meta@, *self);
        }
        let first: usize = meta.line(self.0);
        meta.straddle.fill(first, first + LINES_IN_BLOCK, 0);
    }

    /// Clears the mark bits of the block's objects.
    pub fn clear_mark_table(&self, meta: &mut HeapMetadata)
        requires
            old(meta).wf(),
            self.valid(old(meta)@),
        ensures
            final(meta).wf(),
            final(meta)@ == (MetadataView {
                mark: filled(
                    old(meta)@.mark,
                    self.first_cell(old(meta)@),
                    self.end_cell(old(meta)@),
                    0,
                ),
                ..old(meta)@
            }),
    {
        proof {
            lemma_block_positions(meta@, *self);
        }
        let first: usize = meta.cell(self.0);
        meta.mark.fill(first, first + CELLS_IN_BLOCK, 0);
    }

    /// Sets the mark bits of the block's objects.
    pub fn initialize_mark_table_as_marked(&self, meta: &mut HeapMetadata)
        requires
            old(meta).wf(),
            self.valid(old(meta)@),
        ensures
            final(meta).wf(),
            final(meta)@ == (MetadataView {
                mark: filled(
                    old(meta)@.mark,
                    self.first_cell(old(meta)@),
                    self.end_cell(old(meta)@),
                    1,
                ),
                ..old(meta)@
            }),
    {
        proof {
            lemma_block_positions(meta@, *self);
        }
        let first: usize = meta.cell(self.0);
        meta.mark.fill(first, first + CELLS_IN_BLOCK, 1);
    }

    /// Whether every reference count in the block is zero, so that the whole block is dead.
    pub fn rc_dead(&self, meta: &HeapMetadata) -> (dead: bool)
        requires
            meta.wf(),
            self.valid(meta@),
        ensures
            dead == self.all_counts_zero(meta@),
    {
        proof {
            lemma_block_positions(meta@, *self);
        }
        let first: usize = meta.cell(self.0);
        meta.rc.is_zero(first, first + CELLS_IN_BLOCK)
    }

    /// The current phase.
    pub fn global_phase_epoch(meta: &HeapMetadata) -> (epoch: u8)
        ensures
            epoch == meta@.global_phase_epoch,
    {
        meta.global_phase_epoch
    }

    /// The phase in which the block last took allocations.
    pub fn phase_epoch(&self, meta: &HeapMetadata) -> (epoch: u8)
        requires
            meta.wf(),
            self.valid(meta@),
        ensures
            epoch == meta@.block_epoch[self.index(meta@)],
    {
        meta.block_epoch.load(meta.block(self.0))
    }

    /// Stamps the block with the current phase.
    pub fn update_phase_epoch(&self, meta: &mut HeapMetadata)
        requires
            old(meta).wf(),
            self.valid(old(meta)@),
        ensures
            final(meta).wf(),
            final(meta)@ == self.stamped(old(meta)@),
    {
        let index: usize = meta.block(self.0);
        let epoch: u8 = Self::global_phase_epoch(meta);
        meta.block_epoch.store(index, epoch);
    }

    /// Whether the block was handed out, clean or for reuse, in the current phase.
    pub fn is_nursery_or_reusing(&self, meta: &HeapMetadata) -> (current: bool)
        requires
            meta.wf(),
            self.valid(meta@),
        ensures
            current == self.in_current_phase(meta@),
    {
        self.phase_epoch(meta) == Self::global_phase_epoch(meta)
    }

    /// Whether the block was handed out clean in the current phase.
    pub fn is_nursery(&self, meta: &HeapMetadata) -> (nursery: bool)
        requires
            meta.wf(),
            self.valid(meta@),
        ensures
            nursery == (self.state(meta@) == BlockState::Unallocated && self.in_current_phase(
                meta@,
            )),
    {
        self.get_state(meta) == BlockState::Unallocated && self.is_nursery_or_reusing(meta)
    }

    /// Whether the block was partly free and is reused in the current phase.
    pub fn is_reusing(&self, meta: &HeapMetadata) -> (reusing: bool)
        requires
            meta.wf(),
            self.valid(meta@),
        ensures
            reusing == (self.state(meta@) != BlockState::Unallocated && self.in_current_phase(
                meta@,
            )),
    {
        self.get_state(meta) != BlockState::Unallocated && self.is_nursery_or_reusing(meta)
    }

    /// Records the number of holes in the block, of which the low byte is kept.
    pub fn set_holes(&self, meta: &mut HeapMetadata, holes: usize)
        requires
            old(meta).wf(),
            self.valid(old(meta)@),
        ensures
            final(meta).wf(),
            final(meta)@ == (MetadataView {
                block_defrag: old(meta)@.block_defrag.update(
                    self.index(old(meta)@),
                    holes as u8,
                ),
                ..old(meta)@
            }),
    {
        let index: usize = meta.block(self.0);
        meta.block_defrag.store(index, holes as u8);
    }

    /// The recorded number of holes.
    pub fn get_holes(&self, meta: &HeapMetadata) -> (holes: usize)
        requires
            meta.wf(),
            self.valid(meta@),
        ensures
            holes == meta@.block_defrag[self.index(meta@)],
    {
        meta.block_defrag.load(meta.block(self.0)) as usize
    }

    /// The tables after the block was initialized without reference counts.
    pub open spec fn initialized(self, m: MetadataView, copy: bool) -> MetadataView {
        MetadataView {
            block_mark: m.block_mark.update(
                self.index(m),
                (if copy {
                    BlockState::Marked
                } else {
                    BlockState::Unmarked
                }).to_byte(),
            ),
            block_defrag: m.block_defrag.update(self.index(m), 0),
            ..m
        }
    }

    /// Initializes a block that was acquired clean.
    pub fn init(&self, meta: &mut HeapMetadata, copy: bool)
        requires
            old(meta).wf(),
            self.valid(old(meta)@),
        ensures
            final(meta).wf(),
            final(meta)@ == self.initialized(old(meta)@, copy),
    {
        self.set_state(
            meta,
            if copy {
                BlockState::Marked
            } else {
                BlockState::Unmarked
            },
        );
        let index: usize = meta.block(self.0);
        meta.block_defrag.store(index, 0);
    }

    /// Deinitializes a block before it is released.
    pub fn deinit(&self, meta: &mut HeapMetadata)
        requires
            old(meta).wf(),
            self.valid(old(meta)@),
        ensures
            final(meta).wf(),
            final(meta)@ == (MetadataView {
                block_mark: old(meta)@.block_mark.update(self.index(old(meta)@), 0),
                ..old(meta)@
            }),
    {
        self.set_state(meta, BlockState::Unallocated);
    }

    /// Whether the current phase is a mutator phase.
    fn in_mutator_phase(meta: &HeapMetadata) -> (mutator: bool)
        ensures
            mutator == (meta@.global_phase_epoch % 2 == 1),
    {
        Self::global_phase_epoch(meta) % 2 == 1
    }

    /// Whether the block was promoted in place.
    pub fn is_in_place_promoted(&self, meta: &HeapMetadata) -> (promoted: bool)
        requires
            meta.wf(),
            self.valid(meta@),
        ensures
            promoted == (meta@.block_promoted[self.index(meta@)] != 0),
    {
        meta.block_promoted.load(meta.block(self.0)) != 0
    }

    /// Forgets that the block was promoted in place.
    fn clear_in_place_promoted(&self, meta: &mut HeapMetadata)
        requires
            old(meta).wf(),
            self.valid(old(meta)@),
        ensures
            final(meta).wf(),
            final(meta)@ == (MetadataView {
                block_promoted: old(meta)@.block_promoted.update(self.index(old(meta)@), 0),
                ..old(meta)@
            }),
    {
        let index: usize = meta.block(self.0);
        meta.block_promoted.store(index, 0);
    }

    /// Whether the block may be swept now: it is allocated, and no mutator reuses it.
    fn lock_skip_reusing_or_unallocated(&self, meta: &HeapMetadata) -> (sweepable: bool)
        requires
            meta.wf(),
            self.valid(meta@),
        ensures
            sweepable == self.sweepable(meta@),
    {
        let state: BlockState = self.get_state(meta);
        if state == BlockState::Unallocated || (Self::in_mutator_phase(meta) && self.is_reusing(
            meta,
        )) {
            return false;
        }
        true
    }

    /// Ends the sweep of a block. The sweep runs with the world stopped, so nothing is held.
    pub fn unlock(&self, meta: &mut HeapMetadata)
        ensures
            *final(meta) == *old(meta),
    {
    }

    /// Applies `f` to the state of the block. `Some` becomes the new state and the old one is
    /// handed back as `Ok`; `None` leaves the state alone and hands it back as `Err`.
    pub fn fetch_update_state<F: FnOnce(BlockState) -> Option<BlockState>>(
        &self,
        meta: &mut HeapMetadata,
        f: F,
    ) -> (result: Result<BlockState, BlockState>)
        requires
            old(meta).wf(),
            self.valid(old(meta)@),
            call_requires(f, (self.state(old(meta)@),)),
        ensures
            final(meta).wf(),
            match result {
                Ok(state) => state == self.state(old(meta)@) && exists|new: BlockState| #[trigger]
                    call_ensures(f, (state,), Some(new)) && final(meta)@ == (MetadataView {
                        block_mark: old(meta)@.block_mark.update(
                            self.index(old(meta)@),
                            new.to_byte(),
                        ),
                        ..old(meta)@
                    }),
                Err(state) => state == self.state(old(meta)@) && call_ensures(f, (state,), None)
                    && final(meta)@ == old(meta)@,
            },
    {
        let state: BlockState = self.get_state(meta);
        let outcome: Option<BlockState> = f(state);
        match outcome {
            Some(new) => {
                self.set_state(meta, new);
                assert(exists|n: BlockState| #[trigger]
                    call_ensures(f, (state,), Some(n)) && meta@ == (MetadataView {
                        block_mark: old(meta)@.block_mark.update(
                            self.index(old(meta)@),
                            n.to_byte(),
                        ),
                        ..old(meta)@
                    }));
                Ok(state)
            },
            None => Err(state),
        }
    }

    /// Makes an allocated block unallocated, unless a mutator reuses it. Returns true iff it did.
    fn attempt_dealloc(&self, meta: &mut HeapMetadata) -> (deallocated: bool)
        requires
            old(meta).wf(),
            self.valid(old(meta)@),
        ensures
            final(meta).wf(),
            deallocated == self.sweepable(old(meta)@),
            final(meta)@ == if deallocated {
                MetadataView {
                    block_mark: old(meta)@.block_mark.update(self.index(old(meta)@), 0),
                    ..old(meta)@
                }
            } else {
                old(meta)@
            },
    {
        let reused: bool = Self::in_mutator_phase(meta) && self.is_reusing(meta);
        self.fetch_update_state(
            meta,
            |s: BlockState| -> (new: Option<BlockState>)
                ensures
                    (reused || s == BlockState::Unallocated) ==> new is None,
                    !(reused || s == BlockState::Unallocated) ==> new == Some(
                        BlockState::Unallocated,
                    )
                {
                    if reused || s == BlockState::Unallocated {
                        None
                    } else {
                        Some(BlockState::Unallocated)
                    }
                },
        ).is_ok()
    }

    /// The first line of the block.
    pub fn start_line(&self) -> (line: Line)
        requires
            self.addr() % BYTES_IN_BLOCK as int == 0,
        ensures
            line.addr() == self.addr(),
    {
        Line::from_aligned_address(self.start())
    }

    /// The line after the block.
    pub fn end_line(&self) -> (line: Line)
        requires
            self.addr() % BYTES_IN_BLOCK as int == 0,
            self.addr() + BYTES_IN_BLOCK <= usize::MAX,
        ensures
            line.addr() == self.addr() + BYTES_IN_BLOCK,
    {
        Line::from_aligned_address(self.end())
    }

    /// The lines of the block, in address order.
    pub fn lines(&self) -> (lines: Vec<Line>)
        requires
            self.addr() % BYTES_IN_BLOCK as int == 0,
            self.addr() + BYTES_IN_BLOCK <= usize::MAX,
        ensures
            lines@.len() == LINES_IN_BLOCK,
            forall|i: int|
                0 <= i < LINES_IN_BLOCK ==> (#[trigger] lines@[i]).addr() == self.addr() + i
                    * BYTES_IN_LINE,
    {
        let mut lines: Vec<Line> = Vec::new();
        let mut line: Line = self.start_line();
        let end: Line = self.end_line();
        while line != end
            invariant
                self.addr() + BYTES_IN_BLOCK <= usize::MAX,
                end.addr() == self.addr() + BYTES_IN_BLOCK,
                lines@.len() <= LINES_IN_BLOCK,
                line.addr() == self.addr() + lines@.len() * BYTES_IN_LINE,
                forall|i: int|
                    0 <= i < lines@.len() ==> (#[trigger] lines@[i]).addr() == self.addr() + i
                        * BYTES_IN_LINE,
            decreases end.addr() - line.addr(),
        {
            lines.push(line);
            line = line.next();
        }
        lines
    }

    /// Clears the valid-object bits of the regions that hold young objects: the whole block when
    /// marks are kept per block, and the unmarked lines when they are kept per line.
    pub fn clear_vo_bits_for_unmarked_regions(
        &self,
        meta: &mut HeapMetadata,
        line_mark_state: Option<u8>,
    )
        requires
            old(meta).wf(),
            self.valid(old(meta)@),
            line_mark_state is None ==> self.state(old(meta)@) is Unmarked || self.state(
                old(meta)@,
            ) is Marked,
        ensures
            final(meta).wf(),
            final(meta)@ == (MetadataView {
                vo_bit: self.vo_bits_cleared(old(meta)@, line_mark_state),
                ..old(meta)@
            }),
    {
        proof {
            lemma_block_positions(meta@, *self);
        }
        let ghost before: MetadataView = meta@;
        let first: usize = meta.cell(self.0);
        match line_mark_state {
            None => {
                if self.get_state(meta) == BlockState::Unmarked {
                    meta.vo_bit.fill(first, first + CELLS_IN_BLOCK, 0);
                }
                assert(meta@.vo_bit =~= self.vo_bits_cleared(before, line_mark_state));
            },
            Some(state) => {
                let first_line: usize = meta.line(self.0);
                let mut i: usize = 0;
                while i < LINES_IN_BLOCK
                    invariant
                        i <= LINES_IN_BLOCK,
                        meta.wf(),
                        before.wf(),
                        self.valid(before),
                        first_line == self.first_line(before),
                        first == self.first_cell(before),
                        first + CELLS_IN_BLOCK <= before.rc.len(),
                        first_line + LINES_IN_BLOCK <= before.line_mark.len(),
                        meta@ == (MetadataView { vo_bit: meta@.vo_bit, ..before }),
                        meta@.vo_bit.len() == before.vo_bit.len(),
                        forall|j: int|
                            0 <= j < before.vo_bit.len() ==> #[trigger] meta@.vo_bit[j] == (if (first
                                <= j && j < first + i * CELLS_IN_LINE) && before.line_mark[j
                                / CELLS_IN_LINE as int] != state {
                                0
                            } else {
                                before.vo_bit[j]
                            }),
                    decreases LINES_IN_BLOCK - i,
                {
                    if meta.line_mark.load(first_line + i) != state {
                        let from: usize = first + i * CELLS_IN_LINE;
                        meta.vo_bit.fill(from, from + CELLS_IN_LINE, 0);
                    }
                    i += 1;
                }
                assert(meta@.vo_bit =~= self.vo_bits_cleared(before, line_mark_state));
            },
        }
    }

    /// The valid-object bits after those of the young regions are cleared.
    pub open spec fn vo_bits_cleared(self, m: MetadataView, line_mark_state: Option<u8>) -> Seq<u8> {
        match line_mark_state {
            None => if self.state(m) is Unmarked {
                filled(m.vo_bit, self.first_cell(m), self.end_cell(m), 0)
            } else {
                m.vo_bit
            },
            Some(state) => Seq::new(
                m.vo_bit.len(),
                |i: int|
                    if self.first_cell(m) <= i < self.end_cell(m) && m.line_mark[i
                        / CELLS_IN_LINE as int] != state {
                        0
                    } else {
                        m.vo_bit[i]
                    },
            ),
        }
    }

    /// The tables after the block was initialized.
    pub open spec fn initialized_rc(
        self,
        m: MetadataView,
        rc_enabled: bool,
        copy: bool,
        reuse: bool,
    ) -> MetadataView {
        let i = self.index(m);
        let stamped = self.stamped(m);
        if rc_enabled {
            MetadataView {
                block_promoted: m.block_promoted.update(i, 0),
                block_mark: if copy {
                    m.block_mark.update(i, BlockState::Unmarked.to_byte())
                } else {
                    m.block_mark
                },
                block_defrag: if copy || !reuse {
                    m.block_defrag.update(i, 0)
                } else {
                    m.block_defrag
                },
                ..stamped
            }
        } else {
            self.initialized(stamped, copy)
        }
    }

    /// Initializes a clean or reused block in a space that may count references. A block that is
    /// handed out clean to a mutator stays unallocated until one of its objects is promoted. In a
    /// space that does not count references, the block starts as `init` lets it start.
    pub fn init_rc(&self, meta: &mut HeapMetadata, copy: bool, reuse: bool, space: &ImmixSpace)
        requires
            old(meta).wf(),
            self.valid(old(meta)@),
            space.rc_enabled && !reuse ==> self.state(old(meta)@) == BlockState::Unallocated,
            space.rc_enabled && reuse ==> !self.defrag_source(old(meta)@),
        ensures
            final(meta).wf(),
            final(meta)@ == self.initialized_rc(old(meta)@, space.rc_enabled, copy, reuse),
    {
        self.update_phase_epoch(meta);
        if space.rc_enabled {
            self.clear_in_place_promoted(meta);
            if copy {
                self.set_state(meta, BlockState::Unmarked);
                self.set_as_defrag_source(meta, false);
            } else if !reuse {
                self.set_as_defrag_source(meta, false);
            }
        } else {
            self.set_state(
                meta,
                if copy {
                    BlockState::Marked
                } else {
                    BlockState::Unmarked
                },
            );
            let index: usize = meta.block(self.0);
            meta.block_defrag.store(index, 0);
        }
    }

    /// The tables after the block was deinitialized.
    pub open spec fn deinitialized_rc(self, m: MetadataView, rc_enabled: bool) -> MetadataView {
        let i = self.index(m);
        if rc_enabled {
            MetadataView {
                block_mark: m.block_mark.update(i, 0),
                block_promoted: m.block_promoted.update(i, 0),
                block_defrag: m.block_defrag.update(i, 0),
                block_log: m.block_log.update(i, 0),
                ..m
            }
        } else {
            MetadataView { block_mark: m.block_mark.update(i, 0), ..m }
        }
    }

    /// Deinitializes a block before it is released. In a space that counts references the block
    /// also leaves the promotion, defragmentation and log state behind, so that it starts its next
    /// life without them.
    pub fn deinit_rc(&self, meta: &mut HeapMetadata, space: &ImmixSpace)
        requires
            old(meta).wf(),
            self.valid(old(meta)@),
        ensures
            final(meta).wf(),
            final(meta)@ == self.deinitialized_rc(old(meta)@, space.rc_enabled),
    {
        self.set_state(meta, BlockState::Unallocated);
        if space.rc_enabled {
            self.clear_in_place_promoted(meta);
            self.set_as_defrag_source(meta, false);
            self.unlog(meta);
        }
    }

    /// Moves on to the next phase. The phase after the last one is the first.
    pub fn update_global_phase_epoch(meta: &mut HeapMetadata, space: &mut ImmixSpace)
        requires
            old(meta).wf(),
        ensures
            final(meta).wf(),
            final(meta)@ == (MetadataView {
                global_phase_epoch: Self::next_phase(old(meta)@),
                ..old(meta)@
            }),
            final(space)@ == old(space)@,
    {
        let epoch: u8 = meta.global_phase_epoch;
        if epoch == 254 {
            meta.global_phase_epoch = 1;
            space.pr.reset_nursery_state();
        } else {
            meta.global_phase_epoch = epoch + 1;
        }
    }

    /// Promotes a nursery block in place: it becomes an allocated block of the current phase.
    /// Nothing happens to a block that was promoted before.
    pub fn set_as_in_place_promoted(&self, meta: &mut HeapMetadata, space: &mut ImmixSpace)
        requires
            old(meta).wf(),
            self.valid(old(meta)@),
        ensures
            final(meta).wf(),
            final(meta)@ == self.promoted_in_place(old(meta)@),
            final(space)@ == self.promotion_counted(old(meta)@, old(space)@),
    {
        if self.is_in_place_promoted(meta) {
            return;
        }
        let index: usize = meta.block(self.0);
        if meta.block_promoted.compare_exchange(index, 0, 1).is_ok() {
            space.block_allocation.note_promoted();
            self.set_state(meta, BlockState::Unmarked);
            self.update_phase_epoch(meta);
        }
    }

    /// The tables after the block was promoted in place.
    pub open spec fn promoted_in_place(self, m: MetadataView) -> MetadataView {
        let i = self.index(m);
        if m.block_promoted[i] != 0 {
            m
        } else {
            MetadataView {
                block_promoted: m.block_promoted.update(i, 1),
                block_mark: m.block_mark.update(i, BlockState::Unmarked.to_byte()),
                block_epoch: m.block_epoch.update(i, m.global_phase_epoch),
                ..m
            }
        }
    }

    /// The space after the block was promoted in place.
    pub open spec fn promotion_counted(self, m: MetadataView, s: ImmixSpaceView) -> ImmixSpaceView {
        if m.block_promoted[self.index(m)] != 0 {
            s
        } else {
            ImmixSpaceView {
                block_allocation: BlockAllocationView {
                    in_place_promoted_nursery_blocks:
                        s.block_allocation.in_place_promoted_nursery_blocks.wrapping_add(1),
                    ..s.block_allocation
                },
                ..s
            }
        }
    }

    /// The mature sweep frees the block.
    pub open spec fn freed_by_mature_sweep(
        self,
        m: MetadataView,
        defrag: bool,
        rc_dead: bool,
    ) -> bool {
        (defrag || rc_dead || self.all_counts_zero(m)) && self.sweepable(m)
    }

    /// Sweeps a mature block that may be dead. Returns true iff the block was freed, which it is
    /// iff it may be swept and is a source for defragmentation, or known or found to be dead.
    pub fn rc_sweep_mature(
        &self,
        meta: &mut HeapMetadata,
        space: &mut ImmixSpace,
        defrag: bool,
        rc_dead: bool,
    ) -> (freed: bool)
        requires
            old(meta).wf(),
            self.valid(old(meta)@),
            self.freed_by_mature_sweep(old(meta)@, defrag, rc_dead) ==> old(space)@.can_free(
                *self,
            ),
        ensures
            final(meta).wf(),
            freed == self.freed_by_mature_sweep(old(meta)@, defrag, rc_dead),
            final(meta)@ == if freed {
                self.deinitialized_rc(old(meta)@, old(space)@.rc_enabled)
            } else {
                old(meta)@
            },
            final(space)@ == if freed {
                old(space)@.with_freed(*self, false)
            } else {
                old(space)@
            },
    {
        if self.get_state(meta) == BlockState::Unallocated {
            return false;
        }
        if defrag || rc_dead || self.rc_dead(meta) {
            if !self.lock_skip_reusing_or_unallocated(meta) {
                return false;
            }
            let dead: bool = if defrag || self.attempt_dealloc(meta) {
                self.deinit_rc(meta, space);
                space.release_block_to_free_list(*self);
                true
            } else {
                false
            };
            self.unlock(meta);
            return dead;
        }
        false
    }

    /// How many lines of the block carry the mark `state`.
    pub open spec fn marked_lines(self, m: MetadataView, state: u8) -> nat {
        count_marked(m.line_mark, self.first_line(m), self.end_line_index(m), state)
    }

    /// How many runs of lines without the mark `state` the block has.
    pub open spec fn holes(self, m: MetadataView, state: u8) -> nat {
        count_holes(m.line_mark, self.first_line(m), self.end_line_index(m), state)
    }

    /// The tables after the unmarked lines of the block were cleaned: stale marks are dropped
    /// before the mark states start over, and side pinning bits are cleared.
    pub open spec fn lines_swept(
        self,
        m: MetadataView,
        state: u8,
        pins_on_side: bool,
    ) -> MetadataView {
        MetadataView {
            line_mark: if state > Line::MAX_MARK_STATE - 2 {
                unmarked_cleared(
                    m.line_mark,
                    m.line_mark,
                    self.first_line(m),
                    self.end_line_index(m),
                    1,
                    state,
                )
            } else {
                m.line_mark
            },
            pin_bit: if pins_on_side {
                unmarked_cleared(
                    m.pin_bit,
                    m.line_mark,
                    self.first_line(m),
                    self.end_line_index(m),
                    CELLS_IN_LINE as int,
                    state,
                )
            } else {
                m.pin_bit
            },
            ..m
        }
    }

    /// The tables after the sweep of the block.
    pub open spec fn swept(self, m: MetadataView, s: ImmixSpaceView, state: u8) -> MetadataView {
        let lines = self.lines_swept(m, state, s.vm.pinning_bit == Some(MetadataLocation::OnSide));
        let i = self.index(m);
        let marked = self.marked_lines(m, state);
        if marked == 0 {
            self.deinitialized_rc(lines, s.rc_enabled)
        } else {
            MetadataView {
                block_mark: m.block_mark.update(
                    i,
                    (if marked == LINES_IN_BLOCK {
                        BlockState::Unmarked
                    } else {
                        BlockState::Reusable { unavailable_lines: marked as u8 }
                    }).to_byte(),
                ),
                block_defrag: m.block_defrag.update(i, self.holes(m, state) as u8),
                ..lines
            }
        }
    }

    /// The state of the block after its sweep: it is free without a marked line, reusable with
    /// some, and unmarked with all of them. A free block stays free.
    pub open spec fn state_swept(self, m: MetadataView, state: u8) -> BlockState {
        let marked = self.marked_lines(m, state);
        if self.state(m) == BlockState::Unallocated || marked == 0 {
            BlockState::Unallocated
        } else if marked == LINES_IN_BLOCK {
            BlockState::Unmarked
        } else {
            BlockState::Reusable { unavailable_lines: marked as u8 }
        }
    }

    /// The space after the sweep of the block.
    pub open spec fn space_swept(
        self,
        m: MetadataView,
        s: ImmixSpaceView,
        state: u8,
    ) -> ImmixSpaceView {
        let marked = self.marked_lines(m, state);
        if marked == 0 {
            s.with_freed(self, s.madvise_freed_this_gc)
        } else if marked == LINES_IN_BLOCK {
            s
        } else {
            ImmixSpaceView {
                reusable_blocks: ReusablePoolView {
                    pending: s.reusable_blocks.pending.push(self),
                    ..s.reusable_blocks
                },
                ..s
            }
        }
    }

    /// The mark histogram after the sweep of the block.
    pub open spec fn histogram_swept(self, m: MetadataView, h: Seq<usize>, state: u8) -> Seq<usize> {
        let marked = self.marked_lines(m, state);
        let holes = self.holes(m, state) as int;
        if marked == 0 {
            h
        } else {
            h.update(holes, (h[holes] + marked) as usize)
        }
    }

    /// Sweeps the block. A block without marked lines is released; one with some becomes
    /// reusable, and one with all lines marked becomes unmarked. Returns true iff the block was
    /// released.
    pub fn sweep(
        &self,
        meta: &mut HeapMetadata,
        space: &mut ImmixSpace,
        mark_histogram: &mut Histogram,
        line_mark_state: Option<u8>,
    ) -> (released: bool)
        requires
            old(meta).wf(),
            line_mark_state is Some,
            self.valid(old(meta)@),
            self.marked_lines(old(meta)@, line_mark_state->0) == 0 ==> old(space)@.can_free(*self),
            old(mark_histogram)@.len() == NUM_BINS,
            forall|i: int|
                0 <= i < NUM_BINS ==> #[trigger] old(mark_histogram)@[i] + LINES_IN_BLOCK
                    <= usize::MAX,
        ensures
            final(meta).wf(),
            released == (self.marked_lines(old(meta)@, line_mark_state->0) == 0),
            final(meta)@ == self.swept(old(meta)@, old(space)@, line_mark_state->0),
            final(space)@ == self.space_swept(old(meta)@, old(space)@, line_mark_state->0),
            final(mark_histogram)@ == self.histogram_swept(
                old(meta)@,
                old(mark_histogram)@,
                line_mark_state->0,
            ),
    {
        proof {
            lemma_block_positions(meta@, *self);
        }
        let ghost before: MetadataView = meta@;
        let state: u8 = line_mark_state.unwrap();
        let pins_on_side: bool = match space.vm.pinning_bit {
            Some(MetadataLocation::OnSide) => true,
            _ => false,
        };
        let clear_stale: bool = state > Line::MAX_MARK_STATE - 2;
        let first_line: usize = meta.line(self.0);
        let first_cell: usize = meta.cell(self.0);
        let mut marked_lines: usize = 0;
        let mut holes: usize = 0;
        let mut prev_line_is_marked: bool = true;
        let mut i: usize = 0;
        while i < LINES_IN_BLOCK
            invariant
                i <= LINES_IN_BLOCK,
                meta.wf(),
                before.wf(),
                self.valid(before),
                first_line == self.first_line(before),
                first_cell == self.first_cell(before),
                first_line + LINES_IN_BLOCK <= before.line_mark.len(),
                first_cell + CELLS_IN_BLOCK <= before.rc.len(),
                clear_stale == (state > Line::MAX_MARK_STATE - 2),
                marked_lines == count_marked(
                    before.line_mark,
                    first_line as int,
                    first_line + i,
                    state,
                ),
                marked_lines <= i,
                holes == count_holes(
                    before.line_mark,
                    first_line as int,
                    first_line + i,
                    state,
                ),
                prev_line_is_marked == (i == 0 || before.line_mark[first_line + i - 1]
                    == state),
                2 * holes <= i + (if prev_line_is_marked {
                    0int
                } else {
                    1int
                }),
                meta@ == (MetadataView {
                    line_mark: if clear_stale {
                        unmarked_cleared(
                            before.line_mark,
                            before.line_mark,
                            first_line as int,
                            first_line + i,
                            1,
                            state,
                        )
                    } else {
                        before.line_mark
                    },
                    pin_bit: if pins_on_side {
                        unmarked_cleared(
                            before.pin_bit,
                            before.line_mark,
                            first_line as int,
                            first_line + i,
                            CELLS_IN_LINE as int,
                            state,
                        )
                    } else {
                        before.pin_bit
                    },
                    ..before
                }),
            decreases LINES_IN_BLOCK - i,
        {
            let line: usize = first_line + i;
            if meta.line_mark.load(line) == state {
                marked_lines += 1;
                prev_line_is_marked = true;
            } else {
                if prev_line_is_marked {
                    holes += 1;
                }
                if clear_stale {
                    meta.line_mark.store(line, 0);
                }
                if pins_on_side {
                    let cell: usize = first_cell + i * CELLS_IN_LINE;
                    meta.pin_bit.fill(cell, cell + CELLS_IN_LINE, 0);
                }
                prev_line_is_marked = false;
            }
            i += 1;
        }
        if marked_lines == 0 {
            space.release_block(meta, *self);
            true
        } else {
            if marked_lines != Block::LINES {
                self.set_state(
                    meta,
                    BlockState::Reusable { unavailable_lines: marked_lines as u8 },
                );
                space.reusable_blocks.push(*self);
            } else {
                self.set_state(meta, BlockState::Unmarked);
            }
            mark_histogram.record(holes, marked_lines);
            self.set_holes(meta, holes);
            false
        }
    }
}

/// How many of the lines `lo..hi` carry the mark `state`.
pub open spec fn count_marked(marks: Seq<u8>, lo: int, hi: int, state: u8) -> nat
    decreases hi - lo,
{
    if hi <= lo {
        0
    } else {
        count_marked(marks, lo, hi - 1, state) + (if marks[hi - 1] == state {
            1nat
        } else {
            0nat
        })
    }
}

/// How many maximal runs of lines without the mark `state` there are in `lo..hi`.
pub open spec fn count_holes(marks: Seq<u8>, lo: int, hi: int, state: u8) -> nat
    decreases hi - lo,
{
    if hi <= lo {
        0
    } else {
        count_holes(marks, lo, hi - 1, state) + (if marks[hi - 1] != state && (hi - 1 == lo
            || marks[hi - 2] == state) {
            1nat
        } else {
            0nat
        })
    }
}

/// `table`, which has `per_line` entries for each line, with the entries of the lines `lo..hi`
/// that do not carry the mark `state` set to zero.
pub open spec fn unmarked_cleared(
    table: Seq<u8>,
    marks: Seq<u8>,
    lo: int,
    hi: int,
    per_line: int,
    state: u8,
) -> Seq<u8> {
    Seq::new(
        table.len(),
        |i: int|
            if lo <= i / per_line < hi && marks[i / per_line] != state {
                0
            } else {
                table[i]
            },
    )
}

/// A run of lines has at most as many marked lines as lines, and at most half as many holes,
/// rounded up.
pub proof fn lemma_line_counts(marks: Seq<u8>, lo: int, hi: int, state: u8)
    requires
        lo <= hi,
    ensures
        count_marked(marks, lo, hi, state) <= hi - lo,
        2 * count_holes(marks, lo, hi, state) <= hi - lo + (if lo < hi && marks[hi - 1] != state {
            1int
        } else {
            0int
        }),
    decreases hi - lo,
{
    if lo < hi {
        lemma_line_counts(marks, lo, hi - 1, state);
    }
}

/// Lines that carry the same marks count the same.
pub proof fn lemma_same_marks(a: Seq<u8>, b: Seq<u8>, lo: int, hi: int, state: u8)
    requires
        forall|l: int| lo <= l < hi ==> a[l] == #[trigger] b[l],
    ensures
        count_marked(a, lo, hi, state) == count_marked(b, lo, hi, state),
    decreases hi - lo,
{
    if lo < hi {
        lemma_same_marks(a, b, lo, hi - 1, state);
        assert(a[hi - 1] == b[hi - 1]);
    }
}

/// A run of lines with a marked line has marked lines.
pub proof fn lemma_marked_line_counts(marks: Seq<u8>, lo: int, hi: int, state: u8, line: int)
    requires
        lo <= line < hi,
        marks[line] == state,
    ensures
        count_marked(marks, lo, hi, state) > 0,
    decreases hi - lo,
{
    if line < hi - 1 {
        lemma_marked_line_counts(marks, lo, hi - 1, state, line);
    }
}

/// Where a block stands in the per-block, per-line and per-object tables.
pub proof fn lemma_block_positions(m: MetadataView, block: Block)
    requires
        m.wf(),
        block.valid(m),
    ensures
        0 <= block.index(m) < m.block_mark.len(),
        block.addr() == m.start + block.index(m) * BYTES_IN_BLOCK,
        block.addr() + BYTES_IN_BLOCK <= m.end(),
        m.line(block.addr()) == block.first_line(m),
        m.cell(block.addr()) == block.first_cell(m),
        0 <= block.first_line(m),
        block.end_line_index(m) <= m.line_mark.len(),
        0 <= block.first_cell(m),
        block.end_cell(m) <= m.rc.len(),
{
}

/// What a pool of reusable blocks holds.
#[verifier::ext_equal]
pub ghost struct ReusablePoolView {
    /// Blocks that are still in the queue of the worker that added them.
    pub pending: Seq<Block>,
    /// Blocks that any worker can take.
    pub shared: Seq<Block>,
    /// The number of workers that the pool was made for.
    pub workers: usize,
}

impl ReusablePoolView {
    /// All blocks of the pool.
    pub open spec fn all(self) -> Seq<Block> {
        self.shared + self.pending
    }

    /// How many blocks the pool has, or the largest `usize` if there are more.
    pub open spec fn count(self) -> usize {
        if self.all().len() <= usize::MAX {
            self.all().len() as usize
        } else {
            usize::MAX
        }
    }
}

/// A list of blocks with free lines.
pub struct ReusableBlockPool {
    pending: Vec<Block>,
    shared: Vec<Block>,
    num_workers: usize,
}

impl View for ReusableBlockPool {
    type V = ReusablePoolView;

    closed spec fn view(&self) -> ReusablePoolView {
        ReusablePoolView {
            pending: self.pending@,
            shared: self.shared@,
            workers: self.num_workers,
        }
    }
}

impl ReusableBlockPool {
    /// An empty list.
    pub fn new(num_workers: usize) -> (pool: Self)
        ensures
            pool@ == (ReusablePoolView {
                pending: Seq::empty(),
                shared: Seq::empty(),
                workers: num_workers,
            }),
    {
        ReusableBlockPool { pending: Vec::new(), shared: Vec::new(), num_workers }
    }

    /// The number of blocks in the list.
    pub fn len(&self) -> (len: usize)
        ensures
            len == self@.count(),
    {
        self.pending.len().saturating_add(self.shared.len())
    }

    /// Adds a block to the list.
    pub fn push(&mut self, block: Block)
        ensures
            final(self)@ == (ReusablePoolView {
                pending: old(self)@.pending.push(block),
                ..old(self)@
            }),
    {
        self.pending.push(block);
    }

    /// Takes a block that any worker can take, or returns `None` iff there is none.
    pub fn pop(&mut self) -> (block: Option<Block>)
        ensures
            old(self)@.shared.len() == 0 ==> block is None && final(self)@ == old(self)@,
            old(self)@.shared.len() > 0 ==> block == Some(old(self)@.shared.last()) && final(self)@
                == (ReusablePoolView { shared: old(self)@.shared.drop_last(), ..old(self)@ }),
    {
        self.shared.pop()
    }

    /// Empties the list.
    pub fn reset(&mut self)
        ensures
            final(self)@ == (ReusablePoolView {
                pending: Seq::empty(),
                shared: Seq::empty(),
                ..old(self)@
            }),
    {
        let num_workers: usize = self.num_workers;
        *self = ReusableBlockPool::new(num_workers);
    }

    /// All blocks of the list.
    pub fn iterate_blocks(&self) -> (blocks: Vec<Block>)
        ensures
            blocks@ == self@.all(),
    {
        let mut blocks: Vec<Block> = Vec::new();
        let mut i: usize = 0;
        while i < self.shared.len()
            invariant
                i <= self.shared@.len(),
                blocks@ == self.shared@.subrange(0, i as int),
            decreases self.shared@.len() - i,
        {
            blocks.push(self.shared[i]);
            i += 1;
        }
        i = 0;
        while i < self.pending.len()
            invariant
                i <= self.pending@.len(),
                blocks@ == self.shared@ + self.pending@.subrange(0, i as int),
            decreases self.pending@.len() - i,
        {
            blocks.push(self.pending[i]);
            i += 1;
        }
        blocks
    }

    /// Makes every block of the list available to all workers.
    pub fn flush_all(&mut self)
        ensures
            final(self)@ == (ReusablePoolView {
                pending: Seq::empty(),
                shared: old(self)@.shared + old(self)@.pending,
                ..old(self)@
            }),
    {
        self.shared.append(&mut self.pending);
    }
}

} // verus!
