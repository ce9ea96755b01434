//! The metadata tables of the whole heap.
//!
//! The heap is a contiguous run of chunks. Everything the collector knows about a block, a line
//! or an object lives in tables beside the heap, indexed by the distance from the heap's start.
//! The tables are owned by one value: an operation takes them by exclusive reference, and so is
//! one indivisible step.

use crate::util::address::{Address, ObjectReference};
use crate::util::constants::{
    BLOCKS_IN_CHUNK, BYTES_IN_BLOCK, BYTES_IN_CHUNK, BYTES_IN_LINE, CELLS_IN_CHUNK,
    LINES_IN_CHUNK, MIN_OBJECT_SIZE,
};
use crate::util::side_metadata::SideMetadataTable;
use vstd::prelude::*;

verus! {

/// The largest reference count. An object that reaches it keeps it: only a trace can reclaim it.
pub const MAX_REF_COUNT: u8 = 3;

/// The space that owns a chunk.
#[derive(Debug, Clone, Copy, PartialEq, Eq, Structural)]
pub enum SpaceKind {
    /// No space owns the chunk; it is not mapped.
    Unmapped,
    /// The Immix space.
    Immix,
    /// The large-object space.
    LargeObject,
    /// The immortal space.
    Immortal,
    /// The non-moving space.
    NonMoving,
    /// The copying nursery.
    Nursery,
    /// The first aging space of the nursery.
    Aged0,
    /// The second aging space of the nursery.
    Aged1,
}

/// What the tables hold.
#[verifier::ext_equal]
pub ghost struct MetadataView {
    /// The first address of the heap.
    pub start: int,
    /// The number of chunks in the heap.
    pub chunks: int,
    /// Per chunk: the space that owns it.
    pub spaces: Seq<SpaceKind>,
    /// Per block: the mark state.
    pub block_mark: Seq<u8>,
    /// Per block: the defrag state, which is a number of holes or the defrag-source mark.
    pub block_defrag: Seq<u8>,
    /// Per block: whether the block waits for a mature sweep.
    pub block_log: Seq<u8>,
    /// Per block: whether the block was promoted in place.
    pub block_promoted: Seq<u8>,
    /// Per block: the phase in which the block last took allocations.
    pub block_epoch: Seq<u8>,
    /// Per line: the mark state.
    pub line_mark: Seq<u8>,
    /// Per line: whether an object from an earlier line covers it.
    pub straddle: Seq<u8>,
    /// Per object: the reference count.
    pub rc: Seq<u8>,
    /// Per object: the mark bit.
    pub mark: Seq<u8>,
    /// Per object: the forwarding bits.
    pub forwarding_bits: Seq<u8>,
    /// Per object: the header word that holds a forwarding pointer.
    pub forwarding_word: Seq<u64>,
    /// Per field: 1 iff the field is unlogged.
    pub field_unlog: Seq<u8>,
    /// Per object: 1 iff the object is unlogged.
    pub log_bit: Seq<u8>,
    /// Per object: 1 iff a valid object starts there.
    pub vo_bit: Seq<u8>,
    /// Per object: 1 iff the object is pinned.
    pub pin_bit: Seq<u8>,
    /// The current phase, which runs through `1..=254`.
    pub global_phase_epoch: u8,
    /// The number of buffered increments.
    pub inc_buffer_size: usize,
}

impl MetadataView {
    /// The first address after the heap.
    pub open spec fn end(self) -> int {
        self.start + self.chunks * BYTES_IN_CHUNK
    }

    /// Whether `address` lies in the heap.
    pub open spec fn in_heap(self, address: int) -> bool {
        self.start <= address < self.end()
    }

    /// The position of `address` in the per-object tables.
    pub open spec fn cell(self, address: int) -> int {
        (address - self.start) / MIN_OBJECT_SIZE as int
    }

    /// The position of `address` in the per-line tables.
    pub open spec fn line(self, address: int) -> int {
        (address - self.start) / BYTES_IN_LINE as int
    }

    /// The position of `address` in the per-block tables.
    pub open spec fn block(self, address: int) -> int {
        (address - self.start) / BYTES_IN_BLOCK as int
    }

    /// The position of `address` in the per-chunk tables.
    pub open spec fn chunk(self, address: int) -> int {
        (address - self.start) / BYTES_IN_CHUNK as int
    }

    /// The space that owns `address`.
    pub open spec fn space_of(self, address: int) -> SpaceKind {
        if self.in_heap(address) {
            self.spaces[self.chunk(address)]
        } else {
            SpaceKind::Unmapped
        }
    }

    /// Whether `address` lies in a space.
    pub open spec fn in_spaces(self, address: int) -> bool {
        self.space_of(address) != SpaceKind::Unmapped
    }

    /// The tables cover the heap, and their entries are in range.
    pub open spec fn wf(self) -> bool {
        &&& self.start >= BYTES_IN_CHUNK
        &&& self.start % BYTES_IN_CHUNK as int == 0
        &&& self.chunks >= 0
        &&& self.end() <= usize::MAX
        &&& self.spaces.len() == self.chunks
        &&& self.block_mark.len() == self.chunks * BLOCKS_IN_CHUNK
        &&& self.block_defrag.len() == self.chunks * BLOCKS_IN_CHUNK
        &&& self.block_log.len() == self.chunks * BLOCKS_IN_CHUNK
        &&& self.block_promoted.len() == self.chunks * BLOCKS_IN_CHUNK
        &&& self.block_epoch.len() == self.chunks * BLOCKS_IN_CHUNK
        &&& self.line_mark.len() == self.chunks * LINES_IN_CHUNK
        &&& self.straddle.len() == self.chunks * LINES_IN_CHUNK
        &&& self.rc.len() == self.chunks * CELLS_IN_CHUNK
        &&& self.mark.len() == self.chunks * CELLS_IN_CHUNK
        &&& self.forwarding_bits.len() == self.chunks * CELLS_IN_CHUNK
        &&& self.forwarding_word.len() == self.chunks * CELLS_IN_CHUNK
        &&& self.field_unlog.len() == self.chunks * CELLS_IN_CHUNK
        &&& self.log_bit.len() == self.chunks * CELLS_IN_CHUNK
        &&& self.vo_bit.len() == self.chunks * CELLS_IN_CHUNK
        &&& self.pin_bit.len() == self.chunks * CELLS_IN_CHUNK
        &&& 1 <= self.global_phase_epoch <= 254
        &&& forall|i: int| 0 <= i < self.rc.len() ==> #[trigger] self.rc[i] <= MAX_REF_COUNT
        &&& forall|i: int| 0 <= i < self.block_log.len() ==> #[trigger] self.block_log[i] <= 1
        &&& forall|i: int|
            0 <= i < self.block_promoted.len() ==> #[trigger] self.block_promoted[i] <= 1
        &&& forall|i: int| 0 <= i < self.field_unlog.len() ==> #[trigger] self.field_unlog[i] <= 1
    }
}

/// The metadata tables of the heap.
pub struct HeapMetadata {
    /// The first address of the heap.
    pub start: Address,
    /// The number of chunks in the heap.
    pub chunks: usize,
    /// Per chunk: the space that owns it.
    pub spaces: Vec<SpaceKind>,
    /// Per block: the mark state.
    pub block_mark: SideMetadataTable,
    /// Per block: the defrag state.
    pub block_defrag: SideMetadataTable,
    /// Per block: whether the block waits for a mature sweep.
    pub block_log: SideMetadataTable,
    /// Per block: whether the block was promoted in place.
    pub block_promoted: SideMetadataTable,
    /// Per block: the phase in which the block last took allocations.
    pub block_epoch: SideMetadataTable,
    /// Per line: the mark state.
    pub line_mark: SideMetadataTable,
    /// Per line: whether an object from an earlier line covers it.
    pub straddle: SideMetadataTable,
    /// Per object: the reference count.
    pub rc: SideMetadataTable,
    /// Per object: the mark bit.
    pub mark: SideMetadataTable,
    /// Per object: the forwarding bits.
    pub forwarding_bits: SideMetadataTable,
    /// Per object: the header word that holds a forwarding pointer.
    pub forwarding_word: Vec<u64>,
    /// Per field: whether the field is unlogged.
    pub field_unlog: SideMetadataTable,
    /// Per object: whether the object is unlogged.
    pub log_bit: SideMetadataTable,
    /// Per object: whether a valid object starts there.
    pub vo_bit: SideMetadataTable,
    /// Per object: whether the object is pinned.
    pub pin_bit: SideMetadataTable,
    /// The current phase.
    pub global_phase_epoch: u8,
    /// The number of buffered increments.
    pub inc_buffer_size: usize,
}

impl View for HeapMetadata {
    type V = MetadataView;

    open spec fn view(&self) -> MetadataView {
        MetadataView {
            start: self.start.0 as int,
            chunks: self.chunks as int,
            spaces: self.spaces@,
            block_mark: self.block_mark@,
            block_defrag: self.block_defrag@,
            block_log: self.block_log@,
            block_promoted: self.block_promoted@,
            block_epoch: self.block_epoch@,
            line_mark: self.line_mark@,
            straddle: self.straddle@,
            rc: self.rc@,
            mark: self.mark@,
            forwarding_bits: self.forwarding_bits@,
            forwarding_word: self.forwarding_word@,
            field_unlog: self.field_unlog@,
            log_bit: self.log_bit@,
            vo_bit: self.vo_bit@,
            pin_bit: self.pin_bit@,
            global_phase_epoch: self.global_phase_epoch,
            inc_buffer_size: self.inc_buffer_size,
        }
    }
}

impl HeapMetadata {
    /// The tables cover the heap, and their entries are in range.
    pub open spec fn wf(&self) -> bool {
        self@.wf()
    }

    /// Tables for a heap of `chunks` chunks from `start`, with every entry zero, no chunk owned
    /// by a space, and the phase at its first value.
    pub fn new(start: Address, chunks: usize) -> (meta: Self)
        requires
            start.0 >= BYTES_IN_CHUNK,
            start.0 as int % BYTES_IN_CHUNK as int == 0,
            start.0 + chunks * BYTES_IN_CHUNK <= usize::MAX,
        ensures
            meta.wf(),
            meta@.start == start.0,
            meta@.chunks == chunks,
            forall|i: int| 0 <= i < chunks ==> #[trigger] meta@.spaces[i] == SpaceKind::Unmapped,
            forall|i: int|
                0 <= i < meta@.block_mark.len() ==> #[trigger] meta@.block_mark[i] == 0,
            forall|i: int|
                0 <= i < meta@.block_defrag.len() ==> #[trigger] meta@.block_defrag[i] == 0,
            forall|i: int| 0 <= i < meta@.block_log.len() ==> #[trigger] meta@.block_log[i] == 0,
            forall|i: int|
                0 <= i < meta@.block_promoted.len() ==> #[trigger] meta@.block_promoted[i] == 0,
            forall|i: int|
                0 <= i < meta@.block_epoch.len() ==> #[trigger] meta@.block_epoch[i] == 0,
            forall|i: int| 0 <= i < meta@.line_mark.len() ==> #[trigger] meta@.line_mark[i] == 0,
            forall|i: int| 0 <= i < meta@.straddle.len() ==> #[trigger] meta@.straddle[i] == 0,
            forall|i: int| 0 <= i < meta@.rc.len() ==> #[trigger] meta@.rc[i] == 0,
            forall|i: int| 0 <= i < meta@.mark.len() ==> #[trigger] meta@.mark[i] == 0,
            forall|i: int|
                0 <= i < meta@.forwarding_bits.len() ==> #[trigger] meta@.forwarding_bits[i] == 0,
            forall|i: int|
                0 <= i < meta@.forwarding_word.len() ==> #[trigger] meta@.forwarding_word[i] == 0,
            forall|i: int|
                0 <= i < meta@.field_unlog.len() ==> #[trigger] meta@.field_unlog[i] == 0,
            forall|i: int| 0 <= i < meta@.log_bit.len() ==> #[trigger] meta@.log_bit[i] == 0,
            forall|i: int| 0 <= i < meta@.vo_bit.len() ==> #[trigger] meta@.vo_bit[i] == 0,
            forall|i: int| 0 <= i < meta@.pin_bit.len() ==> #[trigger] meta@.pin_bit[i] == 0,
            meta@.global_phase_epoch == 1,
            meta@.inc_buffer_size == 0,
    {
        let mut spaces: Vec<SpaceKind> = Vec::new();
        let mut i: usize = 0;
        while i < chunks
            invariant
                i <= chunks,
                spaces@.len() == i,
                forall|j: int| 0 <= j < i ==> #[trigger] spaces@[j] == SpaceKind::Unmapped,
            decreases chunks - i,
        {
            spaces.push(SpaceKind::Unmapped);
            i += 1;
        }
        let blocks: usize = chunks * BLOCKS_IN_CHUNK;
        let lines: usize = chunks * LINES_IN_CHUNK;
        let cells: usize = chunks * CELLS_IN_CHUNK;
        let mut words: Vec<u64> = Vec::new();
        words.resize(cells, 0);
        HeapMetadata {
            start,
            chunks,
            spaces,
            block_mark: SideMetadataTable::new(blocks),
            block_defrag: SideMetadataTable::new(blocks),
            block_log: SideMetadataTable::new(blocks),
            block_promoted: SideMetadataTable::new(blocks),
            block_epoch: SideMetadataTable::new(blocks),
            line_mark: SideMetadataTable::new(lines),
            straddle: SideMetadataTable::new(lines),
            rc: SideMetadataTable::new(cells),
            mark: SideMetadataTable::new(cells),
            forwarding_bits: SideMetadataTable::new(cells),
            forwarding_word: words,
            field_unlog: SideMetadataTable::new(cells),
            log_bit: SideMetadataTable::new(cells),
            vo_bit: SideMetadataTable::new(cells),
            pin_bit: SideMetadataTable::new(cells),
            global_phase_epoch: 1,
            inc_buffer_size: 0,
        }
    }

    /// Whether `address` lies in the heap.
    pub fn in_heap(&self, address: Address) -> (inside: bool)
        requires
            self.wf(),
        ensures
            inside == self@.in_heap(address.0 as int),
    {
        address.0 >= self.start.0 && address.0 < self.start.0 + self.chunks * BYTES_IN_CHUNK
    }

    /// The position of `address` in the per-object tables.
    pub fn cell(&self, address: Address) -> (index: usize)
        requires
            self.wf(),
            self@.in_heap(address.0 as int),
        ensures
            index == self@.cell(address.0 as int),
            index < self@.rc.len(),
    {
        (address.0 - self.start.0) / MIN_OBJECT_SIZE
    }

    /// The position of `address` in the per-line tables.
    pub fn line(&self, address: Address) -> (index: usize)
        requires
            self.wf(),
            self@.in_heap(address.0 as int),
        ensures
            index == self@.line(address.0 as int),
            index < self@.line_mark.len(),
    {
        (address.0 - self.start.0) / BYTES_IN_LINE
    }

    /// The position of `address` in the per-block tables.
    pub fn block(&self, address: Address) -> (index: usize)
        requires
            self.wf(),
            self@.in_heap(address.0 as int),
        ensures
            index == self@.block(address.0 as int),
            index < self@.block_mark.len(),
    {
        (address.0 - self.start.0) / BYTES_IN_BLOCK
    }

    /// The position of `address` in the per-chunk tables.
    pub fn chunk(&self, address: Address) -> (index: usize)
        requires
            self.wf(),
            self@.in_heap(address.0 as int),
        ensures
            index == self@.chunk(address.0 as int),
            index < self@.chunks,
    {
        (address.0 - self.start.0) / BYTES_IN_CHUNK
    }

    /// The space that owns `address`.
    pub fn space_of(&self, address: Address) -> (space: SpaceKind)
        requires
            self.wf(),
        ensures
            space == self@.space_of(address.0 as int),
    {
        if self.in_heap(address) {
            self.spaces[self.chunk(address)]
        } else {
            SpaceKind::Unmapped
        }
    }

    /// Whether `object` lies in a space. The object is not read.
    pub fn is_in_mmtk_spaces(&self, object: ObjectReference) -> (inside: bool)
        requires
            self.wf(),
        ensures
            inside == self@.in_spaces(object.addr()),
    {
        self.space_of(object.0) != SpaceKind::Unmapped
    }

    /// Gives a chunk to a space.
    pub fn set_space(&mut self, index: usize, space: SpaceKind)
        requires
            old(self).wf(),
            index < old(self)@.chunks,
        ensures
            final(self).wf(),
            final(self)@ == (MetadataView {
                spaces: old(self)@.spaces.update(index as int, space),
                ..old(self)@
            }),
    {
        self.spaces.set(index, space);
    }
}

/// The positions of an address in the per-object, per-line, per-block and per-chunk tables are
/// within the tables, and refine one another.
pub proof fn lemma_positions(m: MetadataView, address: int)
    requires
        m.wf(),
        m.in_heap(address),
    ensures
        0 <= m.cell(address) < m.rc.len(),
        0 <= m.line(address) < m.line_mark.len(),
        0 <= m.block(address) < m.block_mark.len(),
        0 <= m.chunk(address) < m.chunks,
        m.line(address) == m.cell(address) / 32,
        m.block(address) == m.line(address) / 128,
        m.block(address) == m.cell(address) / 4096,
        m.chunk(address) == m.block(address) / 128,
{
}

} // verus!
