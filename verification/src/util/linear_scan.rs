//! Chunks: the aligned regions in which spaces own memory.

use crate::util::address::Address;
use crate::policy::immix::block::Block;
use crate::util::constants::{
    BLOCKS_IN_CHUNK, BYTES_IN_BLOCK, BYTES_IN_CHUNK, CELLS_IN_CHUNK,
};
use crate::util::metadata::MetadataView;
use vstd::prelude::*;

verus! {

/// A chunk of the heap.
#[derive(Debug, Clone, Copy, PartialEq, Eq, Structural)]
pub struct Chunk(pub Address);

impl Chunk {
    /// Bytes in a chunk.
    pub const BYTES: usize = BYTES_IN_CHUNK;

    /// The chunk that contains `address`.
    pub fn from_unaligned_address(address: Address) -> (chunk: Self)
        ensures
            chunk.0.0 as int == address.0 - address.0 as int % BYTES_IN_CHUNK as int,
    {
        Chunk(Address(address.0 - address.0 % BYTES_IN_CHUNK))
    }

    /// The first address of the chunk.
    pub fn start(&self) -> (address: Address)
        ensures
            address == self.0,
    {
        self.0
    }

    /// The address of the chunk as an integer.
    pub open spec fn addr(self) -> int {
        self.0.0 as int
    }

    /// The chunk lies in the heap and is chunk aligned.
    pub open spec fn valid(self, m: MetadataView) -> bool {
        m.in_heap(self.addr()) && self.addr() % BYTES_IN_CHUNK as int == 0
    }

    /// The position of the chunk in the per-chunk tables.
    pub open spec fn index(self, m: MetadataView) -> int {
        m.chunk(self.addr())
    }

    /// The first position of the chunk in the per-object tables.
    pub open spec fn first_cell(self, m: MetadataView) -> int {
        self.index(m) * CELLS_IN_CHUNK
    }

    /// The position after the chunk in the per-object tables.
    pub open spec fn end_cell(self, m: MetadataView) -> int {
        (self.index(m) + 1) * CELLS_IN_CHUNK
    }

    /// The first position of the chunk in the per-block tables.
    pub open spec fn first_block(self, m: MetadataView) -> int {
        self.index(m) * BLOCKS_IN_CHUNK
    }

    /// The block at position `i` within the chunk.
    pub open spec fn block_at(self, i: int) -> Block {
        Block(Address((self.addr() + i * BYTES_IN_BLOCK) as usize))
    }

    /// Where the chunk and its blocks stand in the tables.
    pub proof fn lemma_positions(self, m: MetadataView)
        requires
            m.wf(),
            self.valid(m),
        ensures
            0 <= self.index(m) < m.chunks,
            self.addr() == m.start + self.index(m) * BYTES_IN_CHUNK,
            self.addr() + BYTES_IN_CHUNK <= m.end(),
            m.cell(self.addr()) == self.first_cell(m),
            0 <= self.first_cell(m),
            self.end_cell(m) <= m.rc.len(),
            forall|i: int|
                0 <= i < BLOCKS_IN_CHUNK ==> (#[trigger] self.block_at(i)).valid(m)
                    && self.block_at(i).index(m) == self.first_block(m) + i
                    && self.block_at(i).addr() == self.addr() + i * BYTES_IN_BLOCK,
    {
        let k = self.index(m);
        lemma_chunk_position(m.start, m.chunks, self.addr());
        assert forall|i: int| 0 <= i < BLOCKS_IN_CHUNK implies (#[trigger] self.block_at(i)).valid(
            m,
        ) && self.block_at(i).index(m) == self.first_block(m) + i && self.block_at(i).addr()
            == self.addr() + i * BYTES_IN_BLOCK by {
            lemma_block_position(m.start, k, i);
        }
    }

    /// The chunk after this one.
    pub fn next(&self) -> (chunk: Self)
        requires
            self.addr() + BYTES_IN_CHUNK <= usize::MAX,
        ensures
            chunk.addr() == self.addr() + BYTES_IN_CHUNK,
    {
        Chunk(Address(self.0.0 + BYTES_IN_CHUNK))
    }

    /// The chunk `n` places after this one.
    pub fn next_nth(&self, n: usize) -> (chunk: Self)
        requires
            self.addr() + n * BYTES_IN_CHUNK <= usize::MAX,
        ensures
            chunk.addr() == self.addr() + n * BYTES_IN_CHUNK,
    {
        Chunk(Address(self.0.0 + n * BYTES_IN_CHUNK))
    }

    /// The block at position `i` within the chunk.
    pub fn block(&self, i: usize) -> (block: Block)
        requires
            self.addr() + BYTES_IN_CHUNK <= usize::MAX,
            i < BLOCKS_IN_CHUNK,
        ensures
            block == self.block_at(i as int),
    {
        Block(Address(self.0.0 + i * BYTES_IN_BLOCK))
    }
}

/// Where a chunk-aligned address of a heap stands.
proof fn lemma_chunk_position(start: int, chunks: int, address: int)
    requires
        start % 4194304 == 0,
        address % 4194304 == 0,
        start <= address < start + chunks * 4194304,
    ensures
        0 <= (address - start) / 4194304 < chunks,
        address == start + (address - start) / 4194304 * 4194304,
        (address - start) / 8 == (address - start) / 4194304 * 524288,
        address + 4194304 <= start + chunks * 4194304,
{
}

/// Where a block of a chunk of a heap stands.
proof fn lemma_block_position(start: int, k: int, i: int)
    requires
        start % 4194304 == 0,
        0 <= k,
        0 <= i < 128,
    ensures
        (start + k * 4194304 + i * 32768) % 32768 == 0,
        (k * 4194304 + i * 32768) / 32768 == k * 128 + i,
        k * 4194304 + i * 32768 < (k + 1) * 4194304,
{
    let x = k * 128 + i;
    assert(k * 4194304 + i * 32768 == 32768 * x);
    vstd::arithmetic::div_mod::lemma_div_multiples_vanish(x, 32768);
    let y = start / 4194304 * 128 + x;
    assert(start + k * 4194304 + i * 32768 == y * 32768);
    vstd::arithmetic::div_mod::lemma_mod_multiples_basic(y, 32768);
}

} // verus!
