//! Which chunks hold blocks of the Immix space.

use crate::util::address::Address;
use crate::util::constants::BYTES_IN_CHUNK;
use crate::util::linear_scan::Chunk;
use crate::util::metadata::{HeapMetadata, MetadataView};
use vstd::prelude::*;

verus! {

/// The state of a chunk that belongs to the space.
#[derive(Debug, Clone, Copy, PartialEq, Eq, Structural)]
pub enum ChunkState {
    /// The chunk holds no block of the space.
    Free,
    /// The chunk holds blocks of the space.
    Allocated,
}

impl ChunkState {
    /// Whether the chunk holds blocks of the space.
    pub fn is_allocated(&self) -> (allocated: bool)
        ensures
            allocated == (self is Allocated),
    {
        *self == ChunkState::Allocated
    }
}

/// The chunk at position `index` of the heap.
pub open spec fn chunk_at(m: MetadataView, index: int) -> Chunk {
    Chunk(Address((m.start + index * BYTES_IN_CHUNK) as usize))
}

/// The chunks of the positions `0..n` whose entry is set, in address order.
pub open spec fn chunks_set(m: MetadataView, allocated: Seq<bool>, n: int) -> Seq<Chunk>
    decreases n,
{
    if n <= 0 {
        Seq::empty()
    } else if allocated[n - 1] {
        chunks_set(m, allocated, n - 1).push(chunk_at(m, n - 1))
    } else {
        chunks_set(m, allocated, n - 1)
    }
}

/// A chunk is listed iff its entry is set, and no chunk is listed twice.
pub proof fn law_chunks_set_lists_each_once(m: MetadataView, allocated: Seq<bool>, n: int)
    requires
        m.wf(),
        0 <= n <= m.chunks,
        allocated.len() == m.chunks,
    ensures
        forall|i: int|
            0 <= i < n ==> allocated[i] == #[trigger] chunks_set(m, allocated, n).contains(
                chunk_at(m, i),
            ),
        chunks_set(m, allocated, n).no_duplicates(),
        forall|k: int|
            0 <= k < chunks_set(m, allocated, n).len() ==> (#[trigger] chunks_set(
                m,
                allocated,
                n,
            )[k]).0.0 < m.start + n * BYTES_IN_CHUNK,
    decreases n,
{
    if n > 0 {
        law_chunks_set_lists_each_once(m, allocated, n - 1);
        let before = chunks_set(m, allocated, n - 1);
        let after = chunks_set(m, allocated, n);
        let last = chunk_at(m, n - 1);
        assert(last.0.0 == m.start + (n - 1) * BYTES_IN_CHUNK);
        if allocated[n - 1] {
            assert(after[after.len() - 1] == last);
            assert forall|i: int| 0 <= i < n implies allocated[i] == #[trigger] after.contains(
                chunk_at(m, i),
            ) by {
                if i < n - 1 {
                    if before.contains(chunk_at(m, i)) {
                        let k = choose|k: int| 0 <= k < before.len() && before[k] == chunk_at(m, i);
                        assert(after[k] == chunk_at(m, i));
                    }
                    if after.contains(chunk_at(m, i)) {
                        let k = choose|k: int| 0 <= k < after.len() && after[k] == chunk_at(m, i);
                        assert(chunk_at(m, i).0.0 == m.start + i * BYTES_IN_CHUNK);
                        assert(k < before.len());
                        assert(before[k] == chunk_at(m, i));
                    }
                }
            }
        } else {
            assert forall|i: int| 0 <= i < n implies allocated[i] == #[trigger] after.contains(
                chunk_at(m, i),
            ) by {
                if i == n - 1 && after.contains(chunk_at(m, i)) {
                    let k = choose|k: int| 0 <= k < after.len() && after[k] == chunk_at(m, i);
                    assert(before[k].0.0 < m.start + (n - 1) * BYTES_IN_CHUNK);
                }
            }
        }
    }
}

/// Which chunks hold blocks of the space.
pub struct ChunkMap {
    /// Per chunk of the heap: whether it holds blocks of the space.
    pub allocated: Vec<bool>,
}

impl View for ChunkMap {
    type V = Seq<bool>;

    open spec fn view(&self) -> Seq<bool> {
        self.allocated@
    }
}

impl ChunkMap {
    /// A map for a heap of `chunks` chunks in which no chunk holds blocks.
    pub fn new(chunks: usize) -> (map: Self)
        ensures
            map@ == Seq::new(chunks as nat, |i: int| false),
    {
        let mut allocated: Vec<bool> = Vec::new();
        allocated.resize(chunks, false);
        assert(allocated@ =~= Seq::new(chunks as nat, |i: int| false));
        ChunkMap { allocated }
    }

    /// The state of a chunk, or `None` if it does not belong to the space.
    pub fn get(&self, meta: &HeapMetadata, chunk: Chunk) -> (state: Option<ChunkState>)
        requires
            meta.wf(),
            self@.len() == meta@.chunks,
        ensures
            state == (if meta@.in_heap(chunk.0.0 as int) && self@[meta@.chunk(chunk.0.0 as int)] {
                Some(ChunkState::Allocated)
            } else {
                None
            }),
    {
        if meta.in_heap(chunk.0) && self.allocated[meta.chunk(chunk.0)] {
            Some(ChunkState::Allocated)
        } else {
            None
        }
    }

    /// Records whether a chunk holds blocks of the space.
    pub fn set_allocated(&mut self, meta: &HeapMetadata, chunk: Chunk, allocated: bool)
        requires
            meta.wf(),
            old(self)@.len() == meta@.chunks,
            meta@.in_heap(chunk.0.0 as int),
        ensures
            final(self)@ == old(self)@.update(meta@.chunk(chunk.0.0 as int), allocated),
    {
        let index: usize = meta.chunk(chunk.0);
        self.allocated.set(index, allocated);
    }

    /// The chunks that hold blocks of the space, in address order.
    pub fn all_chunks(&self, meta: &HeapMetadata) -> (chunks: Vec<Chunk>)
        requires
            meta.wf(),
            self@.len() == meta@.chunks,
        ensures
            chunks@ == chunks_set(meta@, self@, meta@.chunks),
    {
        let mut chunks: Vec<Chunk> = Vec::new();
        let mut i: usize = 0;
        while i < meta.chunks
            invariant
                i <= meta.chunks,
                meta.wf(),
                self@.len() == meta@.chunks,
                chunks@ == chunks_set(meta@, self@, i as int),
            decreases meta.chunks - i,
        {
            if self.allocated[i] {
                chunks.push(Chunk(Address(meta.start.0 + i * BYTES_IN_CHUNK)));
            }
            i += 1;
        }
        chunks
    }
}

} // verus!
