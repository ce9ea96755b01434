//! Work on the blocks of a space that counts references: the sweep of mature blocks that
//! decrements left possibly dead, and the sweep of dead cycles after a trace.

use crate::policy::immix::block::{lemma_block_positions, Block, BlockState};
use crate::policy::immix::immixspace::{ImmixSpace, ImmixSpaceView};
use crate::policy::immix::line::Line;
use crate::util::address::{Address, ObjectReference};
use crate::util::constants::{
    BLOCKS_IN_CHUNK, BYTES_IN_BLOCK, BYTES_IN_CHUNK, CELLS_IN_BLOCK, CELLS_IN_CHUNK, CELLS_IN_LINE,
    MIN_OBJECT_SIZE,
};
use crate::util::linear_scan::Chunk;
use crate::util::metadata::{HeapMetadata, MetadataView};
use crate::util::rc::{object_straddle, with_count, RefCountHelper};
use crate::util::vm::ObjectModel;
use crate::LazySweepingJobsCounter;
use vstd::prelude::*;

verus! {

/// What a sweep of blocks has come to.
#[verifier::ext_equal]
pub ghost struct BlockSweep {
    /// The tables.
    pub m: MetadataView,
    /// The space.
    pub s: ImmixSpaceView,
    /// How many blocks were freed.
    pub freed: int,
}

/// Sweeps the mature blocks that a batch of decrements left possibly dead.
pub struct SweepBlocksAfterDecs {
    blocks: Vec<(Block, bool)>,
    counter: LazySweepingJobsCounter,
}

impl SweepBlocksAfterDecs {
    /// The blocks to sweep, each with whether it must be freed.
    pub closed spec fn blocks(self) -> Seq<(Block, bool)> {
        self.blocks@
    }

    /// The counters of the job.
    pub closed spec fn counter(self) -> LazySweepingJobsCounter {
        self.counter
    }

    /// A packet for the given blocks.
    pub fn new(blocks: Vec<(Block, bool)>, counter: LazySweepingJobsCounter) -> (packet: Self)
        ensures
            packet.blocks() == blocks@,
            packet.counter() == counter,
    {
        SweepBlocksAfterDecs { blocks, counter }
    }

    /// The sweep after one more block: its log bit is cleared, and it is freed if it can be.
    pub open spec fn step(before: BlockSweep, entry: (Block, bool)) -> BlockSweep {
        let block = entry.0;
        let m = MetadataView {
            block_log: before.m.block_log.update(block.index(before.m), 0),
            ..before.m
        };
        if block.freed_by_mature_sweep(m, entry.1, false) {
            BlockSweep {
                m: block.deinitialized_rc(m, before.s.rc_enabled),
                s: before.s.with_freed(block, false),
                freed: before.freed + 1,
            }
        } else {
            BlockSweep { m, ..before }
        }
    }

    /// The sweep after the given blocks.
    pub open spec fn swept(m: MetadataView, s: ImmixSpaceView, blocks: Seq<(Block, bool)>) -> BlockSweep
        decreases blocks.len(),
    {
        if blocks.len() == 0 {
            BlockSweep { m, s, freed: 0 }
        } else {
            Self::step(Self::swept(m, s, blocks.drop_last()), blocks.last())
        }
    }

    /// The blocks can be swept: each lies in the heap and is listed once, those that must be
    /// freed can be, and no free is a double free.
    pub open spec fn sweepable(
        m: MetadataView,
        s: ImmixSpaceView,
        blocks: Seq<(Block, bool)>,
    ) -> bool {
        &&& forall|i: int|
            0 <= i < blocks.len() ==> {
                let entry = #[trigger] blocks[i];
                &&& entry.0.valid(m)
                &&& entry.0.freed_by_mature_sweep(m, entry.1, false) ==> s.can_free(entry.0)
                &&& entry.1 ==> entry.0.sweepable(m)
            }
        &&& forall|i: int, j: int|
            0 <= i < j < blocks.len() ==> (#[trigger] blocks[i]).0 != (#[trigger] blocks[j]).0
    }

    /// The sweep of some blocks leaves the state of all others alone.
    proof fn lemma_swept_frame(
        m: MetadataView,
        s: ImmixSpaceView,
        blocks: Seq<(Block, bool)>,
        other: Block,
    )
        requires
            m.wf(),
            forall|i: int| 0 <= i < blocks.len() ==> (#[trigger] blocks[i]).0.valid(m),
            other.valid(m),
            forall|i: int| 0 <= i < blocks.len() ==> (#[trigger] blocks[i]).0 != other,
        ensures
            ({
                let sweep = Self::swept(m, s, blocks);
                &&& sweep.m.wf()
                &&& sweep.m.start == m.start
                &&& sweep.m.chunks == m.chunks
                &&& sweep.m.rc == m.rc
                &&& sweep.m.global_phase_epoch == m.global_phase_epoch
                &&& sweep.m.block_epoch == m.block_epoch
                &&& sweep.m.block_mark[other.index(m)] == m.block_mark[other.index(m)]
                &&& sweep.s.track_frees == s.track_frees
                &&& sweep.s.rc_enabled == s.rc_enabled
                &&& sweep.s.free_blocks.contains(other.0.0) == s.free_blocks.contains(other.0.0)
                &&& 0 <= sweep.freed <= blocks.len()
            }),
        decreases blocks.len(),
    {
        if blocks.len() > 0 {
            let rest = blocks.drop_last();
            assert forall|i: int| 0 <= i < rest.len() implies (#[trigger] rest[i]).0.valid(m)
                && rest[i].0 != other by {
                assert(rest[i] == blocks[i]);
            }
            Self::lemma_swept_frame(m, s, rest, other);
            let last = blocks.last();
            assert(last == blocks[blocks.len() - 1]);
            lemma_block_positions(m, last.0);
            lemma_block_positions(m, other);
            assert(last.0.index(m) != other.index(m)) by {
                if last.0.index(m) == other.index(m) {
                    assert(last.0.addr() == other.addr());
                    assert(last.0 == other);
                }
            }
        }
    }

    /// Sweeps the blocks. Blocks that were freed outside a pause, or in the stage for decrements,
    /// are counted.
    pub fn do_work(
        &self,
        meta: &mut HeapMetadata,
        space: &mut ImmixSpace,
        in_pause: bool,
        decs_bucket_open: bool,
    )
        requires
            old(meta).wf(),
            Self::sweepable(old(meta)@, old(space)@, self.blocks()),
        ensures
            final(meta).wf(),
            ({
                let sweep = Self::swept(old(meta)@, old(space)@, self.blocks());
                let freed = sweep.freed as usize;
                &&& final(meta)@ == sweep.m
                &&& final(space)@ == if freed != 0 && (!in_pause || decs_bucket_open) {
                    ImmixSpaceView {
                        num_clean_blocks_released_mature:
                            sweep.s.num_clean_blocks_released_mature.wrapping_add(freed),
                        num_clean_blocks_released_lazy:
                            sweep.s.num_clean_blocks_released_lazy.wrapping_add(freed),
                        ..sweep.s
                    }
                } else {
                    sweep.s
                }
            }),
    {
        let ghost m: MetadataView = meta@;
        let ghost s: ImmixSpaceView = space@;
        let mut count: usize = 0;
        let mut i: usize = 0;
        assert(self.blocks@.subrange(0, self.blocks@.len() as int) =~= self.blocks@);
        while i < self.blocks.len()
            invariant
                i <= self.blocks@.len(),
                m.wf(),
                meta.wf(),
                Self::sweepable(m, s, self.blocks@),
                Self::swept(m, s, self.blocks@.subrange(0, i as int)) == (BlockSweep {
                    m: meta@,
                    s: space@,
                    freed: count as int,
                }),
                count <= i,
            decreases self.blocks@.len() - i,
        {
            let ghost done: Seq<(Block, bool)> = self.blocks@.subrange(0, i as int);
            let (block, defrag): (Block, bool) = self.blocks[i];
            proof {
                assert forall|j: int| 0 <= j < done.len() implies (#[trigger] done[j]).0.valid(m)
                    && done[j].0 != block by {
                    assert(done[j] == self.blocks@[j]);
                }
                Self::lemma_swept_frame(m, s, done, block);
                let next = self.blocks@.subrange(0, i + 1);
                assert(next.drop_last() =~= done);
                assert(next.last() == self.blocks@[i as int]);
            }
            block.unlog(meta);
            if block.rc_sweep_mature(meta, space, defrag, false) {
                count += 1;
            }
            i += 1;
        }
        if count != 0 && (!in_pause || decs_bucket_open) {
            space.num_clean_blocks_released_mature =
            space.num_clean_blocks_released_mature.wrapping_add(count);
            space.num_clean_blocks_released_lazy =
            space.num_clean_blocks_released_lazy.wrapping_add(count);
        }
    }
}

/// Blocks that must be freed are freed.
pub proof fn law_sources_are_freed(
    m: MetadataView,
    s: ImmixSpaceView,
    blocks: Seq<(Block, bool)>,
    i: int,
)
    requires
        m.wf(),
        SweepBlocksAfterDecs::sweepable(m, s, blocks),
        0 <= i < blocks.len(),
        blocks[i].1,
    ensures
        SweepBlocksAfterDecs::swept(m, s, blocks.subrange(0, i + 1)).freed
            == SweepBlocksAfterDecs::swept(m, s, blocks.subrange(0, i)).freed + 1,
{
    let done = blocks.subrange(0, i);
    let next = blocks.subrange(0, i + 1);
    let block = blocks[i].0;
    assert forall|j: int| 0 <= j < done.len() implies (#[trigger] done[j]).0.valid(m) && done[j].0
        != block by {
        assert(done[j] == blocks[j]);
    }
    SweepBlocksAfterDecs::lemma_swept_frame(m, s, done, block);
    assert(next.drop_last() =~= done);
    assert(next.last() == blocks[i]);
}

/// A range of chunks.
#[derive(Debug, Clone, Copy, PartialEq, Eq, Structural)]
pub struct ChunkRange {
    /// The first chunk.
    pub start: Chunk,
    /// The chunk after the last one.
    pub end: Chunk,
}

impl ChunkRange {
    /// The bounds are chunk aligned and in order.
    pub open spec fn wf(self) -> bool {
        &&& self.start.addr() % BYTES_IN_CHUNK as int == 0
        &&& self.end.addr() % BYTES_IN_CHUNK as int == 0
        &&& self.start.addr() <= self.end.addr()
    }

    /// The number of chunks in the range.
    pub open spec fn count(self) -> int {
        (self.end.addr() - self.start.addr()) / BYTES_IN_CHUNK as int
    }

    /// The chunk at position `i` of the range.
    pub open spec fn at(self, i: int) -> Chunk {
        Chunk(Address((self.start.addr() + i * BYTES_IN_CHUNK) as usize))
    }

    /// The number of chunks in the range.
    pub fn len(&self) -> (len: usize)
        requires
            self.wf(),
        ensures
            len == self.count(),
    {
        (self.end.0.0 - self.start.0.0) / BYTES_IN_CHUNK
    }
}

/// The chunk belongs to the space.
pub open spec fn in_space(m: MetadataView, s: ImmixSpaceView, chunk: Chunk) -> bool {
    m.in_heap(chunk.addr()) && s.chunk_map[chunk.index(m)]
}

/// Clears the mark bits of a range of chunks, so that a trace starts without marks.
#[derive(Debug, Clone, Copy, PartialEq, Eq, Structural)]
pub struct ChunkMarkZeroing {
    /// The chunks.
    pub chunks: ChunkRange,
}

impl ChunkMarkZeroing {
    /// The mark bits after the first `n` chunks of the range were gone through: those of the
    /// chunks that belong to the space are clear.
    pub open spec fn marks_cleared(self, m: MetadataView, s: ImmixSpaceView, n: int) -> Seq<u8> {
        Seq::new(
            m.mark.len(),
            |i: int|
                {
                    let address = m.start + i / CELLS_IN_CHUNK as int * BYTES_IN_CHUNK;
                    if self.chunks.start.addr() <= address && address < self.chunks.start.addr() + n
                        * BYTES_IN_CHUNK && s.chunk_map[i / CELLS_IN_CHUNK as int] {
                        0
                    } else {
                        m.mark[i]
                    }
                },
        )
    }

    /// Clears the mark bits of a chunk.
    fn reset_object_mark(meta: &mut HeapMetadata, chunk: Chunk)
        requires
            old(meta).wf(),
            chunk.valid(old(meta)@),
        ensures
            final(meta).wf(),
            final(meta)@ == (MetadataView {
                mark: crate::util::side_metadata::filled(
                    old(meta)@.mark,
                    chunk.first_cell(old(meta)@),
                    chunk.end_cell(old(meta)@),
                    0,
                ),
                ..old(meta)@
            }),
    {
        proof {
            chunk.lemma_positions(meta@);
        }
        let first: usize = meta.cell(chunk.0);
        meta.mark.fill(first, first + CELLS_IN_CHUNK, 0);
    }

    /// Clears the mark bits of the chunks that belong to the space.
    pub fn do_work(&self, meta: &mut HeapMetadata, space: &ImmixSpace)
        requires
            old(meta).wf(),
            space@.wf(old(meta)@),
            self.chunks.wf(),
        ensures
            final(meta).wf(),
            final(meta)@ == (MetadataView {
                mark: self.marks_cleared(old(meta)@, space@, self.chunks.count()),
                ..old(meta)@
            }),
    {
        let ghost m: MetadataView = meta@;
        let num_chunks: usize = self.chunks.len();
        assert(self.marks_cleared(m, space@, 0) =~= m.mark);
        let mut i: usize = 0;
        while i < num_chunks
            invariant
                i <= num_chunks,
                num_chunks == self.chunks.count(),
                self.chunks.wf(),
                m.wf(),
                meta.wf(),
                space@.wf(m),
                meta@ == (MetadataView {
                    mark: self.marks_cleared(m, space@, i as int),
                    ..m
                }),
            decreases num_chunks - i,
        {
            let chunk: Chunk = self.chunks.start.next_nth(i);
            if space.chunk_map.get(meta, chunk).is_some() {
                proof {
                    chunk.lemma_positions(m);
                }
                Self::reset_object_mark(meta, chunk);
            }
            i += 1;
            assert(meta@.mark =~= self.marks_cleared(m, space@, i as int));
        }
    }
}

/// What the sweep of the dead cycles of a block has come to.
#[verifier::ext_equal]
pub ghost struct CycleSweep {
    /// The tables.
    pub m: MetadataView,
    /// A live object was found.
    pub live: bool,
}

/// Sweeps dead cycles after a trace: an object with a count that was not marked is only kept by
/// a cycle that nothing reaches. Blocks without a live object are freed.
pub struct SweepDeadCycles {
    chunks: ChunkRange,
    counter: LazySweepingJobsCounter,
    rc: RefCountHelper,
}

impl SweepDeadCycles {
    /// The chunks to sweep.
    pub closed spec fn chunks(self) -> ChunkRange {
        self.chunks
    }

    /// The counters of the job.
    pub closed spec fn counter(self) -> LazySweepingJobsCounter {
        self.counter
    }

    /// A packet for the given chunks.
    pub fn new(chunks: ChunkRange, counter: LazySweepingJobsCounter) -> (packet: Self)
        ensures
            packet.chunks() == chunks,
            packet.counter() == counter,
    {
        SweepDeadCycles { chunks, counter, rc: RefCountHelper }
    }

    /// The cell at position `j` is the start of a line that an earlier object covers, and not an
    /// object.
    pub open spec fn continuation(m: MetadataView, j: int) -> bool {
        j % CELLS_IN_LINE as int == 0 && m.rc[j] == 1 && m.straddle[j / CELLS_IN_LINE as int] != 0
    }

    /// The tables after the object at `address` was reclaimed: its count and the marks of the
    /// lines that it covers are gone.
    pub open spec fn reclaimed(m: MetadataView, address: int, size: int) -> MetadataView {
        with_count(object_straddle(m, address, size, 0), address, 0)
    }

    /// The sweep after the cell at position `j`.
    pub open spec fn cell_swept(
        before: CycleSweep,
        mark_state: u8,
        objects: ObjectModel,
        j: int,
    ) -> CycleSweep {
        let m = before.m;
        let address = m.start + j * MIN_OBJECT_SIZE;
        if m.rc[j] == 0 {
            before
        } else if m.mark[j] == mark_state {
            CycleSweep { live: true, ..before }
        } else if Self::continuation(m, j) {
            before
        } else {
            CycleSweep {
                m: Self::reclaimed(m, address, objects.size(address as usize) as int),
                ..before
            }
        }
    }

    /// The sweep after the cells `lo..hi`.
    pub open spec fn cells_swept(
        m: MetadataView,
        mark_state: u8,
        objects: ObjectModel,
        lo: int,
        hi: int,
    ) -> CycleSweep
        decreases hi - lo,
    {
        if hi <= lo {
            CycleSweep { m, live: false }
        } else {
            Self::cell_swept(
                Self::cells_swept(m, mark_state, objects, lo, hi - 1),
                mark_state,
                objects,
                hi - 1,
            )
        }
    }

    /// What the sweep of the cells `lo..hi` has done: only counts and straddle marks changed; of
    /// the cells gone through, those that still have a count are marked, or are continuations;
    /// and one of them is marked and has a count iff a live object was found.
    pub proof fn lemma_cells_swept(
        m: MetadataView,
        mark_state: u8,
        objects: ObjectModel,
        lo: int,
        hi: int,
    )
        requires
            m.wf(),
            objects.fits(m),
            0 <= lo <= hi <= m.rc.len(),
        ensures
            ({
                let sweep = Self::cells_swept(m, mark_state, objects, lo, hi);
                &&& sweep.m == (MetadataView {
                    rc: sweep.m.rc,
                    straddle: sweep.m.straddle,
                    ..m
                })
                &&& sweep.m.wf()
                &&& forall|j: int|
                    lo <= j < hi && #[trigger] sweep.m.rc[j] != 0 && m.mark[j] != mark_state
                        ==> Self::continuation(sweep.m, j)
                &&& sweep.live == exists|j: int|
                    lo <= j < hi && m.mark[j] == mark_state && #[trigger] sweep.m.rc[j] != 0
                &&& forall|j: int| 0 <= j < lo ==> #[trigger] sweep.m.rc[j] == m.rc[j]
            }),
        decreases hi - lo,
    {
        if lo < hi {
            Self::lemma_cells_swept(m, mark_state, objects, lo, hi - 1);
            let before = Self::cells_swept(m, mark_state, objects, lo, hi - 1);
            let after = Self::cells_swept(m, mark_state, objects, lo, hi);
            let k = hi - 1;
            let address = m.start + k * MIN_OBJECT_SIZE;
            assert(m.cell(address) == k);
            assert(m.line(address) == k / CELLS_IN_LINE as int);
            assert forall|j: int| lo <= j < k implies #[trigger] after.m.rc[j] == before.m.rc[j]
                && after.m.straddle[j / CELLS_IN_LINE as int] == before.m.straddle[j
                / CELLS_IN_LINE as int] by {
                assert(j / CELLS_IN_LINE as int <= k / CELLS_IN_LINE as int);
            }
            assert forall|j: int|
                lo <= j < hi && #[trigger] after.m.rc[j] != 0 && m.mark[j]
                    != mark_state implies Self::continuation(after.m, j) by {
                if j < k {
                    assert(before.m.rc[j] != 0);
                    assert(Self::continuation(before.m, j));
                }
            }
            if before.live {
                let j = choose|j: int|
                    lo <= j < k && m.mark[j] == mark_state && #[trigger] before.m.rc[j] != 0;
                assert(after.m.rc[j] != 0);
            }
            if after.live && !before.live {
                assert(after.m.rc[k] != 0);
            }
            if exists|j: int|
                lo <= j < hi && m.mark[j] == mark_state && #[trigger] after.m.rc[j] != 0 {
                let j = choose|j: int|
                    lo <= j < hi && m.mark[j] == mark_state && #[trigger] after.m.rc[j] != 0;
                if j < k {
                    assert(before.m.rc[j] != 0);
                }
            }
        }
    }

    /// Reclaims a dead object.
    fn process_dead_object(&self, meta: &mut HeapMetadata, objects: &ObjectModel, o: ObjectReference)
        requires
            old(meta).wf(),
            old(meta)@.in_heap(o.addr()),
            objects.fits(old(meta)@),
        ensures
            final(meta).wf(),
            final(meta)@ == Self::reclaimed(
                old(meta)@,
                o.addr(),
                objects.size(o.0.0) as int,
            ),
    {
        assert(objects.size(o.0.0) > 0 ==> o.addr() + objects.size(o.0.0) <= meta@.end());
        self.rc.unmark_straddle_object(meta, objects, o);
        self.rc.set(meta, o, 0);
    }

    /// Reclaims the dead objects of a block. Returns true iff no live object remains in it.
    fn process_block(
        &self,
        meta: &mut HeapMetadata,
        objects: &ObjectModel,
        block: Block,
        space: &ImmixSpace,
    ) -> (dead: bool)
        requires
            old(meta).wf(),
            block.valid(old(meta)@),
            objects.fits(old(meta)@),
        ensures
            final(meta).wf(),
            Self::cells_swept(
                old(meta)@,
                space@.mark_state,
                *objects,
                block.first_cell(old(meta)@),
                block.end_cell(old(meta)@),
            ) == (CycleSweep { m: final(meta)@, live: !dead }),
    {
        let ghost m: MetadataView = meta@;
        proof {
            lemma_block_positions(m, block);
        }
        let ghost first: int = block.first_cell(m);
        let mut has_live: bool = false;
        let mut cursor: usize = block.0.0;
        let limit: usize = cursor + BYTES_IN_BLOCK;
        let mut i: usize = 0;
        while cursor < limit
            invariant
                i <= CELLS_IN_BLOCK,
                cursor == block.addr() + i * MIN_OBJECT_SIZE,
                limit == block.addr() + BYTES_IN_BLOCK,
                limit <= m.end(),
                m.wf(),
                block.valid(m),
                objects.fits(m),
                meta.wf(),
                meta@.start == m.start,
                meta@.chunks == m.chunks,
                first == block.first_cell(m),
                first + CELLS_IN_BLOCK <= m.rc.len(),
                block.addr() == m.start + first * MIN_OBJECT_SIZE,
                Self::cells_swept(m, space@.mark_state, *objects, first, first + i) == (CycleSweep {
                    m: meta@,
                    live: has_live,
                }),
            decreases limit - cursor,
        {
            let o: ObjectReference = ObjectReference(Address(cursor));
            proof {
                assert(meta@.cell(o.addr()) == first + i);
                assert(objects.fits(meta@));
                Self::lemma_cells_swept(m, space@.mark_state, *objects, first, first + i + 1);
                assert(Self::cells_swept(m, space@.mark_state, *objects, first, first + i + 1)
                    == Self::cell_swept(
                    CycleSweep { m: meta@, live: has_live },
                    space@.mark_state,
                    *objects,
                    first + i,
                ));
            }
            cursor += MIN_OBJECT_SIZE;
            i += 1;
            let c: u8 = self.rc.count(meta, o);
            if c != 0 && !space.is_marked(meta, o) {
                if o.0.is_aligned_to(Line::BYTES) && c == 1 && self.rc.is_straddle_line(
                    meta,
                    Line::from_unaligned_address(o.0),
                ) {
                    continue;
                }
                self.process_dead_object(meta, objects, o);
            } else if c != 0 {
                has_live = true;
            }
        }
        !has_live
    }

    /// The sweep after one more block.
    #[verifier::opaque]
    pub open spec fn block_swept(before: BlockSweep, objects: ObjectModel, block: Block) -> BlockSweep {
        if block.state(before.m) == BlockState::Unallocated {
            before
        } else {
            let cells = Self::cells_swept(
                before.m,
                before.s.mark_state,
                objects,
                block.first_cell(before.m),
                block.end_cell(before.m),
            );
            if !cells.live && block.freed_by_mature_sweep(cells.m, false, true) {
                BlockSweep {
                    m: block.deinitialized_rc(cells.m, before.s.rc_enabled),
                    s: before.s.with_freed(block, false),
                    freed: before.freed + 1,
                }
            } else {
                BlockSweep { m: cells.m, ..before }
            }
        }
    }

    /// No object before the cell at position `j` reaches into it.
    pub open spec fn starts_clear(m: MetadataView, objects: ObjectModel, lo: int, j: int) -> bool {
        forall|k: int|
            lo <= k < j ==> k * MIN_OBJECT_SIZE + objects.size(
                #[trigger] ((m.start + k * MIN_OBJECT_SIZE) as usize),
            ) <= j * MIN_OBJECT_SIZE
    }

    /// The sweep of the cells `lo..hi` keeps the count of a marked object in them, and of an
    /// object after them.
    pub proof fn lemma_count_kept(
        m: MetadataView,
        mark_state: u8,
        objects: ObjectModel,
        lo: int,
        hi: int,
        j: int,
    )
        requires
            m.wf(),
            objects.fits(m),
            0 <= lo <= hi <= m.rc.len(),
            lo <= j < m.rc.len(),
            m.mark[j] == mark_state || hi <= j,
            Self::starts_clear(m, objects, lo, j),
        ensures
            Self::cells_swept(m, mark_state, objects, lo, hi).m.rc[j] == m.rc[j],
        decreases hi - lo,
    {
        if lo < hi {
            let k = hi - 1;
            Self::lemma_count_kept(m, mark_state, objects, lo, k, j);
            Self::lemma_cells_swept(m, mark_state, objects, lo, k);
            let before = Self::cells_swept(m, mark_state, objects, lo, k);
            let address = m.start + k * MIN_OBJECT_SIZE;
            let size = objects.size(address as usize) as int;
            assert(m.cell(address) == k);
            assert(m.line(address) == k / CELLS_IN_LINE as int);
            if k < j {
                assert(k * MIN_OBJECT_SIZE + objects.size(
                    ((m.start + k * MIN_OBJECT_SIZE) as usize),
                ) <= j * MIN_OBJECT_SIZE);
                assert(m.line(address + size) <= j / CELLS_IN_LINE as int);
            } else if j < k {
                assert(j / CELLS_IN_LINE as int <= k / CELLS_IN_LINE as int);
            }
        }
    }

    /// The sweep of dead cycles keeps what the trace has reached: a marked object keeps its count,
    /// and its block is not freed.
    pub proof fn law_cycle_sweep_spares_marked_objects(
        before: BlockSweep,
        objects: ObjectModel,
        block: Block,
        j: int,
    )
        requires
            before.m.wf(),
            objects.fits(before.m),
            block.valid(before.m),
            block.state(before.m) != BlockState::Unallocated,
            block.first_cell(before.m) <= j < block.end_cell(before.m),
            before.m.mark[j] == before.s.mark_state,
            before.m.rc[j] != 0,
            Self::starts_clear(before.m, objects, block.first_cell(before.m), j),
        ensures
            Self::block_swept(before, objects, block).m.rc[j] == before.m.rc[j],
            block.state(Self::block_swept(before, objects, block).m) == block.state(before.m),
    {
        reveal(SweepDeadCycles::block_swept);
        let lo = block.first_cell(before.m);
        let hi = block.end_cell(before.m);
        lemma_block_positions(before.m, block);
        Self::lemma_cells_swept(before.m, before.s.mark_state, objects, lo, hi);
        Self::lemma_count_kept(before.m, before.s.mark_state, objects, lo, hi, j);
        let cells = Self::cells_swept(before.m, before.s.mark_state, objects, lo, hi);
        assert(cells.m.rc[j] != 0);
        assert(cells.live);
    }

    /// The sweep of dead cycles reclaims what the trace has not reached: no unmarked object of the
    /// block has a count afterwards. What is left are the marks of lines that objects cover.
    pub proof fn law_cycle_sweep_reclaims_unmarked_objects(
        before: BlockSweep,
        objects: ObjectModel,
        block: Block,
        j: int,
    )
        requires
            before.m.wf(),
            objects.fits(before.m),
            block.valid(before.m),
            block.state(before.m) != BlockState::Unallocated,
            block.first_cell(before.m) <= j < block.end_cell(before.m),
            before.m.mark[j] != before.s.mark_state,
        ensures
            ({
                let after = Self::block_swept(before, objects, block).m;
                after.rc[j] == 0 || Self::continuation(after, j)
            }),
    {
        reveal(SweepDeadCycles::block_swept);
        let lo = block.first_cell(before.m);
        let hi = block.end_cell(before.m);
        lemma_block_positions(before.m, block);
        Self::lemma_cells_swept(before.m, before.s.mark_state, objects, lo, hi);
        let cells = Self::cells_swept(before.m, before.s.mark_state, objects, lo, hi);
        assert(cells.m.rc[j] != 0 ==> Self::continuation(cells.m, j));
    }

    /// The sweep after the first `n` blocks of a chunk.
    pub open spec fn blocks_swept(
        before: BlockSweep,
        objects: ObjectModel,
        chunk: Chunk,
        n: int,
    ) -> BlockSweep
        decreases n,
    {
        if n <= 0 {
            before
        } else {
            Self::block_swept(
                Self::blocks_swept(before, objects, chunk, n - 1),
                objects,
                chunk.block_at(n - 1),
            )
        }
    }

    /// The sweep after the first `n` chunks of a range. Chunks that do not belong to the space are
    /// left alone.
    pub open spec fn chunks_swept(
        before: BlockSweep,
        objects: ObjectModel,
        chunks: ChunkRange,
        n: int,
    ) -> BlockSweep
        decreases n,
    {
        if n <= 0 {
            before
        } else {
            let rest = Self::chunks_swept(before, objects, chunks, n - 1);
            let chunk = chunks.at(n - 1);
            if in_space(rest.m, rest.s, chunk) {
                Self::blocks_swept(rest, objects, chunk, BLOCKS_IN_CHUNK as int)
            } else {
                rest
            }
        }
    }

    /// The sweep has not reached the blocks from the address `bound` on: what it started from was
    /// `before`.
    pub open spec fn untouched_from(before: BlockSweep, after: BlockSweep, bound: int) -> bool {
        &&& after.m.wf()
        &&& after.m.start == before.m.start
        &&& after.m.chunks == before.m.chunks
        &&& after.s.chunk_map == before.s.chunk_map
        &&& after.s.track_frees == before.s.track_frees
        &&& after.s.mark_state == before.s.mark_state
        &&& before.freed <= after.freed
        &&& (after.freed - before.freed) * BYTES_IN_BLOCK <= bound
        &&& forall|block: Block| #[trigger]
            block.valid(before.m) && block.addr() >= bound ==> block.state(after.m) == block.state(
                before.m,
            ) && after.s.free_blocks.contains(block.0.0) == before.s.free_blocks.contains(
                block.0.0,
            )
    }

    /// Sweeping one more block keeps the blocks after it untouched.
    proof fn lemma_block_swept(start: BlockSweep, before: BlockSweep, objects: ObjectModel, block: Block)
        requires
            before.m.wf(),
            start.m.wf(),
            Self::untouched_from(start, before, block.addr()),
            objects.fits(start.m),
            block.valid(start.m),
        ensures
            Self::untouched_from(
                start,
                Self::block_swept(before, objects, block),
                block.addr() + BYTES_IN_BLOCK,
            ),
    {
        reveal(SweepDeadCycles::block_swept);
        lemma_block_positions(before.m, block);
        let after = Self::block_swept(before, objects, block);
        assert(objects.fits(before.m));
        Self::lemma_cells_swept(
            before.m,
            before.s.mark_state,
            objects,
            block.first_cell(before.m),
            block.end_cell(before.m),
        );
        assert forall|other: Block| #[trigger]
            other.valid(start.m) && other.addr() >= block.addr() + BYTES_IN_BLOCK implies other.state(
            after.m,
        ) == other.state(start.m) && after.s.free_blocks.contains(other.0.0)
            == start.s.free_blocks.contains(other.0.0) by {
            lemma_block_positions(before.m, other);
            assert(other.index(before.m) != block.index(before.m));
            assert(other.state(before.m) == other.state(start.m));
        }
    }

    /// Sweeping the blocks of a chunk keeps the chunks after it untouched.
    pub proof fn lemma_blocks_swept(
        start: BlockSweep,
        before: BlockSweep,
        objects: ObjectModel,
        chunk: Chunk,
        n: int,
    )
        requires
            before.m.wf(),
            start.m.wf(),
            Self::untouched_from(start, before, chunk.addr()),
            objects.fits(start.m),
            chunk.valid(start.m),
            0 <= n <= BLOCKS_IN_CHUNK,
        ensures
            Self::untouched_from(
                start,
                Self::blocks_swept(before, objects, chunk, n),
                chunk.addr() + n * BYTES_IN_BLOCK,
            ),
        decreases n,
    {
        if n > 0 {
            Self::lemma_blocks_swept(start, before, objects, chunk, n - 1);
            chunk.lemma_positions(start.m);
            let block = chunk.block_at(n - 1);
            assert(block.addr() == chunk.addr() + (n - 1) * BYTES_IN_BLOCK);
            Self::lemma_block_swept(
                start,
                Self::blocks_swept(before, objects, chunk, n - 1),
                objects,
                block,
            );
        }
    }

    /// Freeing an allocated block is not a double free.
    pub open spec fn no_double_free(m: MetadataView, s: ImmixSpaceView) -> bool {
        forall|block: Block| #[trigger]
            block.valid(m) && block.state(m) != BlockState::Unallocated ==> s.can_free(block)
    }

    /// Sweeps the blocks of a chunk, and returns how many were freed.
    fn sweep_chunk(
        &self,
        meta: &mut HeapMetadata,
        objects: &ObjectModel,
        space: &mut ImmixSpace,
        chunk: Chunk,
        dead_blocks: usize,
        Ghost(start): Ghost<BlockSweep>,
    ) -> (freed: usize)
        requires
            old(meta).wf(),
            start.m.wf(),
            start.freed == 0,
            Self::untouched_from(
                start,
                (BlockSweep { m: old(meta)@, s: old(space)@, freed: dead_blocks as int }),
                chunk.addr(),
            ),
            Self::no_double_free(start.m, start.s),
            objects.fits(start.m),
            chunk.valid(start.m),
        ensures
            final(meta).wf(),
            Self::blocks_swept(
                BlockSweep { m: old(meta)@, s: old(space)@, freed: dead_blocks as int },
                *objects,
                chunk,
                BLOCKS_IN_CHUNK as int,
            ) == (BlockSweep { m: final(meta)@, s: final(space)@, freed: freed as int }),
    {
        let ghost before: BlockSweep = BlockSweep {
            m: meta@,
            s: space@,
            freed: dead_blocks as int,
        };
        let mut freed: usize = dead_blocks;
        let mut i: usize = 0;
        while i < BLOCKS_IN_CHUNK
            invariant
                i <= BLOCKS_IN_CHUNK,
                meta.wf(),
                before.m.wf(),
                start.m.wf(),
                start.freed == 0,
                Self::untouched_from(start, before, chunk.addr()),
                Self::no_double_free(start.m, start.s),
                objects.fits(start.m),
                chunk.valid(start.m),
                Self::blocks_swept(before, *objects, chunk, i as int) == (BlockSweep {
                    m: meta@,
                    s: space@,
                    freed: freed as int,
                }),
            decreases BLOCKS_IN_CHUNK - i,
        {
            let ghost so_far: BlockSweep = Self::blocks_swept(before, *objects, chunk, i as int);
            proof {
                reveal(SweepDeadCycles::block_swept);
                chunk.lemma_positions(start.m);
                Self::lemma_blocks_swept(start, before, *objects, chunk, i as int);
                Self::lemma_blocks_swept(start, before, *objects, chunk, i + 1);
                assert(Self::blocks_swept(before, *objects, chunk, i + 1) == Self::block_swept(
                    so_far,
                    *objects,
                    chunk.block_at(i as int),
                ));
            }
            let block: Block = chunk.block(i);
            assert(block.valid(start.m));
            assert(block.valid(meta@));
            if block.get_state(meta) != BlockState::Unallocated {
                assert(objects.fits(meta@));
                proof {
                    lemma_block_positions(meta@, block);
                    Self::lemma_cells_swept(
                        meta@,
                        space@.mark_state,
                        *objects,
                        block.first_cell(meta@),
                        block.end_cell(meta@),
                    );
                }
                let dead: bool = self.process_block(meta, objects, block, space);
                if dead && block.rc_sweep_mature(meta, space, false, true) {
                    freed += 1;
                }
            }
            i += 1;
        }
        freed
    }

    /// Reclaims the dead cycles of the chunks, and frees the blocks that are left without a live
    /// object.
    pub fn do_work(&self, meta: &mut HeapMetadata, objects: &ObjectModel, space: &mut ImmixSpace)
        requires
            old(meta).wf(),
            old(space)@.wf(old(meta)@),
            Self::no_double_free(old(meta)@, old(space)@),
            objects.fits(old(meta)@),
            self.chunks().wf(),
        ensures
            final(meta).wf(),
            ({
                let sweep = Self::chunks_swept(
                    BlockSweep { m: old(meta)@, s: old(space)@, freed: 0 },
                    *objects,
                    self.chunks(),
                    self.chunks().count(),
                );
                &&& final(meta)@ == sweep.m
                &&& final(space)@ == if sweep.freed == 0 {
                    sweep.s
                } else {
                    ImmixSpaceView {
                        num_clean_blocks_released_mature:
                            sweep.s.num_clean_blocks_released_mature.wrapping_add(
                            sweep.freed as usize,
                        ),
                        ..sweep.s
                    }
                }
            }),
    {
        let ghost start: BlockSweep = BlockSweep { m: meta@, s: space@, freed: 0 };
        let num_chunks: usize = self.chunks.len();
        let mut dead_blocks: usize = 0;
        let mut i: usize = 0;
        while i < num_chunks
            invariant
                i <= num_chunks,
                num_chunks == self.chunks.count(),
                self.chunks.wf(),
                meta.wf(),
                start.m.wf(),
                start.s.wf(start.m),
                start.freed == 0,
                Self::no_double_free(start.m, start.s),
                objects.fits(start.m),
                Self::chunks_swept(start, *objects, self.chunks, i as int) == (BlockSweep {
                    m: meta@,
                    s: space@,
                    freed: dead_blocks as int,
                }),
                Self::untouched_from(
                    start,
                    Self::chunks_swept(start, *objects, self.chunks, i as int),
                    self.chunks.start.addr() + i * BYTES_IN_CHUNK,
                ),
            decreases num_chunks - i,
        {
            let chunk: Chunk = self.chunks.start.next_nth(i);
            let ghost so_far: BlockSweep = Self::chunks_swept(start, *objects, self.chunks, i as int);
            assert(chunk == self.chunks.at(i as int));
            if space.chunk_map.get(meta, chunk).is_some() {
                proof {
                    Self::lemma_blocks_swept(
                        start,
                        so_far,
                        *objects,
                        chunk,
                        BLOCKS_IN_CHUNK as int,
                    );
                }
                dead_blocks = self.sweep_chunk(
                    meta,
                    objects,
                    space,
                    chunk,
                    dead_blocks,
                    Ghost(start),
                );
            }
            i += 1;
        }
        if dead_blocks != 0 {
            space.num_clean_blocks_released_mature =
            space.num_clean_blocks_released_mature.wrapping_add(dead_blocks);
        }
    }
}

} // verus!
