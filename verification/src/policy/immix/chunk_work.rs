//! Work on the blocks of one chunk: preparing them for a collection, and sweeping them.

use crate::policy::immix::block::{
    lemma_block_positions, lemma_line_counts, lemma_marked_line_counts, lemma_same_marks, Block,
    BlockState,
};
use crate::policy::immix::defrag::{DefragView, Histogram, NUM_BINS};
use crate::policy::immix::immixspace::{ImmixSpace, ImmixSpaceView};
use crate::util::constants::{
    BLOCKS_IN_CHUNK, CELLS_IN_BLOCK, CELLS_IN_CHUNK, CELLS_IN_LINE, LINES_IN_BLOCK,
};
use crate::util::linear_scan::Chunk;
use crate::util::log_bit::UnlogBitsOperation;
use crate::util::metadata::{HeapMetadata, MetadataView};
use crate::util::side_metadata::filled;
use crate::util::vm::MetadataLocation;
use vstd::prelude::*;

verus! {

/// Prepares the blocks of a chunk for a major collection.
#[derive(Debug, Clone, Copy, PartialEq, Eq, Structural)]
pub struct PrepareBlockState {
    /// The chunk.
    pub chunk: Chunk,
    /// In a defragmenting collection: blocks with more holes than this are sources.
    pub defrag_threshold: Option<usize>,
    /// Every block in use is a source, whatever its holes.
    pub compact_all: bool,
    /// What to do with the log bits of the chunk.
    pub unlog_bits_op: UnlogBitsOperation,
}

impl PrepareBlockState {
    /// The block at position `i` of the per-block tables becomes a source.
    pub open spec fn makes_source(self, s: ImmixSpaceView, m: MetadataView, i: int) -> bool {
        &&& !s.space_args.never_move_objects
        &&& s.defrag_every_block || self.compact_all || (self.defrag_threshold matches Some(
            threshold,
        ) && m.block_defrag[i] > threshold)
    }

    /// The mark states after the first `n` blocks of the chunk were prepared: allocated blocks are
    /// unmarked.
    pub open spec fn block_marks(self, m: MetadataView, n: int) -> Seq<u8> {
        let first = self.chunk.first_block(m);
        Seq::new(
            m.block_mark.len(),
            |i: int|
                if first <= i && i < first + n && m.block_mark[i] != 0 {
                    BlockState::Unmarked.to_byte()
                } else {
                    m.block_mark[i]
                },
        )
    }

    /// The defrag states after the first `n` blocks of the chunk were prepared.
    pub open spec fn block_defrags(self, s: ImmixSpaceView, m: MetadataView, n: int) -> Seq<u8> {
        let first = self.chunk.first_block(m);
        Seq::new(
            m.block_defrag.len(),
            |i: int|
                if first <= i && i < first + n && m.block_mark[i] != 0 {
                    if self.makes_source(s, m, i) {
                        255u8
                    } else {
                        0u8
                    }
                } else {
                    m.block_defrag[i]
                },
        )
    }

    /// The mark bits after those of the chunk were cleared, where they are on the side.
    pub open spec fn marks_reset(self, s: ImmixSpaceView, m: MetadataView) -> Seq<u8> {
        if s.vm.mark_bit is OnSide {
            filled(m.mark, self.chunk.first_cell(m), self.chunk.end_cell(m), 0)
        } else {
            m.mark
        }
    }

    /// The tables after the chunk was prepared.
    pub open spec fn prepared(self, s: ImmixSpaceView, m: MetadataView) -> MetadataView {
        MetadataView {
            mark: self.marks_reset(s, m),
            block_mark: self.block_marks(m, BLOCKS_IN_CHUNK as int),
            block_defrag: self.block_defrags(s, m, BLOCKS_IN_CHUNK as int),
            log_bit: self.unlog_bits_op.applied(m, self.chunk),
            ..m
        }
    }

    /// Clears the mark bits of the chunk, where they are on the side.
    fn reset_object_mark(&self, meta: &mut HeapMetadata, space: &ImmixSpace)
        requires
            old(meta).wf(),
            self.chunk.valid(old(meta)@),
        ensures
            final(meta).wf(),
            final(meta)@ == (MetadataView {
                mark: self.marks_reset(space@, old(meta)@),
                ..old(meta)@
            }),
    {
        if let MetadataLocation::OnSide = space.vm.mark_bit {
            proof {
                self.chunk.lemma_positions(meta@);
            }
            let first: usize = meta.cell(self.chunk.0);
            meta.mark.fill(first, first + CELLS_IN_CHUNK, 0);
        }
    }

    /// Clears the mark bits of the chunk, decides for each allocated block whether it is a source,
    /// and unmarks it.
    pub fn do_work(&self, meta: &mut HeapMetadata, space: &ImmixSpace)
        requires
            old(meta).wf(),
            self.chunk.valid(old(meta)@),
        ensures
            final(meta).wf(),
            final(meta)@ == self.prepared(space@, old(meta)@),
    {
        let ghost before: MetadataView = meta@;
        proof {
            self.chunk.lemma_positions(meta@);
        }
        self.reset_object_mark(meta, space);
        assert(self.block_marks(before, 0) =~= before.block_mark);
        assert(self.block_defrags(space@, before, 0) =~= before.block_defrag);
        let mut i: usize = 0;
        while i < BLOCKS_IN_CHUNK
            invariant
                i <= BLOCKS_IN_CHUNK,
                meta.wf(),
                before.wf(),
                self.chunk.valid(before),
                meta@ == (MetadataView {
                    mark: self.marks_reset(space@, before),
                    block_mark: self.block_marks(before, i as int),
                    block_defrag: self.block_defrags(space@, before, i as int),
                    ..before
                }),
            decreases BLOCKS_IN_CHUNK - i,
        {
            proof {
                self.chunk.lemma_positions(before);
            }
            let block: Block = self.chunk.block(i);
            assert(block.index(before) == self.chunk.first_block(before) + i);
            if block.get_state(meta) != BlockState::Unallocated {
                let is_defrag_source: bool = if !space.is_defrag_enabled() {
                    false
                } else if space.defrag_every_block || self.compact_all {
                    true
                } else if let Some(defrag_threshold) = self.defrag_threshold {
                    block.get_holes(meta) > defrag_threshold
                } else {
                    false
                };
                block.set_as_defrag_source(meta, is_defrag_source);
                block.set_state(meta, BlockState::Unmarked);
            }
            i += 1;
            assert(meta@.block_mark =~= self.block_marks(before, i as int));
            assert(meta@.block_defrag =~= self.block_defrags(space@, before, i as int));
        }
        self.unlog_bits_op.execute(meta, self.chunk);
    }
}

/// What the sweep of a chunk has come to.
#[verifier::ext_equal]
pub ghost struct ChunkSweep {
    /// The tables.
    pub m: MetadataView,
    /// The space.
    pub s: ImmixSpaceView,
    /// The mark histogram.
    pub histogram: Seq<usize>,
    /// How many blocks were found live.
    pub live: int,
}

/// Sweeps the blocks of a chunk.
#[derive(Debug, Clone, Copy, PartialEq, Eq, Structural)]
pub struct SweepChunk {
    /// The chunk.
    pub chunk: Chunk,
    /// What to do with the log bits of the chunk.
    pub unlog_bits_op: UnlogBitsOperation,
}

impl SweepChunk {
    /// The forwarding bits of a block are cleared before its sweep: they are on the side, the
    /// collection moves objects, and it may have moved some of this block.
    pub open spec fn clears_forwarding(
        s: ImmixSpaceView,
        m: MetadataView,
        block: Block,
        is_moving_gc: bool,
    ) -> bool {
        &&& s.vm.forwarding_bits is OnSide
        &&& is_moving_gc
        &&& s.defrag.in_defrag ==> block.defrag_source(m)
    }

    /// The tables with the forwarding bits of a block cleared, if they are before its sweep.
    pub open spec fn forwarding_cleared(
        s: ImmixSpaceView,
        m: MetadataView,
        block: Block,
        is_moving_gc: bool,
    ) -> MetadataView {
        if Self::clears_forwarding(s, m, block, is_moving_gc) {
            MetadataView {
                forwarding_bits: filled(
                    m.forwarding_bits,
                    block.first_cell(m),
                    block.end_cell(m),
                    0,
                ),
                ..m
            }
        } else {
            m
        }
    }

    /// The sweep after one more block.
    #[verifier::opaque]
    pub open spec fn step(before: ChunkSweep, block: Block, is_moving_gc: bool) -> ChunkSweep {
        if block.state(before.m) == BlockState::Unallocated {
            before
        } else {
            let state = before.s.line_mark_state;
            let m = Self::forwarding_cleared(before.s, before.m, block, is_moving_gc);
            ChunkSweep {
                m: block.swept(m, before.s, state),
                s: block.space_swept(m, before.s, state),
                histogram: block.histogram_swept(m, before.histogram, state),
                live: before.live + (if block.marked_lines(m, state) == 0 {
                    0int
                } else {
                    1int
                }),
            }
        }
    }

    /// The sweep after the first `n` blocks of the chunk.
    pub open spec fn blocks_swept(
        self,
        s: ImmixSpaceView,
        m: MetadataView,
        n: int,
        is_moving_gc: bool,
    ) -> ChunkSweep
        decreases n,
    {
        if n <= 0 {
            ChunkSweep { m, s, histogram: Seq::new(NUM_BINS as nat, |i: int| 0usize), live: 0 }
        } else {
            Self::step(
                self.blocks_swept(s, m, n - 1, is_moving_gc),
                self.chunk.block_at(n - 1),
                is_moving_gc,
            )
        }
    }

    /// The tables after the chunk was swept.
    #[verifier::opaque]
    pub open spec fn swept(
        self,
        s: ImmixSpaceView,
        m: MetadataView,
        is_moving_gc: bool,
    ) -> MetadataView {
        let end = self.blocks_swept(s, m, BLOCKS_IN_CHUNK as int, is_moving_gc);
        MetadataView { log_bit: self.unlog_bits_op.applied(end.m, self.chunk), ..end.m }
    }

    /// The space after the chunk was swept. A chunk without live blocks leaves the space; when
    /// no packet remains, what was released becomes available.
    #[verifier::opaque]
    pub open spec fn space_swept(
        self,
        s: ImmixSpaceView,
        m: MetadataView,
        is_moving_gc: bool,
        packets: usize,
    ) -> ImmixSpaceView {
        let end = self.blocks_swept(s, m, BLOCKS_IN_CHUNK as int, is_moving_gc);
        let counted = ImmixSpaceView {
            swept_live_blocks: end.s.swept_live_blocks.wrapping_add(end.live as usize),
            chunk_map: if end.live == 0 {
                end.s.chunk_map.update(self.chunk.index(m), false)
            } else {
                end.s.chunk_map
            },
            defrag: DefragView {
                mark_histograms: end.s.defrag.mark_histograms.push(end.histogram),
                ..end.s.defrag
            },
            ..end.s
        };
        if packets == 1 {
            counted.flushed()
        } else {
            counted
        }
    }

    /// Freeing an allocated block of the chunk is not a double free.
    pub open spec fn no_double_free(self, m: MetadataView, s: ImmixSpaceView) -> bool {
        forall|i: int|
            0 <= i < BLOCKS_IN_CHUNK && (#[trigger] self.chunk.block_at(i)).state(m)
                != BlockState::Unallocated ==> s.can_free(self.chunk.block_at(i))
    }

    /// The chunk can be swept: it belongs to the space, and none of its blocks is freed twice.
    #[verifier::opaque]
    pub open spec fn ready(self, m: MetadataView, s: ImmixSpaceView) -> bool {
        &&& self.chunk.valid(m)
        &&& s.chunk_map[self.chunk.index(m)]
        &&& self.no_double_free(m, s)
    }

    /// The sweep of a chunk leaves the space fit for the tables.
    pub proof fn law_sweep_keeps_the_space_fit(
        self,
        m: MetadataView,
        s: ImmixSpaceView,
        is_moving_gc: bool,
        packets: usize,
    )
        requires
            m.wf(),
            s.wf(m),
            self.chunk.valid(m),
        ensures
            self.space_swept(s, m, is_moving_gc, packets).wf(self.swept(s, m, is_moving_gc)),
    {
        reveal(SweepChunk::swept);
        reveal(SweepChunk::space_swept);
        self.lemma_blocks_swept(s, m, BLOCKS_IN_CHUNK as int, is_moving_gc);
    }

    /// The sweep of a chunk leaves the other chunks ready for theirs.
    pub proof fn law_sweep_spares_other_chunks(
        self,
        other: SweepChunk,
        m: MetadataView,
        s: ImmixSpaceView,
        is_moving_gc: bool,
        packets: usize,
    )
        requires
            m.wf(),
            s.wf(m),
            self.swept(s, m, is_moving_gc).wf(),
            self.chunk.valid(m),
            other.ready(m, s),
            other.chunk != self.chunk,
        ensures
            other.ready(
                self.swept(s, m, is_moving_gc),
                self.space_swept(s, m, is_moving_gc, packets),
            ),
    {
        let n = BLOCKS_IN_CHUNK as int;
        reveal(SweepChunk::ready);
        reveal(SweepChunk::swept);
        reveal(SweepChunk::space_swept);
        self.lemma_blocks_swept(s, m, n, is_moving_gc);
        self.chunk.lemma_positions(m);
        other.chunk.lemma_positions(m);
        let m2 = self.swept(s, m, is_moving_gc);
        let s2 = self.space_swept(s, m, is_moving_gc, packets);
        let a = self.chunk.index(m);
        let b = other.chunk.index(m);
        assert(a != b);
        assert forall|i: int|
            0 <= i < BLOCKS_IN_CHUNK && (#[trigger] other.chunk.block_at(i)).state(m2)
                != BlockState::Unallocated implies s2.can_free(other.chunk.block_at(i)) by {
            let block = other.chunk.block_at(i);
            assert(block.addr() == other.chunk.addr() + i * 32768);
            assert(block.index(m) == other.chunk.first_block(m) + i);
            assert(block.state(m2) == block.state(m));
            assert(s.can_free(block));
        }
    }

    /// The sweep of a chunk frees exactly the blocks without a marked line. Of the others, those
    /// with free lines become reusable.
    pub proof fn law_sweep_frees_unmarked_blocks(
        self,
        m: MetadataView,
        s: ImmixSpaceView,
        is_moving_gc: bool,
        i: int,
    )
        requires
            m.wf(),
            self.chunk.valid(m),
            0 <= i < BLOCKS_IN_CHUNK,
        ensures
            self.chunk.block_at(i).state(self.swept(s, m, is_moving_gc))
                == self.chunk.block_at(i).state_swept(m, s.line_mark_state),
    {
        reveal(SweepChunk::swept);
        self.lemma_blocks_swept(s, m, BLOCKS_IN_CHUNK as int, is_moving_gc);
        self.lemma_block_outcome(s, m, BLOCKS_IN_CHUNK as int, is_moving_gc, i);
    }

    /// A block with a marked line survives the sweep of its chunk.
    pub proof fn law_sweep_spares_marked_lines(
        self,
        m: MetadataView,
        s: ImmixSpaceView,
        is_moving_gc: bool,
        i: int,
        line: int,
    )
        requires
            m.wf(),
            self.chunk.valid(m),
            0 <= i < BLOCKS_IN_CHUNK,
            self.chunk.block_at(i).state(m) != BlockState::Unallocated,
            self.chunk.block_at(i).first_line(m) <= line < self.chunk.block_at(i).end_line_index(m),
            m.line_mark[line] == s.line_mark_state,
        ensures
            self.chunk.block_at(i).state(self.swept(s, m, is_moving_gc))
                != BlockState::Unallocated,
    {
        let block = self.chunk.block_at(i);
        self.law_sweep_frees_unmarked_blocks(m, s, is_moving_gc, i);
        lemma_marked_line_counts(
            m.line_mark,
            block.first_line(m),
            block.end_line_index(m),
            s.line_mark_state,
            line,
        );
    }

    /// The sweep of the first `n` blocks leaves the line marks of the others alone.
    pub proof fn lemma_other_lines(
        self,
        s: ImmixSpaceView,
        m: MetadataView,
        n: int,
        is_moving_gc: bool,
    )
        requires
            m.wf(),
            self.chunk.valid(m),
            0 <= n <= BLOCKS_IN_CHUNK,
        ensures
            ({
                let sweep = self.blocks_swept(s, m, n, is_moving_gc);
                &&& sweep.m.line_mark.len() == m.line_mark.len()
                &&& forall|l: int|
                    0 <= l < m.line_mark.len() && !(self.chunk.first_block(m) * LINES_IN_BLOCK <= l
                        < (self.chunk.first_block(m) + n) * LINES_IN_BLOCK)
                        ==> #[trigger] sweep.m.line_mark[l] == m.line_mark[l]
            }),
        decreases n,
    {
        if n > 0 {
            reveal(SweepChunk::step);
            self.lemma_other_lines(s, m, n - 1, is_moving_gc);
            self.lemma_blocks_swept(s, m, n - 1, is_moving_gc);
            self.chunk.lemma_positions(m);
            let block = self.chunk.block_at(n - 1);
            assert(block.index(m) == self.chunk.first_block(m) + n - 1);
        }
    }

    /// The state of a block after the sweep of the first `n` blocks, of which it is one.
    proof fn lemma_block_outcome(
        self,
        s: ImmixSpaceView,
        m: MetadataView,
        n: int,
        is_moving_gc: bool,
        i: int,
    )
        requires
            m.wf(),
            self.chunk.valid(m),
            0 <= i < n <= BLOCKS_IN_CHUNK,
        ensures
            self.chunk.block_at(i).state(self.blocks_swept(s, m, n, is_moving_gc).m)
                == self.chunk.block_at(i).state_swept(m, s.line_mark_state),
        decreases n,
    {
        reveal(SweepChunk::step);
        let before = self.blocks_swept(s, m, n - 1, is_moving_gc);
        let after = self.blocks_swept(s, m, n, is_moving_gc);
        let block = self.chunk.block_at(i);
        let last = self.chunk.block_at(n - 1);
        let state = s.line_mark_state;
        self.lemma_blocks_swept(s, m, n - 1, is_moving_gc);
        self.lemma_other_lines(s, m, n - 1, is_moving_gc);
        self.chunk.lemma_positions(m);
        lemma_block_positions(m, block);
        assert(block.index(m) == self.chunk.first_block(m) + i);
        assert(last.index(m) == self.chunk.first_block(m) + n - 1);
        if i < n - 1 {
            self.lemma_block_outcome(s, m, n - 1, is_moving_gc, i);
            assert(after.m.block_mark[block.index(m)] == before.m.block_mark[block.index(m)]);
        } else {
            assert(before.m.block_mark[block.index(m)] == m.block_mark[block.index(m)]);
            let cleared = Self::forwarding_cleared(before.s, before.m, block, is_moving_gc);
            lemma_same_marks(
                m.line_mark,
                cleared.line_mark,
                block.first_line(m),
                block.end_line_index(m),
                state,
            );
            lemma_line_counts(
                m.line_mark,
                block.first_line(m),
                block.end_line_index(m),
                state,
            );
        }
    }

    /// What the sweep of the first `n` blocks leaves alone.
    pub proof fn lemma_blocks_swept(
        self,
        s: ImmixSpaceView,
        m: MetadataView,
        n: int,
        is_moving_gc: bool,
    )
        requires
            m.wf(),
            self.chunk.valid(m),
            0 <= n <= BLOCKS_IN_CHUNK,
        ensures
            ({
                let sweep = self.blocks_swept(s, m, n, is_moving_gc);
                &&& sweep.m.start == m.start
                &&& sweep.m.chunks == m.chunks
                &&& 0 <= sweep.live <= n
                &&& sweep.s.line_mark_state == s.line_mark_state
                &&& sweep.s.line_unavail_state == s.line_unavail_state
                &&& sweep.s.mark_state == s.mark_state
                &&& sweep.s.track_frees == s.track_frees
                &&& sweep.s.vm == s.vm
                &&& sweep.s.defrag == s.defrag
                &&& sweep.s.chunk_map == s.chunk_map
                &&& sweep.s.swept_live_blocks == s.swept_live_blocks
                &&& forall|a: usize|
                    #[trigger] sweep.s.free_blocks.contains(a) ==> s.free_blocks.contains(a)
                        || self.chunk.addr() <= a < self.chunk.addr() + n * 32768
                &&& sweep.m.block_mark.len() == m.block_mark.len()
                &&& forall|i: int|
                    0 <= i < m.block_mark.len() && !(self.chunk.first_block(m) <= i
                        < self.chunk.first_block(m) + n) ==> #[trigger] sweep.m.block_mark[i]
                        == m.block_mark[i]
            }),
        decreases n,
    {
        if n > 0 {
            reveal(SweepChunk::step);
            self.lemma_blocks_swept(s, m, n - 1, is_moving_gc);
            self.chunk.lemma_positions(m);
            let block = self.chunk.block_at(n - 1);
            assert(block.addr() == self.chunk.addr() + (n - 1) * 32768);
            assert(block.index(m) == self.chunk.first_block(m) + n - 1);
        }
    }

    /// Sweeps a block, unless it is not allocated. Returns true iff the block is live.
    fn sweep_block(
        meta: &mut HeapMetadata,
        space: &mut ImmixSpace,
        histogram: &mut Histogram,
        block: Block,
        is_moving_gc: bool,
    ) -> (live: bool)
        requires
            old(meta).wf(),
            block.valid(old(meta)@),
            block.state(old(meta)@) != BlockState::Unallocated ==> old(space)@.can_free(block),
            old(histogram)@.len() == NUM_BINS,
            forall|j: int|
                0 <= j < NUM_BINS ==> #[trigger] old(histogram)@[j] + LINES_IN_BLOCK <= usize::MAX,
        ensures
            final(meta).wf(),
            forall|count: int|
                #[trigger] Self::step(
                    ChunkSweep {
                        m: old(meta)@,
                        s: old(space)@,
                        histogram: old(histogram)@,
                        live: count,
                    },
                    block,
                    is_moving_gc,
                ) == (ChunkSweep {
                    m: final(meta)@,
                    s: final(space)@,
                    histogram: final(histogram)@,
                    live: count + (if live {
                        1int
                    } else {
                        0int
                    }),
                }),
            final(histogram)@.len() == NUM_BINS,
            forall|j: int|
                0 <= j < NUM_BINS ==> #[trigger] final(histogram)@[j] <= old(histogram)@[j]
                    + LINES_IN_BLOCK,
    {
        proof {
            reveal(SweepChunk::step);
        }
        if block.get_state(meta) == BlockState::Unallocated {
            return false;
        }
        proof {
            lemma_block_positions(meta@, block);
        }
        let ghost m: MetadataView = meta@;
        let on_side: bool = match space.vm.forwarding_bits {
            MetadataLocation::OnSide => true,
            _ => false,
        };
        if on_side && is_moving_gc {
            let objects_may_move: bool = if space.defrag.in_defrag() {
                block.is_defrag_source(meta)
            } else {
                true
            };
            if objects_may_move {
                let first: usize = meta.cell(block.0);
                meta.forwarding_bits.fill(first, first + CELLS_IN_BLOCK, 0);
            }
        }
        assert(meta@ == Self::forwarding_cleared(space@, m, block, is_moving_gc));
        proof {
            lemma_line_counts(
                meta@.line_mark,
                block.first_line(meta@),
                block.end_line_index(meta@),
                space@.line_mark_state,
            );
        }
        let line_mark_state: Option<u8> = Some(space.line_mark_state);
        !block.sweep(meta, space, histogram, line_mark_state)
    }

    /// Sweeps the blocks of the chunk, and returns how many are live.
    fn sweep_blocks(
        &self,
        meta: &mut HeapMetadata,
        space: &mut ImmixSpace,
        histogram: &mut Histogram,
        is_moving_gc: bool,
    ) -> (allocated_blocks: usize)
        requires
            old(meta).wf(),
            self.chunk.valid(old(meta)@),
            self.no_double_free(old(meta)@, old(space)@),
            old(histogram)@ == Seq::new(NUM_BINS as nat, |i: int| 0usize),
        ensures
            final(meta).wf(),
            self.blocks_swept(old(space)@, old(meta)@, BLOCKS_IN_CHUNK as int, is_moving_gc) == (
            ChunkSweep {
                m: final(meta)@,
                s: final(space)@,
                histogram: final(histogram)@,
                live: allocated_blocks as int,
            }),
    {
        let ghost m: MetadataView = meta@;
        let ghost s: ImmixSpaceView = space@;
        let mut allocated_blocks: usize = 0;
        let mut i: usize = 0;
        while i < BLOCKS_IN_CHUNK
            invariant
                i <= BLOCKS_IN_CHUNK,
                m.wf(),
                self.chunk.valid(m),
                meta.wf(),
                meta@.start == m.start,
                meta@.chunks == m.chunks,
                self.no_double_free(m, s),
                self.blocks_swept(s, m, i as int, is_moving_gc) == (ChunkSweep {
                    m: meta@,
                    s: space@,
                    histogram: histogram@,
                    live: allocated_blocks as int,
                }),
                allocated_blocks <= i,
                histogram@.len() == NUM_BINS,
                forall|j: int|
                    0 <= j < NUM_BINS ==> #[trigger] histogram@[j] <= i * LINES_IN_BLOCK,
            decreases BLOCKS_IN_CHUNK - i,
        {
            proof {
                self.chunk.lemma_positions(m);
                self.lemma_blocks_swept(s, m, i as int, is_moving_gc);
                self.lemma_blocks_swept(s, m, i + 1, is_moving_gc);
            }
            let ghost sweep: ChunkSweep = self.blocks_swept(s, m, i as int, is_moving_gc);
            let block: Block = self.chunk.block(i);
            assert(block == self.chunk.block_at(i as int));
            assert(block.valid(m));
            assert(block.index(m) == self.chunk.first_block(m) + i);
            assert(meta@.block_mark[block.index(m)] == m.block_mark[block.index(m)]);
            assert(self.blocks_swept(s, m, i + 1, is_moving_gc) == Self::step(
                sweep,
                block,
                is_moving_gc,
            ));
            if Self::sweep_block(meta, space, histogram, block, is_moving_gc) {
                allocated_blocks += 1;
            }
            i += 1;
        }
        allocated_blocks
    }

    /// Sweeps every allocated block of the chunk. A chunk without live blocks leaves the space.
    pub fn do_work(
        &self,
        meta: &mut HeapMetadata,
        space: &mut ImmixSpace,
        is_moving_gc: bool,
        epilogue: &mut FlushPageResource,
    )
        requires
            old(meta).wf(),
            old(space)@.wf(old(meta)@),
            self.chunk.valid(old(meta)@),
            old(space)@.chunk_map[self.chunk.index(old(meta)@)],
            self.no_double_free(old(meta)@, old(space)@),
        ensures
            final(meta).wf(),
            final(meta)@ == self.swept(old(space)@, old(meta)@, is_moving_gc),
            final(space)@ == self.space_swept(
                old(space)@,
                old(meta)@,
                is_moving_gc,
                old(epilogue).counter,
            ),
            final(epilogue).counter == old(epilogue).counter.wrapping_sub(1),
    {
        let ghost m: MetadataView = meta@;
        let ghost s: ImmixSpaceView = space@;
        let mut histogram: Histogram = Histogram::new();
        let allocated_blocks: usize = self.sweep_blocks(meta, space, &mut histogram, is_moving_gc);
        let ghost end: ChunkSweep = self.blocks_swept(
            s,
            m,
            BLOCKS_IN_CHUNK as int,
            is_moving_gc,
        );
        proof {
            reveal(SweepChunk::swept);
            reveal(SweepChunk::space_swept);
            self.lemma_blocks_swept(s, m, BLOCKS_IN_CHUNK as int, is_moving_gc);
        }
        self.finish(meta, space, histogram, allocated_blocks);
        epilogue.finish_one_work_packet(space);
    }

    /// Records the outcome of the sweep of the blocks.
    fn finish(
        &self,
        meta: &mut HeapMetadata,
        space: &mut ImmixSpace,
        histogram: Histogram,
        allocated_blocks: usize,
    )
        requires
            old(meta).wf(),
            self.chunk.valid(old(meta)@),
            old(space)@.chunk_map.len() == old(meta)@.chunks,
        ensures
            final(meta).wf(),
            final(meta)@ == (MetadataView {
                log_bit: self.unlog_bits_op.applied(old(meta)@, self.chunk),
                ..old(meta)@
            }),
            final(space)@ == (ImmixSpaceView {
                swept_live_blocks: old(space)@.swept_live_blocks.wrapping_add(allocated_blocks),
                chunk_map: if allocated_blocks == 0 {
                    old(space)@.chunk_map.update(self.chunk.index(old(meta)@), false)
                } else {
                    old(space)@.chunk_map
                },
                defrag: DefragView {
                    mark_histograms: old(space)@.defrag.mark_histograms.push(histogram@),
                    ..old(space)@.defrag
                },
                ..old(space)@
            }),
    {
        space.swept_live_blocks = space.swept_live_blocks.wrapping_add(allocated_blocks);
        if allocated_blocks == 0 {
            space.chunk_map.set_allocated(meta, self.chunk, false);
        }
        space.defrag.add_completed_mark_histogram(histogram);
        self.unlog_bits_op.execute(meta, self.chunk);
    }
}

/// Counts the sweep packets that are still to run, and makes what they released available after
/// the last one.
#[derive(Debug, Clone, Copy, PartialEq, Eq, Structural)]
pub struct FlushPageResource {
    /// The packets that are still to run.
    pub counter: usize,
}

impl FlushPageResource {
    /// Takes note that a packet is done.
    pub fn finish_one_work_packet(&mut self, space: &mut ImmixSpace)
        ensures
            final(self).counter == old(self).counter.wrapping_sub(1),
            final(space)@ == if old(self).counter == 1 {
                old(space)@.flushed()
            } else {
                old(space)@
            },
    {
        let remaining: usize = self.counter;
        self.counter = remaining.wrapping_sub(1);
        if remaining == 1 {
            space.flush_page_resource();
        }
    }
}

/// Which valid-object bits are cleared before a trace.
#[derive(Debug, Clone, Copy, PartialEq, Eq, Structural)]
pub enum VOBitsClearingScope {
    /// Those of all blocks.
    FullGC,
    /// Those of unmarked blocks.
    BlockOnly,
    /// Those of lines that do not carry a mark.
    Line {
        /// The mark.
        state: u8,
    },
}

/// Clears valid-object bits of a chunk.
#[derive(Debug, Clone, Copy, PartialEq, Eq, Structural)]
pub struct ClearVOBitsAfterPrepare {
    /// The chunk.
    pub chunk: Chunk,
    /// Which bits to clear.
    pub scope: VOBitsClearingScope,
}

impl ClearVOBitsAfterPrepare {
    /// The bit at position `i` of the valid-object bits, which belongs to an allocated block, is
    /// cleared.
    pub open spec fn clears(m: MetadataView, line_mark_state: Option<u8>, i: int) -> bool {
        let state = BlockState::of_byte(m.block_mark[i / CELLS_IN_BLOCK as int]);
        state != BlockState::Unallocated && match line_mark_state {
            None => state is Unmarked,
            Some(mark) => m.line_mark[i / CELLS_IN_LINE as int] != mark,
        }
    }

    /// The valid-object bits after the first `n` blocks of the chunk were gone through.
    pub open spec fn blocks_cleared(
        self,
        m: MetadataView,
        line_mark_state: Option<u8>,
        n: int,
    ) -> Seq<u8> {
        let first = self.chunk.first_cell(m);
        Seq::new(
            m.vo_bit.len(),
            |i: int|
                if first <= i && i < first + n * CELLS_IN_BLOCK && Self::clears(
                    m,
                    line_mark_state,
                    i,
                ) {
                    0
                } else {
                    m.vo_bit[i]
                },
        )
    }

    /// The valid-object bits after the work.
    pub open spec fn cleared(self, m: MetadataView) -> Seq<u8> {
        match self.scope {
            VOBitsClearingScope::FullGC => filled(
                m.vo_bit,
                self.chunk.first_cell(m),
                self.chunk.end_cell(m),
                0,
            ),
            VOBitsClearingScope::BlockOnly => self.blocks_cleared(m, None, BLOCKS_IN_CHUNK as int),
            VOBitsClearingScope::Line { state } => self.blocks_cleared(
                m,
                Some(state),
                BLOCKS_IN_CHUNK as int,
            ),
        }
    }

    /// Clears the valid-object bits of the unmarked regions of the allocated blocks.
    fn clear_blocks(&self, meta: &mut HeapMetadata, line_mark_state: Option<u8>)
        requires
            old(meta).wf(),
            self.chunk.valid(old(meta)@),
            line_mark_state is None ==> forall|i: int|
                0 <= i < BLOCKS_IN_CHUNK ==> !((#[trigger] self.chunk.block_at(i)).state(
                    old(meta)@,
                ) is Reusable),
        ensures
            final(meta).wf(),
            final(meta)@ == (MetadataView {
                vo_bit: self.blocks_cleared(old(meta)@, line_mark_state, BLOCKS_IN_CHUNK as int),
                ..old(meta)@
            }),
    {
        let ghost m: MetadataView = meta@;
        assert(self.blocks_cleared(m, line_mark_state, 0) =~= m.vo_bit);
        proof {
            self.chunk.lemma_positions(m);
        }
        let mut i: usize = 0;
        while i < BLOCKS_IN_CHUNK
            invariant
                i <= BLOCKS_IN_CHUNK,
                meta.wf(),
                m.wf(),
                self.chunk.valid(m),
                line_mark_state is None ==> forall|j: int|
                    0 <= j < BLOCKS_IN_CHUNK ==> !((#[trigger] self.chunk.block_at(j)).state(
                        m,
                    ) is Reusable),
                meta@ == (MetadataView {
                    vo_bit: self.blocks_cleared(m, line_mark_state, i as int),
                    ..m
                }),
            decreases BLOCKS_IN_CHUNK - i,
        {
            proof {
                self.chunk.lemma_positions(m);
            }
            let ghost before: MetadataView = meta@;
            let block: Block = self.chunk.block(i);
            assert(block == self.chunk.block_at(i as int));
            proof {
                lemma_block_positions(m, block);
            }
            if block.get_state(meta) != BlockState::Unallocated {
                block.clear_vo_bits_for_unmarked_regions(meta, line_mark_state);
            }
            i += 1;
            assert forall|k: int| 0 <= k < m.vo_bit.len() implies meta@.vo_bit[k]
                == self.blocks_cleared(m, line_mark_state, i as int)[k] by {
                if block.first_cell(m) <= k && k < block.end_cell(m) {
                    assert(k / CELLS_IN_BLOCK as int == block.index(m));
                }
            }
            assert(meta@.vo_bit =~= self.blocks_cleared(m, line_mark_state, i as int));
        }
    }

    /// Clears the valid-object bits of the chunk that the scope names.
    pub fn do_work(&self, meta: &mut HeapMetadata)
        requires
            old(meta).wf(),
            self.chunk.valid(old(meta)@),
            self.scope is BlockOnly ==> forall|i: int|
                0 <= i < BLOCKS_IN_CHUNK ==> !((#[trigger] self.chunk.block_at(i)).state(
                    old(meta)@,
                ) is Reusable),
        ensures
            final(meta).wf(),
            final(meta)@ == (MetadataView { vo_bit: self.cleared(old(meta)@), ..old(meta)@ }),
    {
        match self.scope {
            VOBitsClearingScope::FullGC => {
                proof {
                    self.chunk.lemma_positions(meta@);
                }
                let first: usize = meta.cell(self.chunk.0);
                meta.vo_bit.fill(first, first + CELLS_IN_CHUNK, 0);
            },
            VOBitsClearingScope::BlockOnly => {
                self.clear_blocks(meta, None);
            },
            VOBitsClearingScope::Line { state } => {
                self.clear_blocks(meta, Some(state));
            },
        }
    }
}

} // verus!
