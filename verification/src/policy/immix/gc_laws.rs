//! What holds of preparing and sweeping an Immix space as a whole.

use crate::policy::immix::block::{
    count_holes, count_marked, lemma_block_positions, lemma_line_counts, lemma_same_marks, Block,
};
use crate::policy::immix::chunk_work::{PrepareBlockState, SweepChunk, VOBitsClearingScope};
use crate::policy::immix::immixspace::ImmixSpaceView;
use crate::policy::immix::line::{count_unmarked, first_line, last_line};
use crate::policy::immix::space_alloc::released;
use crate::policy::immix::space_gc::{
    blocks_of, chunk_blocks, prepares, space_chunks, sweeps, PrepareWork, SweepTasks,
};
use crate::util::constants::{BLOCKS_IN_CHUNK, CELLS_IN_CHUNK, LINES_IN_BLOCK};
use crate::util::heap::chunk_map::{chunk_at, chunks_set, law_chunks_set_lists_each_once};
use crate::util::heap::page_resource::ReleasedBlock;
use crate::util::linear_scan::Chunk;
use crate::util::log_bit::UnlogBitsOperation;
use crate::util::metadata::MetadataView;
use crate::util::occurrences::{lemma_times_empty, lemma_times_push, times};
use vstd::prelude::*;

verus! {

/// The lines that are counted as marked are those that carry the mark.
pub proof fn law_marked_lines_are_counted(marks: Seq<u8>, lo: int, hi: int, state: u8)
    requires
        0 <= lo <= hi <= marks.len(),
    ensures
        count_marked(marks, lo, hi, state) == times(marks.subrange(lo, hi), state),
    decreases hi - lo,
{
    if lo == hi {
        assert(marks.subrange(lo, hi) =~= Seq::empty());
        lemma_times_empty::<u8>(state);
    } else {
        law_marked_lines_are_counted(marks, lo, hi - 1, state);
        assert(marks.subrange(lo, hi) =~= marks.subrange(lo, hi - 1).push(marks[hi - 1]));
        lemma_times_push(marks.subrange(lo, hi - 1), marks[hi - 1], state);
    }
}

/// The lines of an object that are counted as newly marked are those that did not carry the mark.
pub proof fn law_newly_marked_lines_are_counted(marks: Seq<u8>, lo: int, hi: int, state: u8)
    requires
        0 <= lo <= hi <= marks.len(),
    ensures
        count_unmarked(marks, lo, hi, state) + times(marks.subrange(lo, hi), state) == hi - lo,
    decreases hi - lo,
{
    if lo == hi {
        assert(marks.subrange(lo, hi) =~= Seq::empty());
        lemma_times_empty::<u8>(state);
    } else {
        law_newly_marked_lines_are_counted(marks, lo, hi - 1, state);
        assert(marks.subrange(lo, hi) =~= marks.subrange(lo, hi - 1).push(marks[hi - 1]));
        lemma_times_push(marks.subrange(lo, hi - 1), marks[hi - 1], state);
    }
}

/// The lines that an object of at least one byte touches are those between its first and its last
/// byte.
pub proof fn law_lines_of_an_object(m: MetadataView, address: int, size: int, l: int)
    requires
        size > 0,
    ensures
        (first_line(m, address) <= l < last_line(m, address, size)) == (m.line(address) <= l
            <= m.line(address + size - 1)),
{
}

/// Lines that all carry the mark have no hole, and lines of which none does are one.
pub proof fn law_run_of_lines_is_one_hole(marks: Seq<u8>, lo: int, hi: int, state: u8)
    requires
        0 <= lo < hi <= marks.len(),
    ensures
        (forall|l: int| lo <= l < hi ==> #[trigger] marks[l] == state) ==> count_holes(
            marks,
            lo,
            hi,
            state,
        ) == 0,
        (forall|l: int| lo <= l < hi ==> #[trigger] marks[l] != state) ==> count_holes(
            marks,
            lo,
            hi,
            state,
        ) == 1,
    decreases hi - lo,
{
    if hi - 1 > lo {
        law_run_of_lines_is_one_hole(marks, lo, hi - 1, state);
        assert(marks[hi - 2] == state || marks[hi - 2] != state);
    } else {
        assert(count_holes(marks, lo, lo, state) == 0);
        assert(marks[lo] == state || marks[lo] != state);
    }
}

/// Wherever lines are cut in two, the holes of the parts are those of the whole, and one more if the
/// cut goes through a hole.
pub proof fn law_holes_of_the_parts(marks: Seq<u8>, lo: int, mid: int, hi: int, state: u8)
    requires
        0 <= lo <= mid <= hi <= marks.len(),
    ensures
        count_holes(marks, lo, mid, state) + count_holes(marks, mid, hi, state) == count_holes(
            marks,
            lo,
            hi,
            state,
        ) + (if lo < mid < hi && marks[mid - 1] != state && marks[mid] != state {
            1nat
        } else {
            0nat
        }),
    decreases hi - mid,
{
    if mid < hi {
        law_holes_of_the_parts(marks, lo, mid, hi - 1, state);
    }
}

/// How many lines of the block carry the mark.
pub open spec fn lines_with(m: MetadataView, block: Block, state: u8) -> nat {
    times(
        m.line_mark.subrange(
            block.index(m) * LINES_IN_BLOCK,
            (block.index(m) + 1) * LINES_IN_BLOCK,
        ),
        state,
    )
}

/// The block is allocated.
pub open spec fn in_use(m: MetadataView, block: Block) -> bool {
    m.block_mark[block.index(m)] != 0
}

/// The first `n` blocks of the chunk.
pub open spec fn first_blocks(chunk: Chunk, n: int) -> Seq<Block> {
    Seq::new(n as nat, |i: int| chunk.block_at(i))
}

/// Allocated blocks without a marked line.
pub open spec fn garbage(m: MetadataView, state: u8) -> spec_fn(Block) -> bool {
    |block: Block| in_use(m, block) && lines_with(m, block, state) == 0
}

/// Allocated blocks with a marked line.
pub open spec fn survivors(m: MetadataView, state: u8) -> spec_fn(Block) -> bool {
    |block: Block| in_use(m, block) && lines_with(m, block, state) > 0
}

/// Allocated blocks of which some lines are marked, and some are not.
pub open spec fn fragmented(m: MetadataView, state: u8) -> spec_fn(Block) -> bool {
    |block: Block| in_use(m, block) && 0 < lines_with(m, block, state) < LINES_IN_BLOCK
}

/// A filter over one more block.
proof fn lemma_filter_next(chunk: Chunk, n: int, keep: spec_fn(Block) -> bool)
    requires
        n > 0,
    ensures
        first_blocks(chunk, n).filter(keep) == if keep(chunk.block_at(n - 1)) {
            first_blocks(chunk, n - 1).filter(keep).push(chunk.block_at(n - 1))
        } else {
            first_blocks(chunk, n - 1).filter(keep)
        },
{
    reveal(Seq::filter);
    let all = first_blocks(chunk, n);
    assert(all.drop_last() =~= first_blocks(chunk, n - 1));
    assert(all.last() == chunk.block_at(n - 1));
}

/// The sweep of the first `n` blocks of a chunk.
proof fn lemma_sweep_sorts(
    work: SweepChunk,
    m: MetadataView,
    s: ImmixSpaceView,
    n: int,
    is_moving_gc: bool,
)
    requires
        m.wf(),
        work.chunk.valid(m),
        0 <= n <= BLOCKS_IN_CHUNK,
    ensures
        ({
            let end = work.blocks_swept(s, m, n, is_moving_gc);
            let state = s.line_mark_state;
            let blocks = first_blocks(work.chunk, n);
            &&& end.s.pr.pending == s.pr.pending + released(
                blocks.filter(garbage(m, state)),
                s.madvise_freed_this_gc,
            )
            &&& end.s.pr.free == s.pr.free
            &&& end.s.madvise_freed_this_gc == s.madvise_freed_this_gc
            &&& end.s.reusable_blocks.pending == s.reusable_blocks.pending + blocks.filter(
                fragmented(m, state),
            )
            &&& end.s.reusable_blocks.shared == s.reusable_blocks.shared
            &&& end.live == blocks.filter(survivors(m, state)).len()
        }),
    decreases n,
{
    let state = s.line_mark_state;
    let chunk = work.chunk;
    let end = work.blocks_swept(s, m, n, is_moving_gc);
    let blocks = first_blocks(chunk, n);
    reveal(Seq::filter);
    if n == 0 {
        assert(blocks =~= Seq::empty());
        assert(released(blocks.filter(garbage(m, state)), s.madvise_freed_this_gc) =~= Seq::empty());
        assert(s.pr.pending + Seq::<ReleasedBlock>::empty() =~= s.pr.pending);
        assert(s.reusable_blocks.pending + Seq::<Block>::empty() =~= s.reusable_blocks.pending);
    } else {
        reveal(SweepChunk::step);
        lemma_sweep_sorts(work, m, s, n - 1, is_moving_gc);
        work.lemma_blocks_swept(s, m, n - 1, is_moving_gc);
        work.lemma_other_lines(s, m, n - 1, is_moving_gc);
        chunk.lemma_positions(m);
        let before = work.blocks_swept(s, m, n - 1, is_moving_gc);
        let block = chunk.block_at(n - 1);
        lemma_block_positions(m, block);
        let lo = block.first_line(m);
        let hi = block.end_line_index(m);
        let cleared = SweepChunk::forwarding_cleared(before.s, before.m, block, is_moving_gc);
        assert(cleared.line_mark == before.m.line_mark);
        assert forall|l: int| lo <= l < hi implies m.line_mark[l]
            == #[trigger] cleared.line_mark[l] by {}
        lemma_same_marks(m.line_mark, cleared.line_mark, lo, hi, state);
        law_marked_lines_are_counted(m.line_mark, lo, hi, state);
        assert(block.marked_lines(cleared, state) == lines_with(m, block, state));
        assert(before.m.block_mark[block.index(m)] == m.block_mark[block.index(m)]);
        lemma_filter_next(chunk, n, garbage(m, state));
        lemma_filter_next(chunk, n, survivors(m, state));
        lemma_filter_next(chunk, n, fragmented(m, state));
        let less = first_blocks(chunk, n - 1);
        let dead = less.filter(garbage(m, state));
        assert(released(dead.push(block), s.madvise_freed_this_gc) =~= released(
            dead,
            s.madvise_freed_this_gc,
        ).push(ReleasedBlock { block, madvise: s.madvise_freed_this_gc }));
        lemma_lines_bound(m, block, state);
        assert(end.s.pr.pending =~= s.pr.pending + released(
            blocks.filter(garbage(m, state)),
            s.madvise_freed_this_gc,
        ));
        assert(end.s.reusable_blocks.pending =~= s.reusable_blocks.pending + blocks.filter(
            fragmented(m, state),
        ));
    }
}

/// A block has no more marked lines than lines.
proof fn lemma_lines_bound(m: MetadataView, block: Block, state: u8)
    requires
        m.wf(),
        block.valid(m),
    ensures
        lines_with(m, block, state) <= LINES_IN_BLOCK,
{
    lemma_block_positions(m, block);
    let lo = block.first_line(m);
    let hi = block.end_line_index(m);
    law_marked_lines_are_counted(m.line_mark, lo, hi, state);
    lemma_line_counts(m.line_mark, lo, hi, state);
}

/// The sweep of a chunk sorts its blocks: those without a marked line are handed to the page
/// resource, those with free lines are offered for reuse, and the chunk stays with the space iff
/// some block survives. After the last packet both are available.
pub proof fn law_sweep_sorts_the_blocks(
    work: SweepChunk,
    m: MetadataView,
    s: ImmixSpaceView,
    is_moving_gc: bool,
    packets: usize,
)
    requires
        m.wf(),
        s.wf(m),
        work.chunk.valid(m),
    ensures
        ({
            let after = work.space_swept(s, m, is_moving_gc, packets);
            let state = s.line_mark_state;
            let blocks = first_blocks(work.chunk, BLOCKS_IN_CHUNK as int);
            let dead = released(blocks.filter(garbage(m, state)), s.madvise_freed_this_gc);
            let reusable = blocks.filter(fragmented(m, state));
            let live = blocks.filter(survivors(m, state)).len();
            let i = work.chunk.index(m);
            &&& after.swept_live_blocks == s.swept_live_blocks.wrapping_add(live as usize)
            &&& live == 0 ==> !after.chunk_map[i]
            &&& live > 0 ==> after.chunk_map[i] == s.chunk_map[i]
            &&& forall|k: int|
                0 <= k < m.chunks && k != i ==> #[trigger] after.chunk_map[k] == s.chunk_map[k]
            &&& packets != 1 ==> after.pr.pending == s.pr.pending + dead
            &&& packets != 1 ==> after.reusable_blocks.pending == s.reusable_blocks.pending
                + reusable
            &&& packets == 1 && usize::BITS == 64 ==> after.pr.free == s.pr.free + (s.pr.pending
                + dead)
            &&& packets == 1 ==> after.reusable_blocks.shared == s.reusable_blocks.shared + (
            s.reusable_blocks.pending + reusable)
            &&& packets == 1 ==> after.reusable_blocks.pending.len() == 0
            &&& after.defrag.mark_histograms.len() == s.defrag.mark_histograms.len() + 1
        }),
{
    reveal(SweepChunk::space_swept);
    lemma_sweep_sorts(work, m, s, BLOCKS_IN_CHUNK as int, is_moving_gc);
    work.lemma_blocks_swept(s, m, BLOCKS_IN_CHUNK as int, is_moving_gc);
    work.chunk.lemma_positions(m);
}

/// What the byte of each block of a chunk says after its sweep: a free block, or one without a
/// marked line, is free; with some lines marked it says how many; with all, that it is in use.
pub proof fn law_sweep_counts_the_lines(
    work: SweepChunk,
    m: MetadataView,
    s: ImmixSpaceView,
    is_moving_gc: bool,
    i: int,
)
    requires
        m.wf(),
        work.chunk.valid(m),
        0 <= i < BLOCKS_IN_CHUNK,
    ensures
        ({
            let block = work.chunk.block_at(i);
            let byte = work.swept(s, m, is_moving_gc).block_mark[block.index(m)];
            let marked = lines_with(m, block, s.line_mark_state);
            &&& !in_use(m, block) || marked == 0 ==> byte == 0
            &&& in_use(m, block) && 0 < marked < LINES_IN_BLOCK ==> byte == marked
            &&& in_use(m, block) && marked == LINES_IN_BLOCK ==> byte == 255
        }),
{
    let block = work.chunk.block_at(i);
    let state = s.line_mark_state;
    work.chunk.lemma_positions(m);
    lemma_block_positions(m, block);
    work.law_sweep_frees_unmarked_blocks(m, s, is_moving_gc, i);
    law_marked_lines_are_counted(
        m.line_mark,
        block.first_line(m),
        block.end_line_index(m),
        state,
    );
    lemma_lines_bound(m, block, state);
    reveal(SweepChunk::swept);
    work.lemma_blocks_swept(s, m, BLOCKS_IN_CHUNK as int, is_moving_gc);
    assert(block.index(work.swept(s, m, is_moving_gc)) == block.index(m));
}

/// Lines that carry the same marks have the same holes.
proof fn lemma_same_holes(a: Seq<u8>, b: Seq<u8>, lo: int, hi: int, state: u8)
    requires
        forall|l: int| lo <= l < hi ==> a[l] == #[trigger] b[l],
    ensures
        count_holes(a, lo, hi, state) == count_holes(b, lo, hi, state),
    decreases hi - lo,
{
    if lo < hi {
        lemma_same_holes(a, b, lo, hi - 1, state);
        assert(a[hi - 1] == b[hi - 1]);
        if lo < hi - 1 {
            assert(a[hi - 2] == b[hi - 2]);
        }
    }
}

/// The number of holes of a block.
pub open spec fn holes_in(m: MetadataView, block: Block, state: u8) -> nat {
    count_holes(
        m.line_mark,
        block.index(m) * LINES_IN_BLOCK,
        (block.index(m) + 1) * LINES_IN_BLOCK,
        state,
    )
}

/// What the sweep of one more block sees of it.
proof fn lemma_sweep_sees(
    work: SweepChunk,
    m: MetadataView,
    s: ImmixSpaceView,
    n: int,
    is_moving_gc: bool,
)
    requires
        m.wf(),
        work.chunk.valid(m),
        0 < n <= BLOCKS_IN_CHUNK,
    ensures
        ({
            let before = work.blocks_swept(s, m, n - 1, is_moving_gc);
            let block = work.chunk.block_at(n - 1);
            let cleared = SweepChunk::forwarding_cleared(before.s, before.m, block, is_moving_gc);
            let state = s.line_mark_state;
            &&& before.s.line_mark_state == state
            &&& block.valid(m)
            &&& block.index(cleared) == block.index(m)
            &&& block.index(before.m) == block.index(m)
            &&& cleared.line_mark == before.m.line_mark
            &&& cleared.block_mark == before.m.block_mark
            &&& cleared.block_defrag == before.m.block_defrag
            &&& before.m.block_mark[block.index(m)] == m.block_mark[block.index(m)]
            &&& block.marked_lines(cleared, state) == lines_with(m, block, state)
            &&& block.holes(cleared, state) == holes_in(m, block, state)
            &&& holes_in(m, block, state) <= LINES_IN_BLOCK
            &&& lines_with(m, block, state) <= LINES_IN_BLOCK
        }),
{
    let state = s.line_mark_state;
    let chunk = work.chunk;
    work.lemma_blocks_swept(s, m, n - 1, is_moving_gc);
    work.lemma_other_lines(s, m, n - 1, is_moving_gc);
    chunk.lemma_positions(m);
    let before = work.blocks_swept(s, m, n - 1, is_moving_gc);
    let block = chunk.block_at(n - 1);
    lemma_block_positions(m, block);
    let lo = block.first_line(m);
    let hi = block.end_line_index(m);
    let cleared = SweepChunk::forwarding_cleared(before.s, before.m, block, is_moving_gc);
    assert forall|l: int| lo <= l < hi implies m.line_mark[l] == #[trigger] cleared.line_mark[l] by {}
    lemma_same_marks(m.line_mark, cleared.line_mark, lo, hi, state);
    lemma_same_holes(m.line_mark, cleared.line_mark, lo, hi, state);
    law_marked_lines_are_counted(m.line_mark, lo, hi, state);
    lemma_line_counts(m.line_mark, lo, hi, state);
}

/// The line marks after the first `n` blocks of a chunk were swept.
proof fn lemma_line_marks_swept(
    work: SweepChunk,
    m: MetadataView,
    s: ImmixSpaceView,
    n: int,
    is_moving_gc: bool,
    l: int,
)
    requires
        m.wf(),
        work.chunk.valid(m),
        0 <= n <= BLOCKS_IN_CHUNK,
        0 <= l < m.line_mark.len(),
    ensures
        ({
            let first = m.chunk(work.chunk.addr()) * BLOCKS_IN_CHUNK;
            let i = l / LINES_IN_BLOCK as int;
            work.blocks_swept(s, m, n, is_moving_gc).m.line_mark[l] == if first <= i && i < first
                + n && m.block_mark[i] != 0 && m.line_mark[l] != s.line_mark_state
                && s.line_mark_state > 125 {
                0
            } else {
                m.line_mark[l]
            }
        }),
    decreases n,
{
    if n > 0 {
        reveal(SweepChunk::step);
        lemma_line_marks_swept(work, m, s, n - 1, is_moving_gc, l);
        lemma_sweep_sees(work, m, s, n, is_moving_gc);
        work.chunk.lemma_positions(m);
        work.lemma_other_lines(s, m, n - 1, is_moving_gc);
        let block = work.chunk.block_at(n - 1);
        lemma_block_positions(m, block);
        assert(l / 1 == l);
    }
}

/// The sweep of a chunk keeps the mark of every marked line. The marks of other lines stay, too,
/// except in the blocks in use before the marks start over: there they are dropped.
pub proof fn law_sweep_drops_stale_marks(
    work: SweepChunk,
    m: MetadataView,
    s: ImmixSpaceView,
    is_moving_gc: bool,
    l: int,
)
    requires
        m.wf(),
        work.chunk.valid(m),
        0 <= l < m.line_mark.len(),
    ensures
        ({
            let after = work.swept(s, m, is_moving_gc);
            let first = m.chunk(work.chunk.addr()) * BLOCKS_IN_CHUNK;
            let i = l / LINES_IN_BLOCK as int;
            &&& m.line_mark[l] == s.line_mark_state ==> after.line_mark[l] == s.line_mark_state
            &&& s.line_mark_state <= 125 ==> after.line_mark[l] == m.line_mark[l]
            &&& s.line_mark_state > 125 && first <= i < first + BLOCKS_IN_CHUNK && m.block_mark[i]
                != 0 && m.line_mark[l] != s.line_mark_state ==> after.line_mark[l] == 0
            &&& !(first <= i < first + BLOCKS_IN_CHUNK) ==> after.line_mark[l] == m.line_mark[l]
        }),
{
    reveal(SweepChunk::swept);
    work.chunk.lemma_positions(m);
    lemma_line_marks_swept(work, m, s, BLOCKS_IN_CHUNK as int, is_moving_gc, l);
}

/// The number of holes of every block that survives the sweep of the first `n` blocks of a chunk is
/// recorded, and its marked lines are counted under that number.
pub proof fn law_sweep_records_the_holes(
    work: SweepChunk,
    m: MetadataView,
    s: ImmixSpaceView,
    n: int,
    is_moving_gc: bool,
)
    requires
        m.wf(),
        work.chunk.valid(m),
        0 < n <= BLOCKS_IN_CHUNK,
    ensures
        ({
            let before = work.blocks_swept(s, m, n - 1, is_moving_gc);
            let after = work.blocks_swept(s, m, n, is_moving_gc);
            let block = work.chunk.block_at(n - 1);
            let state = s.line_mark_state;
            let holes = holes_in(m, block, state) as int;
            &&& survivors(m, state)(block) ==> after.m.block_defrag[block.index(m)] == holes
            &&& forall|i: int|
                0 <= i < m.block_defrag.len() && i != block.index(m)
                    ==> #[trigger] after.m.block_defrag[i] == before.m.block_defrag[i]
            &&& survivors(m, state)(block) && 0 <= holes < before.histogram.len()
                && before.histogram[holes] + LINES_IN_BLOCK <= usize::MAX
                ==> after.histogram[holes] == before.histogram[holes] + lines_with(m, block, state)
            &&& forall|h: int|
                holes < before.histogram.len() && 0 <= h < before.histogram.len() && (h != holes
                    || !survivors(m, state)(block))
                    ==> #[trigger] after.histogram[h] == before.histogram[h]
        }),
{
    reveal(SweepChunk::step);
    lemma_sweep_sees(work, m, s, n, is_moving_gc);
    work.chunk.lemma_positions(m);
    lemma_block_positions(m, work.chunk.block_at(n - 1));
    lemma_defrag_table(work, m, s, n - 1, is_moving_gc);
}

/// The table of holes keeps its length.
proof fn lemma_defrag_table(
    work: SweepChunk,
    m: MetadataView,
    s: ImmixSpaceView,
    n: int,
    is_moving_gc: bool,
)
    requires
        m.wf(),
        work.chunk.valid(m),
        0 <= n <= BLOCKS_IN_CHUNK,
    ensures
        work.blocks_swept(s, m, n, is_moving_gc).m.block_defrag.len() == m.block_defrag.len(),
    decreases n,
{
    if n > 0 {
        reveal(SweepChunk::step);
        lemma_defrag_table(work, m, s, n - 1, is_moving_gc);
        lemma_sweep_sees(work, m, s, n, is_moving_gc);
        lemma_block_positions(m, work.chunk.block_at(n - 1));
    }
}

/// Preparing a chunk for a major collection clears its marks and decides for every block in use
/// whether it is a source: with nothing to move, none is; otherwise all are if all are asked for,
/// and else those with more holes than the threshold. Blocks that are free, and other chunks, are
/// left alone.
pub proof fn law_preparation_covers_the_chunk(
    work: PrepareBlockState,
    m: MetadataView,
    s: ImmixSpaceView,
)
    requires
        m.wf(),
        work.chunk.valid(m),
        s.vm.mark_bit is OnSide,
    ensures
        ({
            let after = work.prepared(s, m);
            let first = m.chunk(work.chunk.addr()) * BLOCKS_IN_CHUNK;
            let cell = m.chunk(work.chunk.addr()) * CELLS_IN_CHUNK;
            &&& forall|c: int|
                cell <= c < cell + CELLS_IN_CHUNK ==> #[trigger] after.mark[c] == 0
            &&& forall|c: int|
                0 <= c < m.mark.len() && !(cell <= c < cell + CELLS_IN_CHUNK)
                    ==> #[trigger] after.mark[c] == m.mark[c]
            &&& forall|i: int|
                first <= i < first + BLOCKS_IN_CHUNK && m.block_mark[i] != 0
                    ==> #[trigger] after.block_mark[i] == 255
            &&& forall|i: int|
                first <= i < first + BLOCKS_IN_CHUNK && m.block_mark[i] != 0
                    && s.space_args.never_move_objects ==> #[trigger] after.block_defrag[i] == 0
            &&& forall|i: int|
                first <= i < first + BLOCKS_IN_CHUNK && m.block_mark[i] != 0
                    && !s.space_args.never_move_objects && (s.defrag_every_block
                    || work.compact_all) ==> #[trigger] after.block_defrag[i] == 255
            &&& forall|i: int|
                first <= i < first + BLOCKS_IN_CHUNK && m.block_mark[i] != 0
                    && !s.space_args.never_move_objects && !s.defrag_every_block
                    && !work.compact_all ==> #[trigger] after.block_defrag[i] == (
                match work.defrag_threshold {
                    Some(threshold) => if m.block_defrag[i] > threshold {
                        255u8
                    } else {
                        0u8
                    },
                    None => 0u8,
                })
            &&& forall|i: int|
                0 <= i < m.block_mark.len() && (m.block_mark[i] == 0 || i < first || i >= first
                    + BLOCKS_IN_CHUNK) ==> #[trigger] after.block_mark[i] == m.block_mark[i]
            &&& forall|i: int|
                0 <= i < m.block_mark.len() && (m.block_mark[i] == 0 || i < first || i >= first
                    + BLOCKS_IN_CHUNK) ==> #[trigger] after.block_defrag[i] == m.block_defrag[i]
            &&& after == (MetadataView {
                mark: after.mark,
                block_mark: after.block_mark,
                block_defrag: after.block_defrag,
                log_bit: after.log_bit,
                ..m
            })
        }),
{
    work.chunk.lemma_positions(m);
}

/// A chunk of the heap that belongs to the space is listed.
proof fn lemma_chunk_listed(m: MetadataView, s: ImmixSpaceView, k: int) -> (i: int)
    requires
        m.wf(),
        s.wf(m),
        0 <= k < m.chunks,
        s.chunk_map[k],
    ensures
        0 <= i < space_chunks(m, s).len(),
        space_chunks(m, s)[i] == chunk_at(m, k),
{
    law_chunks_set_lists_each_once(m, s.chunk_map, m.chunks);
    let list = space_chunks(m, s);
    assert(chunks_set(m, s.chunk_map, m.chunks).contains(chunk_at(m, k)));
    choose|i: int| 0 <= i < list.len() && list[i] == chunk_at(m, k)
}

/// The preparation of a major collection has a packet for every chunk of the space, which knows
/// whether to look for sources; that of a nursery collection has none. No chunk has two.
pub proof fn law_preparation_reaches_every_chunk(
    work: PrepareWork,
    m: MetadataView,
    s: ImmixSpaceView,
    s2: ImmixSpaceView,
    major_gc: bool,
    unlog_bits_op: UnlogBitsOperation,
    clear_vo_bits: bool,
)
    requires
        m.wf(),
        s.wf(m),
        prepares(work, m, s, s2, major_gc, unlog_bits_op, clear_vo_bits),
    ensures
        !major_gc ==> work.prepare@.len() == 0,
        major_gc ==> forall|k: int|
            0 <= k < m.chunks && #[trigger] s.chunk_map[k] ==> exists|i: int|
                0 <= i < work.prepare@.len() && (#[trigger] work.prepare@[i]).chunk == chunk_at(m, k),
        forall|i: int|
            0 <= i < work.prepare@.len() ==> {
                let packet = #[trigger] work.prepare@[i];
                &&& packet.unlog_bits_op == unlog_bits_op
                &&& packet.defrag_threshold == if s.defrag.in_defrag {
                    Some(s2.defrag.spill_threshold)
                } else {
                    None
                }
                &&& packet.compact_all == (s.defrag.compact_all && s.defrag.in_defrag)
            },
        forall|i: int, j: int|
            0 <= i < j < work.prepare@.len() ==> (#[trigger] work.prepare@[i]).chunk != (
            #[trigger] work.prepare@[j]).chunk,
        clear_vo_bits && (major_gc || s2.space_args.mixed_age) ==> forall|k: int|
            0 <= k < m.chunks && #[trigger] s.chunk_map[k] ==> exists|i: int|
                0 <= i < work.clear_vo_bits@.len() && (#[trigger] work.clear_vo_bits@[i]).chunk
                    == chunk_at(m, k),
        forall|i: int|
            0 <= i < work.clear_vo_bits@.len() ==> (#[trigger] work.clear_vo_bits@[i]).scope == if major_gc {
                VOBitsClearingScope::FullGC
            } else {
                VOBitsClearingScope::Line { state: s2.line_mark_state }
            },
        !clear_vo_bits || !(major_gc || s2.space_args.mixed_age)
            ==> work.clear_vo_bits@.len() == 0,
{
    law_chunks_set_lists_each_once(m, s.chunk_map, m.chunks);
    let list = space_chunks(m, s);
    if major_gc {
        assert forall|k: int| 0 <= k < m.chunks && #[trigger] s.chunk_map[k] implies exists|i: int|
            0 <= i < work.prepare@.len() && (#[trigger] work.prepare@[i]).chunk == chunk_at(
                m,
                k,
            ) by {
            let i = lemma_chunk_listed(m, s, k);
            assert(work.prepare@[i].chunk == list[i]);
        }
        assert forall|i: int, j: int| 0 <= i < j < work.prepare@.len() implies (
        #[trigger] work.prepare@[i]).chunk != (#[trigger] work.prepare@[j]).chunk by {
            assert(work.prepare@[i].chunk == list[i]);
            assert(work.prepare@[j].chunk == list[j]);
            assert(list[i] != list[j]);
        }
    }
    if clear_vo_bits && (major_gc || s2.space_args.mixed_age) {
        assert forall|k: int| 0 <= k < m.chunks && #[trigger] s.chunk_map[k] implies exists|i: int|
            0 <= i < work.clear_vo_bits@.len() && (#[trigger] work.clear_vo_bits@[i]).chunk
                == chunk_at(m, k) by {
            let i = lemma_chunk_listed(m, s, k);
            assert(work.clear_vo_bits@[i].chunk == list[i]);
        }
    }
}

/// The release of a collection has one packet for every chunk of the space, and none for another;
/// what waits for the last packet waits for all of them.
pub proof fn law_release_sweeps_every_chunk(
    tasks: SweepTasks,
    m: MetadataView,
    s: ImmixSpaceView,
    unlog_bits_op: UnlogBitsOperation,
)
    requires
        m.wf(),
        s.wf(m),
        sweeps(tasks, m, s, unlog_bits_op),
    ensures
        tasks.epilogue.counter == tasks.packets@.len(),
        forall|k: int|
            0 <= k < m.chunks ==> #[trigger] s.chunk_map[k] == exists|i: int|
                0 <= i < tasks.packets@.len() && (#[trigger] tasks.packets@[i]).chunk == chunk_at(
                    m,
                    k,
                ),
        forall|i: int|
            0 <= i < tasks.packets@.len() ==> (#[trigger] tasks.packets@[i]).unlog_bits_op
                == unlog_bits_op,
        forall|i: int, j: int|
            0 <= i < j < tasks.packets@.len() ==> (#[trigger] tasks.packets@[i]).chunk != (
            #[trigger] tasks.packets@[j]).chunk,
{
    law_chunks_set_lists_each_once(m, s.chunk_map, m.chunks);
    let list = space_chunks(m, s);
    assert forall|k: int| 0 <= k < m.chunks implies #[trigger] s.chunk_map[k] == exists|i: int|
        0 <= i < tasks.packets@.len() && (#[trigger] tasks.packets@[i]).chunk == chunk_at(m, k) by {
        if s.chunk_map[k] {
            let i = lemma_chunk_listed(m, s, k);
            assert(tasks.packets@[i].chunk == list[i]);
        } else {
            assert(!chunks_set(m, s.chunk_map, m.chunks).contains(chunk_at(m, k)));
            if exists|i: int|
                0 <= i < tasks.packets@.len() && (#[trigger] tasks.packets@[i]).chunk == chunk_at(
                    m,
                    k,
                ) {
                let i = choose|i: int|
                    0 <= i < tasks.packets@.len() && (#[trigger] tasks.packets@[i]).chunk
                        == chunk_at(m, k);
                assert(list[i] == chunk_at(m, k));
            }
        }
    }
    assert forall|i: int, j: int| 0 <= i < j < tasks.packets@.len() implies (
    #[trigger] tasks.packets@[i]).chunk != (#[trigger] tasks.packets@[j]).chunk by {
        assert(tasks.packets@[i].chunk == list[i]);
        assert(tasks.packets@[j].chunk == list[j]);
        assert(list[i] != list[j]);
    }
}

/// The blocks of a chunk that may have objects are its allocated blocks, in order.
pub proof fn law_allocated_blocks_of_a_chunk(m: MetadataView, chunk: Chunk, n: int)
    requires
        m.wf(),
        chunk.valid(m),
        0 <= n <= BLOCKS_IN_CHUNK,
    ensures
        chunk_blocks(m, chunk, n) == first_blocks(chunk, n).filter(
            |block: Block| in_use(m, block),
        ),
    decreases n,
{
    let keep = |block: Block| in_use(m, block);
    if n == 0 {
        reveal(Seq::filter);
        assert(first_blocks(chunk, n) =~= Seq::empty());
    } else {
        law_allocated_blocks_of_a_chunk(m, chunk, n - 1);
        lemma_filter_next(chunk, n, keep);
    }
}

/// The blocks of some chunks that may have objects are those of the chunks, one after the other.
pub proof fn law_allocated_blocks_of_chunks(m: MetadataView, chunks: Seq<Chunk>)
    requires
        m.wf(),
        forall|i: int| 0 <= i < chunks.len() ==> (#[trigger] chunks[i]).valid(m),
    ensures
        blocks_of(m, chunks) == chunks.map_values(
            |chunk: Chunk|
                first_blocks(chunk, BLOCKS_IN_CHUNK as int).filter(
                    |block: Block| in_use(m, block),
                ),
        ).flatten(),
    decreases chunks.len(),
{
    let f = |chunk: Chunk|
        first_blocks(chunk, BLOCKS_IN_CHUNK as int).filter(|block: Block| in_use(m, block));
    if chunks.len() == 0 {
        assert(chunks.map_values(f) =~= Seq::empty());
        Seq::<Seq<Block>>::empty().lemma_flatten_and_flatten_alt_are_equivalent();
        assert(blocks_of(m, chunks) =~= chunks.map_values(f).flatten());
    } else {
        let less = chunks.drop_last();
        let chunk = chunks.last();
        assert forall|i: int| 0 <= i < less.len() implies (#[trigger] less[i]).valid(m) by {
            assert(less[i] == chunks[i]);
        }
        assert(chunk == chunks[chunks.len() - 1]);
        law_allocated_blocks_of_chunks(m, less);
        law_allocated_blocks_of_a_chunk(m, chunk, BLOCKS_IN_CHUNK as int);
        assert(chunks.map_values(f) =~= less.map_values(f).push(f(chunk)));
        less.map_values(f).lemma_flatten_push(f(chunk));
    }
}

/// A major collection starts with a line mark that no line of a live object carries: neither the one
/// of the collection before it, nor the one for lines without a mark. After its release exactly the
/// lines that it marked are taken.
pub proof fn law_line_marks_start_over(
    s: ImmixSpaceView,
    m: MetadataView,
    spill_threshold: Option<usize>,
)
    requires
        s.wf(m),
    ensures
        ({
            let prepared = s.prepared(true, spill_threshold);
            let released = prepared.released(true);
            &&& prepared.line_mark_state != s.line_mark_state
            &&& prepared.line_mark_state != 0
            &&& s.line_mark_state < 127 ==> prepared.line_mark_state == s.line_mark_state + 1
            &&& prepared.line_unavail_state == s.line_unavail_state
            &&& prepared.major_live_bytes == 0
            &&& released.line_mark_state == prepared.line_mark_state
            &&& released.line_unavail_state == prepared.line_mark_state
            &&& released.reusable_blocks.shared.len() == 0
            &&& released.reusable_blocks.pending.len() == 0
            &&& released.swept_live_blocks == 0
            &&& released.lines_consumed == 0
            &&& released.chunk_map == s.chunk_map
            &&& released.pr == s.pr
            &&& s.prepared(false, spill_threshold) == s
            &&& s.released(false).line_unavail_state == s.line_unavail_state
        }),
{
}

} // verus!
