//! What holds of the sweeps of a space that counts references as a whole.

use crate::policy::immix::block::{lemma_block_positions, Block};
use crate::policy::immix::immixspace::ImmixSpaceView;
use crate::policy::immix::rc_work::{
    in_space, BlockSweep, ChunkMarkZeroing, ChunkRange, SweepBlocksAfterDecs, SweepDeadCycles,
};
use crate::policy::immix::space_alloc::released;
use crate::util::constants::{
    BLOCKS_IN_CHUNK, BYTES_IN_BLOCK, BYTES_IN_CHUNK, CELLS_IN_BLOCK, CELLS_IN_CHUNK, CELLS_IN_LINE,
    MIN_OBJECT_SIZE,
};
use crate::util::heap::page_resource::ReleasedBlock;
use crate::util::linear_scan::Chunk;
use crate::util::metadata::MetadataView;
use crate::util::vm::ObjectModel;
use vstd::prelude::*;

verus! {

/// Every count of the block is zero.
pub open spec fn uncounted(m: MetadataView, block: Block) -> bool {
    forall|cell: int|
        block.index(m) * CELLS_IN_BLOCK <= cell < (block.index(m) + 1) * CELLS_IN_BLOCK
            ==> #[trigger] m.rc[cell] == 0
}

/// The entry stands for a block that a sweep after decrements has to free: it is allocated, no
/// mutator took it in this phase, and it must be freed or has no count left.
pub open spec fn left_dead(m: MetadataView) -> spec_fn((Block, bool)) -> bool {
    |entry: (Block, bool)|
        m.block_mark[entry.0.index(m)] != 0 && !(m.global_phase_epoch % 2 == 1
            && m.block_epoch[entry.0.index(m)] == m.global_phase_epoch) && (entry.1 || uncounted(
            m,
            entry.0,
        ))
}

/// The blocks of the entries.
pub open spec fn blocks_alone(entries: Seq<(Block, bool)>) -> Seq<Block> {
    entries.map_values(|entry: (Block, bool)| entry.0)
}

/// The entries of two blocks.
proof fn lemma_other_index(m: MetadataView, a: Block, b: Block)
    requires
        m.wf(),
        a.valid(m),
        b.valid(m),
        a != b,
    ensures
        a.index(m) != b.index(m),
{
    lemma_block_positions(m, a);
    lemma_block_positions(m, b);
    if a.index(m) == b.index(m) {
        assert(a.addr() == b.addr());
        assert(a == b);
    }
}

/// The sweep after decrements leaves counts and epochs alone, and the entries of other blocks.
proof fn lemma_mature_sweep_spares_others(
    m: MetadataView,
    s: ImmixSpaceView,
    blocks: Seq<(Block, bool)>,
    other: Block,
)
    requires
        m.wf(),
        forall|i: int| 0 <= i < blocks.len() ==> (#[trigger] blocks[i]).0.valid(m),
        other.valid(m),
        forall|i: int| 0 <= i < blocks.len() ==> (#[trigger] blocks[i]).0 != other,
    ensures
        ({
            let after = SweepBlocksAfterDecs::swept(m, s, blocks).m;
            let i = other.index(m);
            &&& after.wf()
            &&& after == (MetadataView {
                block_mark: after.block_mark,
                block_promoted: after.block_promoted,
                block_defrag: after.block_defrag,
                block_log: after.block_log,
                ..m
            })
            &&& after.block_mark[i] == m.block_mark[i]
            &&& after.block_promoted[i] == m.block_promoted[i]
            &&& after.block_defrag[i] == m.block_defrag[i]
            &&& after.block_log[i] == m.block_log[i]
            &&& SweepBlocksAfterDecs::swept(m, s, blocks).s.rc_enabled == s.rc_enabled
        }),
    decreases blocks.len(),
{
    if blocks.len() > 0 {
        let less = blocks.drop_last();
        let last = blocks.last();
        assert forall|i: int| 0 <= i < less.len() implies (#[trigger] less[i]).0.valid(m)
            && less[i].0 != other by {
            assert(less[i] == blocks[i]);
        }
        lemma_mature_sweep_spares_others(m, s, less, other);
        assert(last == blocks[blocks.len() - 1]);
        lemma_block_positions(m, last.0);
        lemma_other_index(m, last.0, other);
    }
}

/// The sweep after decrements frees every listed block that has to be freed, in order, and no other:
/// the page resource gets exactly these, as many as are counted.
pub proof fn law_mature_sweep_frees_all_dead_blocks(
    m: MetadataView,
    s: ImmixSpaceView,
    blocks: Seq<(Block, bool)>,
)
    requires
        m.wf(),
        SweepBlocksAfterDecs::sweepable(m, s, blocks),
    ensures
        ({
            let sweep = SweepBlocksAfterDecs::swept(m, s, blocks);
            let dead = blocks.filter(left_dead(m));
            &&& sweep.freed == dead.len()
            &&& sweep.s.pr.pending == s.pr.pending + released(blocks_alone(dead), false)
            &&& sweep.s.pr.free == s.pr.free
        }),
    decreases blocks.len(),
{
    reveal(Seq::filter);
    let is_dead = left_dead(m);
    let dead = blocks.filter(is_dead);
    if blocks.len() > 0 {
        let less = blocks.drop_last();
        let last = blocks.last();
        assert forall|i: int| 0 <= i < less.len() implies less[i] == #[trigger] blocks[i] by {}
        assert(SweepBlocksAfterDecs::sweepable(m, s, less)) by {
            assert forall|i: int| 0 <= i < less.len() implies {
                let entry = #[trigger] less[i];
                &&& entry.0.valid(m)
                &&& entry.0.freed_by_mature_sweep(m, entry.1, false) ==> s.can_free(entry.0)
                &&& entry.1 ==> entry.0.sweepable(m)
            } by {
                assert(less[i] == blocks[i]);
            }
            assert forall|i: int, j: int| 0 <= i < j < less.len() implies (#[trigger] less[i]).0
                != (#[trigger] less[j]).0 by {
                assert(blocks[i].0 != blocks[j].0);
            }
        }
        law_mature_sweep_frees_all_dead_blocks(m, s, less);
        let before = SweepBlocksAfterDecs::swept(m, s, less);
        let block = last.0;
        assert(last == blocks[blocks.len() - 1]);
        lemma_block_positions(m, block);
        assert forall|i: int| 0 <= i < less.len() implies (#[trigger] less[i]).0 != block
            && less[i].0.valid(m) by {
            assert(less[i] == blocks[i]);
            assert(blocks[i].0 != blocks[blocks.len() - 1].0);
        }
        lemma_mature_sweep_spares_others(m, s, less, block);
        let unlogged = MetadataView {
            block_log: before.m.block_log.update(block.index(before.m), 0),
            ..before.m
        };
        assert(block.all_counts_zero(unlogged) == uncounted(m, block)) by {
            assert(block.first_cell(unlogged) == block.index(m) * CELLS_IN_BLOCK);
            assert(block.end_cell(unlogged) == (block.index(m) + 1) * CELLS_IN_BLOCK);
        }
        assert(block.freed_by_mature_sweep(unlogged, last.1, false) == is_dead(last));
        let dead_before = less.filter(is_dead);
        if is_dead(last) {
            assert(dead == dead_before.push(last));
            assert(released(blocks_alone(dead), false) =~= released(
                blocks_alone(dead_before),
                false,
            ).push(ReleasedBlock { block, madvise: false }));
        }
    } else {
        assert(released(blocks_alone(dead), false) =~= Seq::empty());
    }
    assert(SweepBlocksAfterDecs::swept(m, s, blocks).s.pr.pending =~= s.pr.pending + released(
        blocks_alone(dead),
        false,
    ));
}

/// After the sweep that follows decrements no listed block waits for one any more. One that had to
/// be freed is unallocated and has left promotion and defragmentation behind; any other block
/// keeps its state.
pub proof fn law_mature_sweep_resets_listed_blocks(
    m: MetadataView,
    s: ImmixSpaceView,
    blocks: Seq<(Block, bool)>,
    k: int,
)
    requires
        m.wf(),
        SweepBlocksAfterDecs::sweepable(m, s, blocks),
        s.rc_enabled,
        0 <= k < blocks.len(),
    ensures
        ({
            let after = SweepBlocksAfterDecs::swept(m, s, blocks).m;
            let i = blocks[k].0.index(m);
            &&& after.block_log[i] == 0
            &&& left_dead(m)(blocks[k]) ==> after.block_mark[i] == 0 && after.block_promoted[i] == 0
                && after.block_defrag[i] == 0
            &&& !left_dead(m)(blocks[k]) ==> after.block_mark[i] == m.block_mark[i]
                && after.block_promoted[i] == m.block_promoted[i] && after.block_defrag[i]
                == m.block_defrag[i]
            &&& after.rc == m.rc
            &&& after.mark == m.mark
            &&& after.line_mark == m.line_mark
        }),
    decreases blocks.len(),
{
    let less = blocks.drop_last();
    let last = blocks.last();
    let block = blocks[k].0;
    assert(last == blocks[blocks.len() - 1]);
    assert forall|i: int| 0 <= i < less.len() implies (#[trigger] less[i]).0.valid(m) && less[i].0
        != last.0 by {
        assert(less[i] == blocks[i]);
        assert(blocks[i].0 != blocks[blocks.len() - 1].0);
    }
    lemma_block_positions(m, last.0);
    lemma_block_positions(m, block);
    lemma_mature_sweep_spares_others(m, s, less, last.0);
    let before = SweepBlocksAfterDecs::swept(m, s, less);
    let unlogged = MetadataView {
        block_log: before.m.block_log.update(last.0.index(before.m), 0),
        ..before.m
    };
    assert(last.0.all_counts_zero(unlogged) == uncounted(m, last.0)) by {
        assert(last.0.first_cell(unlogged) == last.0.index(m) * CELLS_IN_BLOCK);
        assert(last.0.end_cell(unlogged) == (last.0.index(m) + 1) * CELLS_IN_BLOCK);
    }
    if k < less.len() {
        assert(less[k] == blocks[k]);
        assert(SweepBlocksAfterDecs::sweepable(m, s, less)) by {
            assert forall|i: int| 0 <= i < less.len() implies {
                let entry = #[trigger] less[i];
                &&& entry.0.valid(m)
                &&& entry.0.freed_by_mature_sweep(m, entry.1, false) ==> s.can_free(entry.0)
                &&& entry.1 ==> entry.0.sweepable(m)
            } by {
                assert(less[i] == blocks[i]);
            }
            assert forall|i: int, j: int| 0 <= i < j < less.len() implies (#[trigger] less[i]).0
                != (#[trigger] less[j]).0 by {
                assert(less[i] == blocks[i]);
                assert(less[j] == blocks[j]);
                assert(blocks[i].0 != blocks[j].0);
            }
        }
        law_mature_sweep_resets_listed_blocks(m, s, less, k);
        assert(block != last.0);
        lemma_other_index(m, block, last.0);
    }
}

/// Clearing the marks of a range of chunks clears every mark of a chunk of the range that belongs
/// to the space, and no other mark.
pub proof fn law_marks_of_the_range_are_cleared(
    work: ChunkMarkZeroing,
    m: MetadataView,
    s: ImmixSpaceView,
    cell: int,
)
    requires
        m.wf(),
        s.wf(m),
        work.chunks.wf(),
        0 <= cell < m.mark.len(),
    ensures
        ({
            let after = work.marks_cleared(m, s, work.chunks.count());
            let address = m.start + cell * MIN_OBJECT_SIZE;
            let inside = work.chunks.start.addr() <= address < work.chunks.end.addr()
                && s.chunk_map[m.chunk(address)];
            &&& after.len() == m.mark.len()
            &&& inside ==> after[cell] == 0
            &&& !inside ==> after[cell] == m.mark[cell]
        }),
{
    let address = m.start + cell * MIN_OBJECT_SIZE;
    let k = cell / CELLS_IN_CHUNK as int;
    assert(m.chunk(address) == k) by {
        assert(cell * MIN_OBJECT_SIZE / BYTES_IN_CHUNK as int == k);
    }
    let base = m.start + k * BYTES_IN_CHUNK;
    let lo = work.chunks.start.addr();
    let hi = work.chunks.end.addr();
    assert(lo + work.chunks.count() * BYTES_IN_CHUNK == hi);
    assert(base <= address < base + BYTES_IN_CHUNK);
    assert(base % BYTES_IN_CHUNK as int == 0);
    assert((lo <= base && base < hi) == (lo <= address && address < hi));
}

/// What a sweep of dead cycles may do: counts go away and no other appears, blocks are freed and
/// counted, each is handed to the page resource, and marks and epochs stay.
pub open spec fn thinned(a: BlockSweep, b: BlockSweep) -> bool {
    &&& b.m.wf()
    &&& b.m.start == a.m.start
    &&& b.m.chunks == a.m.chunks
    &&& b.m.mark == a.m.mark
    &&& b.m.block_epoch == a.m.block_epoch
    &&& b.m.global_phase_epoch == a.m.global_phase_epoch
    &&& b.s.mark_state == a.s.mark_state
    &&& b.s.chunk_map == a.s.chunk_map
    &&& forall|j: int|
        0 <= j < a.m.rc.len() ==> #[trigger] b.m.rc[j] == 0 || b.m.rc[j] == a.m.rc[j] && (j
            % CELLS_IN_LINE as int == 0 ==> b.m.straddle[j / CELLS_IN_LINE as int]
            == a.m.straddle[j / CELLS_IN_LINE as int])
    &&& forall|i: int|
        0 <= i < a.m.block_mark.len() ==> #[trigger] b.m.block_mark[i] == 0 || b.m.block_mark[i]
            == a.m.block_mark[i]
    &&& a.s.pr.pending.len() <= b.s.pr.pending.len()
    &&& forall|i: int|
        0 <= i < a.s.pr.pending.len() ==> #[trigger] b.s.pr.pending[i] == a.s.pr.pending[i]
    &&& b.freed - a.freed == b.s.pr.pending.len() - a.s.pr.pending.len()
    &&& forall|block: Block| #[trigger]
        block.valid(a.m) && a.m.block_mark[block.index(a.m)] != 0 && b.m.block_mark[block.index(
            a.m,
        )] == 0 ==> b.s.pr.pending.contains(ReleasedBlock { block, madvise: false })
}

/// One sweep after another.
proof fn lemma_thinned_chain(a: BlockSweep, b: BlockSweep, c: BlockSweep)
    requires
        a.m.wf(),
        thinned(a, b),
        thinned(b, c),
    ensures
        thinned(a, c),
{
    assert forall|j: int| 0 <= j < a.m.rc.len() implies #[trigger] c.m.rc[j] == 0 || c.m.rc[j]
        == a.m.rc[j] && (j % CELLS_IN_LINE as int == 0 ==> c.m.straddle[j / CELLS_IN_LINE as int]
        == a.m.straddle[j / CELLS_IN_LINE as int]) by {
        assert(b.m.rc[j] == 0 || b.m.rc[j] == a.m.rc[j]);
    }
    assert forall|i: int| 0 <= i < a.m.block_mark.len() implies #[trigger] c.m.block_mark[i] == 0
        || c.m.block_mark[i] == a.m.block_mark[i] by {
        assert(b.m.block_mark[i] == 0 || b.m.block_mark[i] == a.m.block_mark[i]);
    }
    assert forall|i: int| 0 <= i < a.s.pr.pending.len() implies #[trigger] c.s.pr.pending[i]
        == a.s.pr.pending[i] by {
        assert(b.s.pr.pending[i] == a.s.pr.pending[i]);
    }
    assert forall|block: Block| #[trigger]
        block.valid(a.m) && a.m.block_mark[block.index(a.m)] != 0 && c.m.block_mark[block.index(
            a.m,
        )] == 0 implies c.s.pr.pending.contains(ReleasedBlock { block, madvise: false }) by {
        lemma_block_positions(a.m, block);
        assert(block.valid(b.m));
        let r = ReleasedBlock { block, madvise: false };
        if b.m.block_mark[block.index(a.m)] == 0 {
            let k = choose|k: int| 0 <= k < b.s.pr.pending.len() && b.s.pr.pending[k] == r;
            assert(c.s.pr.pending[k] == r);
        } else {
            assert(block.index(b.m) == block.index(a.m));
        }
    }
}

/// The cells `lo..hi`.
proof fn lemma_cells_thin(
    m: MetadataView,
    mark_state: u8,
    objects: ObjectModel,
    lo: int,
    hi: int,
    j: int,
)
    requires
        m.wf(),
        objects.fits(m),
        0 <= lo <= hi <= m.rc.len(),
        0 <= j < m.rc.len(),
    ensures
        ({
            let after = SweepDeadCycles::cells_swept(m, mark_state, objects, lo, hi).m;
            after.rc[j] == 0 || after.rc[j] == m.rc[j] && (j % CELLS_IN_LINE as int == 0
                ==> after.straddle[j / CELLS_IN_LINE as int] == m.straddle[j
                / CELLS_IN_LINE as int])
        }),
    decreases hi - lo,
{
    if lo < hi {
        lemma_cells_thin(m, mark_state, objects, lo, hi - 1, j);
        SweepDeadCycles::lemma_cells_swept(m, mark_state, objects, lo, hi - 1);
    }
}

/// One block.
proof fn lemma_block_thins(before: BlockSweep, objects: ObjectModel, block: Block)
    requires
        before.m.wf(),
        objects.fits(before.m),
        block.valid(before.m),
    ensures
        thinned(before, SweepDeadCycles::block_swept(before, objects, block)),
{
    reveal(SweepDeadCycles::block_swept);
    lemma_block_positions(before.m, block);
    let lo = block.first_cell(before.m);
    let hi = block.end_cell(before.m);
    SweepDeadCycles::lemma_cells_swept(before.m, before.s.mark_state, objects, lo, hi);
    let after = SweepDeadCycles::block_swept(before, objects, block);
    assert forall|j: int| 0 <= j < before.m.rc.len() implies #[trigger] after.m.rc[j] == 0
        || after.m.rc[j] == before.m.rc[j] && (j % CELLS_IN_LINE as int == 0 ==> after.m.straddle[j
        / CELLS_IN_LINE as int] == before.m.straddle[j / CELLS_IN_LINE as int]) by {
        lemma_cells_thin(before.m, before.s.mark_state, objects, lo, hi, j);
    }
    assert forall|other: Block| #[trigger]
        other.valid(before.m) && before.m.block_mark[other.index(before.m)] != 0
            && after.m.block_mark[other.index(
            before.m,
        )] == 0 implies after.s.pr.pending.contains(
        ReleasedBlock { block: other, madvise: false },
    ) by {
        if other != block {
            lemma_other_index(before.m, other, block);
        }
        assert(after.s.pr.pending.last() == (ReleasedBlock { block: other, madvise: false }));
    }
}

/// The blocks `from..n` of a chunk.
proof fn lemma_blocks_thin(
    before: BlockSweep,
    objects: ObjectModel,
    chunk: Chunk,
    from: int,
    n: int,
)
    requires
        before.m.wf(),
        objects.fits(before.m),
        chunk.valid(before.m),
        0 <= from <= n <= BLOCKS_IN_CHUNK,
    ensures
        SweepDeadCycles::blocks_swept(before, objects, chunk, from).m.wf(),
        thinned(before, SweepDeadCycles::blocks_swept(before, objects, chunk, from)),
        thinned(
            SweepDeadCycles::blocks_swept(before, objects, chunk, from),
            SweepDeadCycles::blocks_swept(before, objects, chunk, n),
        ),
    decreases n,
{
    chunk.lemma_positions(before.m);
    let first = SweepDeadCycles::blocks_swept(before, objects, chunk, from);
    if from > 0 {
        lemma_blocks_thin(before, objects, chunk, 0, from - 1);
        let less = SweepDeadCycles::blocks_swept(before, objects, chunk, from - 1);
        assert(objects.fits(less.m));
        assert(chunk.block_at(from - 1).valid(less.m));
        lemma_block_thins(less, objects, chunk.block_at(from - 1));
        lemma_thinned_chain(before, less, first);
    }
    if n > from {
        lemma_blocks_thin(before, objects, chunk, from, n - 1);
        let less = SweepDeadCycles::blocks_swept(before, objects, chunk, n - 1);
        assert(objects.fits(less.m));
        assert(chunk.block_at(n - 1).valid(less.m));
        lemma_block_thins(less, objects, chunk.block_at(n - 1));
        lemma_thinned_chain(first, less, SweepDeadCycles::blocks_swept(before, objects, chunk, n));
    }
}

/// The chunk at a position of a range.
proof fn lemma_range_position(chunks: ChunkRange, i: int)
    requires
        chunks.wf(),
        0 <= i < chunks.count(),
    ensures
        chunks.at(i).addr() == chunks.start.addr() + i * BYTES_IN_CHUNK,
        chunks.at(i).addr() % BYTES_IN_CHUNK as int == 0,
        chunks.at(i).addr() + BYTES_IN_CHUNK <= chunks.end.addr(),
{
    let n = chunks.count();
    assert(chunks.start.addr() + n * BYTES_IN_CHUNK == chunks.end.addr());
    assert((i + 1) * BYTES_IN_CHUNK <= n * BYTES_IN_CHUNK) by (nonlinear_arith)
        requires
            i + 1 <= n,
    ;
    assert((chunks.start.addr() + i * BYTES_IN_CHUNK) % BYTES_IN_CHUNK as int == 0);
}

/// The first `n` chunks of a range: what the sweep has done, and what it has not come to.
proof fn lemma_chunks_swept(start: BlockSweep, objects: ObjectModel, chunks: ChunkRange, n: int)
    requires
        start.m.wf(),
        objects.fits(start.m),
        chunks.wf(),
        0 <= n <= chunks.count(),
        start.freed == 0,
    ensures
        thinned(start, SweepDeadCycles::chunks_swept(start, objects, chunks, n)),
        SweepDeadCycles::untouched_from(
            start,
            SweepDeadCycles::chunks_swept(start, objects, chunks, n),
            chunks.start.addr() + n * BYTES_IN_CHUNK,
        ),
    decreases n,
{
    if n > 0 {
        lemma_chunks_swept(start, objects, chunks, n - 1);
        lemma_range_position(chunks, n - 1);
        let rest = SweepDeadCycles::chunks_swept(start, objects, chunks, n - 1);
        let chunk = chunks.at(n - 1);
        if in_space(rest.m, rest.s, chunk) {
            assert(chunk.valid(start.m));
            assert(chunk.valid(rest.m));
            assert(objects.fits(rest.m));
            SweepDeadCycles::lemma_blocks_swept(start, rest, objects, chunk, BLOCKS_IN_CHUNK as int);
            lemma_blocks_thin(rest, objects, chunk, 0, BLOCKS_IN_CHUNK as int);
            lemma_thinned_chain(
                start,
                rest,
                SweepDeadCycles::chunks_swept(start, objects, chunks, n),
            );
        }
    }
}

/// The chunks `from..n` of a range.
proof fn lemma_chunks_thin(
    start: BlockSweep,
    objects: ObjectModel,
    chunks: ChunkRange,
    from: int,
    n: int,
)
    requires
        start.m.wf(),
        objects.fits(start.m),
        chunks.wf(),
        0 <= from <= n <= chunks.count(),
        start.freed == 0,
    ensures
        thinned(
            SweepDeadCycles::chunks_swept(start, objects, chunks, from),
            SweepDeadCycles::chunks_swept(start, objects, chunks, n),
        ),
    decreases n - from,
{
    lemma_chunks_swept(start, objects, chunks, from);
    if n > from {
        lemma_chunks_thin(start, objects, chunks, from, n - 1);
        lemma_chunks_swept(start, objects, chunks, n - 1);
        lemma_range_position(chunks, n - 1);
        let first = SweepDeadCycles::chunks_swept(start, objects, chunks, from);
        let rest = SweepDeadCycles::chunks_swept(start, objects, chunks, n - 1);
        let chunk = chunks.at(n - 1);
        if in_space(rest.m, rest.s, chunk) {
            assert(chunk.valid(rest.m));
            assert(objects.fits(rest.m));
            lemma_blocks_thin(rest, objects, chunk, 0, BLOCKS_IN_CHUNK as int);
            lemma_thinned_chain(
                first,
                rest,
                SweepDeadCycles::chunks_swept(start, objects, chunks, n),
            );
        }
    }
}

/// A block of a chunk of the range: what the sweep was before it came to the block, and that the
/// whole sweep went on from there.
proof fn lemma_block_comes_up(
    start: BlockSweep,
    objects: ObjectModel,
    chunks: ChunkRange,
    i: int,
    b: int,
) -> (before: BlockSweep)
    requires
        start.m.wf(),
        objects.fits(start.m),
        chunks.wf(),
        0 <= i < chunks.count(),
        0 <= b < BLOCKS_IN_CHUNK,
        start.freed == 0,
        in_space(start.m, start.s, chunks.at(i)),
    ensures
        chunks.at(i).block_at(b).valid(start.m),
        thinned(start, before),
        chunks.at(i).block_at(b).state(before.m) == chunks.at(i).block_at(b).state(start.m),
        thinned(
            SweepDeadCycles::block_swept(before, objects, chunks.at(i).block_at(b)),
            SweepDeadCycles::chunks_swept(start, objects, chunks, chunks.count()),
        ),
        SweepDeadCycles::block_swept(before, objects, chunks.at(i).block_at(b)).m.wf(),
{
    let chunk = chunks.at(i);
    let block = chunk.block_at(b);
    lemma_range_position(chunks, i);
    lemma_chunks_swept(start, objects, chunks, i);
    let rest = SweepDeadCycles::chunks_swept(start, objects, chunks, i);
    assert(chunk.valid(start.m));
    assert(chunk.valid(rest.m));
    assert(objects.fits(rest.m));
    assert(in_space(rest.m, rest.s, chunk));
    chunk.lemma_positions(start.m);
    SweepDeadCycles::lemma_blocks_swept(start, rest, objects, chunk, b);
    lemma_blocks_thin(rest, objects, chunk, b, b);
    lemma_blocks_thin(rest, objects, chunk, b + 1, BLOCKS_IN_CHUNK as int);
    let before = SweepDeadCycles::blocks_swept(rest, objects, chunk, b);
    let next = SweepDeadCycles::blocks_swept(rest, objects, chunk, b + 1);
    let done = SweepDeadCycles::chunks_swept(start, objects, chunks, i + 1);
    assert(block.addr() >= chunk.addr() + b * BYTES_IN_BLOCK);
    assert(block.valid(start.m));
    lemma_thinned_chain(start, rest, before);
    assert(next == SweepDeadCycles::block_swept(before, objects, block));
    assert(done == SweepDeadCycles::blocks_swept(rest, objects, chunk, BLOCKS_IN_CHUNK as int));
    lemma_chunks_thin(start, objects, chunks, i + 1, chunks.count());
    lemma_thinned_chain(
        next,
        done,
        SweepDeadCycles::chunks_swept(start, objects, chunks, chunks.count()),
    );
    before
}

/// The sweep of dead cycles comes to every block of every chunk of the range that belongs to the
/// space: what was not marked there has no count afterwards, but for the marks of lines that
/// objects cover.
pub proof fn law_cycle_sweep_covers_every_chunk(
    start: BlockSweep,
    objects: ObjectModel,
    chunks: ChunkRange,
    i: int,
    b: int,
    j: int,
)
    requires
        start.m.wf(),
        objects.fits(start.m),
        chunks.wf(),
        start.freed == 0,
        0 <= i < chunks.count(),
        in_space(start.m, start.s, chunks.at(i)),
        0 <= b < BLOCKS_IN_CHUNK,
        start.m.block_mark[chunks.at(i).block_at(b).index(start.m)] != 0,
        chunks.at(i).block_at(b).index(start.m) * CELLS_IN_BLOCK <= j < (chunks.at(i).block_at(
            b,
        ).index(start.m) + 1) * CELLS_IN_BLOCK,
        start.m.mark[j] != start.s.mark_state,
    ensures
        ({
            let after = SweepDeadCycles::chunks_swept(start, objects, chunks, chunks.count()).m;
            after.rc[j] == 0 || after.rc[j] == 1 && j % CELLS_IN_LINE as int == 0
                && after.straddle[j / CELLS_IN_LINE as int] != 0
        }),
{
    let block = chunks.at(i).block_at(b);
    let before = lemma_block_comes_up(start, objects, chunks, i, b);
    lemma_block_positions(start.m, block);
    assert(block.valid(before.m));
    assert(objects.fits(before.m));
    SweepDeadCycles::law_cycle_sweep_reclaims_unmarked_objects(before, objects, block, j);
    let next = SweepDeadCycles::block_swept(before, objects, block);
    let after = SweepDeadCycles::chunks_swept(start, objects, chunks, chunks.count());
    lemma_block_thins(before, objects, block);
    assert(0 <= j < next.m.rc.len());
    assert(after.m.rc[j] == 0 || after.m.rc[j] == next.m.rc[j]);
}

/// The sweep of dead cycles frees every block of the range in which nothing was marked, unless a
/// mutator took it in this phase, and hands it to the page resource. The number of freed blocks is
/// the number of blocks handed over.
pub proof fn law_cycle_sweep_frees_every_dead_block(
    start: BlockSweep,
    objects: ObjectModel,
    chunks: ChunkRange,
    i: int,
    b: int,
)
    requires
        start.m.wf(),
        objects.fits(start.m),
        chunks.wf(),
        start.freed == 0,
        0 <= i < chunks.count(),
        in_space(start.m, start.s, chunks.at(i)),
        0 <= b < BLOCKS_IN_CHUNK,
        ({
            let k = chunks.at(i).block_at(b).index(start.m);
            &&& start.m.block_mark[k] != 0
            &&& start.m.global_phase_epoch % 2 == 0 || start.m.block_epoch[k]
                != start.m.global_phase_epoch
            &&& forall|j: int|
                k * CELLS_IN_BLOCK <= j < (k + 1) * CELLS_IN_BLOCK && start.m.mark[j]
                    == start.s.mark_state ==> #[trigger] start.m.rc[j] == 0
        }),
    ensures
        ({
            let after = SweepDeadCycles::chunks_swept(start, objects, chunks, chunks.count());
            let block = chunks.at(i).block_at(b);
            &&& after.m.block_mark[block.index(start.m)] == 0
            &&& after.s.pr.pending.contains(ReleasedBlock { block, madvise: false })
            &&& after.freed == after.s.pr.pending.len() - start.s.pr.pending.len()
        }),
{
    let block = chunks.at(i).block_at(b);
    let before = lemma_block_comes_up(start, objects, chunks, i, b);
    let after = SweepDeadCycles::chunks_swept(start, objects, chunks, chunks.count());
    lemma_block_positions(start.m, block);
    assert(block.valid(before.m));
    assert(objects.fits(before.m));
    assert(block.index(before.m) == block.index(start.m));
    reveal(SweepDeadCycles::block_swept);
    let lo = block.first_cell(before.m);
    let hi = block.end_cell(before.m);
    SweepDeadCycles::lemma_cells_swept(before.m, before.s.mark_state, objects, lo, hi);
    let cells = SweepDeadCycles::cells_swept(before.m, before.s.mark_state, objects, lo, hi);
    assert(!cells.live) by {
        if cells.live {
            let j = choose|j: int|
                lo <= j < hi && before.m.mark[j] == before.s.mark_state && #[trigger] cells.m.rc[j]
                    != 0;
            lemma_cells_thin(before.m, before.s.mark_state, objects, lo, hi, j);
            assert(before.m.rc[j] != 0);
            assert(start.m.rc[j] == 0);
        }
    }
    let next = SweepDeadCycles::block_swept(before, objects, block);
    assert(next.m.block_mark[block.index(start.m)] == 0);
    assert(after.m.block_mark[block.index(start.m)] == 0);
    lemma_chunks_swept(start, objects, chunks, chunks.count());
    assert(block.valid(start.m));
}

/// What one block of a sweep does to a marked object somewhere in the heap, and to its block.
proof fn lemma_block_spares(
    before: BlockSweep,
    objects: ObjectModel,
    block: Block,
    own: Block,
    j: int,
)
    requires
        before.m.wf(),
        objects.fits(before.m),
        block.valid(before.m),
        own.valid(before.m),
        own.first_cell(before.m) <= j < own.end_cell(before.m),
        before.m.mark[j] == before.s.mark_state,
        before.m.rc[j] != 0,
        SweepDeadCycles::starts_clear(before.m, objects, 0, j),
    ensures
        SweepDeadCycles::block_swept(before, objects, block).m.rc[j] == before.m.rc[j],
        SweepDeadCycles::block_swept(before, objects, block).m.block_mark[own.index(before.m)]
            == before.m.block_mark[own.index(before.m)],
{
    reveal(SweepDeadCycles::block_swept);
    lemma_block_positions(before.m, block);
    lemma_block_positions(before.m, own);
    let lo = block.first_cell(before.m);
    let hi = block.end_cell(before.m);
    SweepDeadCycles::lemma_cells_swept(before.m, before.s.mark_state, objects, lo, hi);
    let cells = SweepDeadCycles::cells_swept(before.m, before.s.mark_state, objects, lo, hi);
    assert(SweepDeadCycles::starts_clear(before.m, objects, lo, j));
    if lo <= j {
        SweepDeadCycles::lemma_count_kept(before.m, before.s.mark_state, objects, lo, hi, j);
    } else {
        assert(cells.m.rc[j] == before.m.rc[j]);
    }
    if own == block {
        assert(cells.live);
    } else {
        lemma_other_index(before.m, own, block);
    }
}

/// The blocks of a chunk, and a marked object.
proof fn lemma_blocks_spare(
    before: BlockSweep,
    objects: ObjectModel,
    chunk: Chunk,
    n: int,
    own: Block,
    j: int,
)
    requires
        before.m.wf(),
        objects.fits(before.m),
        chunk.valid(before.m),
        0 <= n <= BLOCKS_IN_CHUNK,
        own.valid(before.m),
        own.first_cell(before.m) <= j < own.end_cell(before.m),
        before.m.mark[j] == before.s.mark_state,
        before.m.rc[j] != 0,
        SweepDeadCycles::starts_clear(before.m, objects, 0, j),
    ensures
        SweepDeadCycles::blocks_swept(before, objects, chunk, n).m.rc[j] == before.m.rc[j],
        SweepDeadCycles::blocks_swept(before, objects, chunk, n).m.block_mark[own.index(before.m)]
            == before.m.block_mark[own.index(before.m)],
    decreases n,
{
    if n > 0 {
        lemma_blocks_spare(before, objects, chunk, n - 1, own, j);
        chunk.lemma_positions(before.m);
        lemma_blocks_thin(before, objects, chunk, 0, n - 1);
        let less = SweepDeadCycles::blocks_swept(before, objects, chunk, n - 1);
        let block = chunk.block_at(n - 1);
        assert(block.valid(less.m));
        assert(own.valid(less.m));
        assert(objects.fits(less.m));
        assert(SweepDeadCycles::starts_clear(less.m, objects, 0, j));
        lemma_block_spares(less, objects, block, own, j);
    }
}

/// The sweep of dead cycles keeps what the trace has reached, in every chunk: a marked object into
/// which no earlier object reaches keeps its count, and its block keeps its state.
pub proof fn law_cycle_sweep_spares_every_marked_object(
    start: BlockSweep,
    objects: ObjectModel,
    chunks: ChunkRange,
    n: int,
    own: Block,
    j: int,
)
    requires
        start.m.wf(),
        objects.fits(start.m),
        chunks.wf(),
        start.freed == 0,
        0 <= n <= chunks.count(),
        own.valid(start.m),
        own.first_cell(start.m) <= j < own.end_cell(start.m),
        start.m.mark[j] == start.s.mark_state,
        start.m.rc[j] != 0,
        SweepDeadCycles::starts_clear(start.m, objects, 0, j),
    ensures
        ({
            let after = SweepDeadCycles::chunks_swept(start, objects, chunks, n).m;
            &&& after.rc[j] == start.m.rc[j]
            &&& after.block_mark[own.index(start.m)] == start.m.block_mark[own.index(start.m)]
        }),
    decreases n,
{
    if n > 0 {
        law_cycle_sweep_spares_every_marked_object(start, objects, chunks, n - 1, own, j);
        lemma_chunks_swept(start, objects, chunks, n - 1);
        lemma_range_position(chunks, n - 1);
        let rest = SweepDeadCycles::chunks_swept(start, objects, chunks, n - 1);
        let chunk = chunks.at(n - 1);
        if in_space(rest.m, rest.s, chunk) {
            assert(chunk.valid(rest.m));
            assert(own.valid(rest.m));
            assert(objects.fits(rest.m));
            assert(SweepDeadCycles::starts_clear(rest.m, objects, 0, j));
            lemma_blocks_spare(rest, objects, chunk, BLOCKS_IN_CHUNK as int, own, j);
        }
    }
}

} // verus!
