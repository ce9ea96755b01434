//! How the Immix space hands out blocks and lines.

use crate::args::Environment;
use crate::policy::immix::block::{lemma_block_positions, Block, BlockState, ReusablePoolView};
use crate::policy::immix::block_allocation::BlockAllocationView;
use crate::policy::immix::immixspace::{ImmixSpace, ImmixSpaceView};
use crate::policy::immix::line::{first_line, last_line, Line};
use crate::util::address::Address;
use crate::util::constants::{BYTES_IN_BLOCK, BYTES_IN_LINE, CELLS_IN_BLOCK, LINES_IN_BLOCK};
use crate::util::heap::page_resource::ReleasedBlock;
use crate::util::metadata::{HeapMetadata, MetadataView};
use crate::util::side_metadata::filled;
use vstd::prelude::*;

verus! {

/// The blocks of the nursery are not freed.
pub open spec fn nursery_sweep_off(env: Environment) -> bool {
    env.has("MMTK_RC_NO_NURSERY_SWEEP"@) || env.has("MMTK_RC_NO_FREE"@)
}

/// Which clean block comes out of a list of reusable ones, and what stays in the list: blocks are
/// taken from the end, and for copies those that are being emptied are skipped.
pub open spec fn reusable_pick(m: MetadataView, shared: Seq<Block>, copy: bool) -> (
    Option<Block>,
    Seq<Block>,
)
    decreases shared.len(),
{
    if shared.len() == 0 {
        (None, shared)
    } else if copy && shared.last().defrag_source(m) {
        reusable_pick(m, shared.drop_last(), copy)
    } else {
        (Some(shared.last()), shared.drop_last())
    }
}

/// How many lines of a reusable block are free.
pub open spec fn free_lines(m: MetadataView, block: Block) -> int {
    match block.state(m) {
        BlockState::Reusable { unavailable_lines } => LINES_IN_BLOCK - unavailable_lines,
        _ => LINES_IN_BLOCK as int,
    }
}

/// The block can be reused: it lies in the heap, and it is partly free or unmarked.
pub open spec fn can_be_reused(m: MetadataView, block: Block) -> bool {
    &&& block.valid(m)
    &&& match block.state(m) {
        BlockState::Reusable { unavailable_lines } => unavailable_lines <= LINES_IN_BLOCK,
        BlockState::Unmarked => true,
        _ => false,
    }
}

/// What comes out of a list is an element of it, and so is what stays.
pub proof fn lemma_reusable_pick(m: MetadataView, shared: Seq<Block>, copy: bool)
    ensures
        ({
            let (block, rest) = reusable_pick(m, shared, copy);
            &&& rest.len() <= shared.len()
            &&& rest =~= shared.subrange(0, rest.len() as int)
            &&& block matches Some(b) ==> rest.len() < shared.len() && b == shared[rest.len() as int]
                && !(copy && b.defrag_source(m))
            &&& block is None ==> rest.len() == 0 && forall|i: int|
                0 <= i < shared.len() ==> copy && (#[trigger] shared[i]).defrag_source(m)
        }),
    decreases shared.len(),
{
    if shared.len() > 0 && copy && shared.last().defrag_source(m) {
        let less = shared.drop_last();
        lemma_reusable_pick(m, less, copy);
        let (block, rest) = reusable_pick(m, shared, copy);
        assert(rest =~= shared.subrange(0, rest.len() as int));
        if block is None {
            assert forall|i: int| 0 <= i < shared.len() implies copy && (
            #[trigger] shared[i]).defrag_source(m) by {
                if i < less.len() {
                    assert(less[i] == shared[i]);
                }
            }
        }
    }
}

/// The line at position `i` of the line marks is free: it carries neither the mark of the
/// current collection nor that of the previous one.
pub open spec fn line_available(m: MetadataView, s: ImmixSpaceView, i: int) -> bool {
    m.line_mark[i] != s.line_unavail_state && m.line_mark[i] != s.line_mark_state
}

/// The tables after a block was handed out clean in a space that counts references.
pub open spec fn clean_block_initialized(
    m: MetadataView,
    rc_enabled: bool,
    block: Block,
    copy: bool,
    cm_enabled: bool,
) -> MetadataView {
    block.initialized_rc(
        MetadataView {
            mark: filled(
                m.mark,
                block.first_cell(m),
                block.end_cell(m),
                if cm_enabled {
                    1
                } else {
                    0
                },
            ),
            field_unlog: filled(m.field_unlog, block.first_cell(m), block.end_cell(m), 0),
            ..m
        },
        rc_enabled,
        copy,
        false,
    )
}

/// What the sweep of the nursery has come to.
#[verifier::ext_equal]
pub ghost struct NurserySweep {
    /// The tables.
    pub m: MetadataView,
    /// The space.
    pub s: ImmixSpaceView,
    /// How many blocks were freed.
    pub freed: int,
}

/// The sweep of the nursery after the given blocks: a block is freed iff it was never promoted,
/// so that it is still unallocated, and all its counts are zero.
pub open spec fn nursery_swept(m: MetadataView, s: ImmixSpaceView, blocks: Seq<Block>) -> NurserySweep
    decreases blocks.len(),
{
    if blocks.len() == 0 {
        NurserySweep { m, s, freed: 0 }
    } else {
        let before = nursery_swept(m, s, blocks.drop_last());
        let block = blocks.last();
        if block.state(before.m) == BlockState::Unallocated && block.all_counts_zero(before.m) {
            NurserySweep {
                m: block.deinitialized_rc(before.m, s.rc_enabled),
                s: before.s.with_freed(block, s.madvise_freed_this_gc),
                freed: before.freed + 1,
            }
        } else {
            before
        }
    }
}

/// What the sweep of the nursery keeps.
proof fn lemma_nursery_swept(m: MetadataView, s: ImmixSpaceView, blocks: Seq<Block>)
    requires
        m.wf(),
        forall|i: int| 0 <= i < blocks.len() ==> (#[trigger] blocks[i]).valid(m),
    ensures
        ({
            let sweep = nursery_swept(m, s, blocks);
            &&& sweep.m.wf()
            &&& sweep.m.start == m.start
            &&& sweep.m.chunks == m.chunks
            &&& sweep.m.rc == m.rc
            &&& sweep.s == (ImmixSpaceView {
                pr: sweep.s.pr,
                free_blocks: sweep.s.free_blocks,
                ..s
            })
            &&& 0 <= sweep.freed <= blocks.len()
            &&& forall|a: usize| #[trigger]
                sweep.s.free_blocks.contains(a) ==> s.free_blocks.contains(a) || exists|i: int|
                    0 <= i < blocks.len() && (#[trigger] blocks[i]).0.0 == a
        }),
    decreases blocks.len(),
{
    if blocks.len() > 0 {
        let less = blocks.drop_last();
        assert forall|i: int| 0 <= i < less.len() implies (#[trigger] less[i]).valid(m) by {
            assert(less[i] == blocks[i]);
        }
        lemma_nursery_swept(m, s, less);
        let before = nursery_swept(m, s, less);
        let sweep = nursery_swept(m, s, blocks);
        let block = blocks.last();
        assert(block == blocks[blocks.len() - 1]);
        lemma_block_positions(before.m, block);
        assert forall|a: usize| #[trigger]
            sweep.s.free_blocks.contains(a) implies s.free_blocks.contains(a) || exists|i: int|
            0 <= i < blocks.len() && (#[trigger] blocks[i]).0.0 == a by {
            if before.s.free_blocks.contains(a) {
                if !s.free_blocks.contains(a) {
                    let i = choose|i: int| 0 <= i < less.len() && (#[trigger] less[i]).0.0 == a;
                    assert(blocks[i].0.0 == a);
                }
            } else {
                assert(blocks[blocks.len() - 1].0.0 == a);
            }
        }
    }
}

/// The sweep of the nursery frees no block in which an object has a count.
pub proof fn law_nursery_sweep_spares_counted_objects(
    m: MetadataView,
    s: ImmixSpaceView,
    blocks: Seq<Block>,
    i: int,
    cell: int,
)
    requires
        m.wf(),
        forall|j: int| 0 <= j < blocks.len() ==> (#[trigger] blocks[j]).valid(m),
        0 <= i < blocks.len(),
        blocks[i].first_cell(m) <= cell < blocks[i].end_cell(m),
        m.rc[cell] != 0,
    ensures
        nursery_swept(m, s, blocks.subrange(0, i + 1)) == nursery_swept(
            m,
            s,
            blocks.subrange(0, i),
        ),
{
    let done = blocks.subrange(0, i);
    let next = blocks.subrange(0, i + 1);
    assert forall|j: int| 0 <= j < done.len() implies (#[trigger] done[j]).valid(m) by {
        assert(done[j] == blocks[j]);
    }
    lemma_nursery_swept(m, s, done);
    assert(next.drop_last() =~= done);
    assert(next.last() == blocks[i]);
    let before = nursery_swept(m, s, done);
    assert(before.m.rc[cell] != 0);
    assert(!blocks[i].all_counts_zero(before.m));
}

/// A nursery block in which no object was promoted: the byte of its state is zero, and so is every
/// count in it.
pub open spec fn never_promoted(m: MetadataView) -> spec_fn(Block) -> bool {
    |block: Block|
        m.block_mark[block.index(m)] == 0 && forall|cell: int|
            block.index(m) * CELLS_IN_BLOCK <= cell < (block.index(m) + 1) * CELLS_IN_BLOCK
                ==> #[trigger] m.rc[cell] == 0
}

/// Blocks on their way back, with the given fate of their pages.
pub open spec fn released(blocks: Seq<Block>, madvise: bool) -> Seq<ReleasedBlock> {
    blocks.map_values(|block: Block| ReleasedBlock { block, madvise })
}

/// The sweep of the nursery frees every recorded block in which no object was promoted, in order,
/// and no other: the page resource gets exactly these, as many as are counted.
pub proof fn law_nursery_sweep_frees_all_dead_blocks(
    m: MetadataView,
    s: ImmixSpaceView,
    blocks: Seq<Block>,
)
    requires
        m.wf(),
        forall|i: int| 0 <= i < blocks.len() ==> (#[trigger] blocks[i]).valid(m),
        blocks.no_duplicates(),
    ensures
        ({
            let sweep = nursery_swept(m, s, blocks);
            let dead = blocks.filter(never_promoted(m));
            &&& sweep.freed == dead.len()
            &&& sweep.s.pr.pending == s.pr.pending + released(dead, s.madvise_freed_this_gc)
            &&& sweep.s.pr.free == s.pr.free
            &&& forall|b: Block|
                blocks.contains(b) && never_promoted(m)(b) ==> #[trigger] dead.contains(b)
            &&& s.track_frees ==> forall|b: Block| #[trigger]
                dead.contains(b) ==> sweep.s.free_blocks.contains(b.0.0)
        }),
    decreases blocks.len(),
{
    reveal(Seq::filter);
    let is_dead = never_promoted(m);
    let dead = blocks.filter(is_dead);
    if blocks.len() > 0 {
        let less = blocks.drop_last();
        let block = blocks.last();
        assert forall|i: int| 0 <= i < less.len() implies (#[trigger] less[i]).valid(m) by {
            assert(less[i] == blocks[i]);
        }
        assert(less.no_duplicates()) by {
            assert forall|i: int, j: int| 0 <= i < j < less.len() implies less[i] != less[j] by {
                assert(blocks[i] != blocks[j]);
            }
        }
        law_nursery_sweep_frees_all_dead_blocks(m, s, less);
        lemma_nursery_swept(m, s, less);
        let before = nursery_swept(m, s, less);
        assert(block == blocks[blocks.len() - 1]);
        lemma_block_positions(m, block);
        assert forall|i: int| 0 <= i < less.len() implies #[trigger] less[i] != block by {
            assert(blocks[i] != blocks[blocks.len() - 1]);
        }
        lemma_nursery_sweep_spares_others(m, s, less, block);
        assert(block.all_counts_zero(before.m) == forall|cell: int|
            block.index(m) * CELLS_IN_BLOCK <= cell < (block.index(m) + 1) * CELLS_IN_BLOCK
                ==> #[trigger] m.rc[cell] == 0) by {
            assert(block.first_cell(before.m) == block.index(m) * CELLS_IN_BLOCK);
            assert(block.end_cell(before.m) == (block.index(m) + 1) * CELLS_IN_BLOCK);
        }
        assert((block.state(before.m) == BlockState::Unallocated && block.all_counts_zero(
            before.m,
        )) == is_dead(block));
        let dead_before = less.filter(is_dead);
        if is_dead(block) {
            assert(dead == dead_before.push(block));
            assert(released(dead, s.madvise_freed_this_gc) =~= released(
                dead_before,
                s.madvise_freed_this_gc,
            ).push(ReleasedBlock { block, madvise: s.madvise_freed_this_gc }));
            assert(dead[dead.len() - 1] == block);
            assert forall|b: Block| #[trigger] dead.contains(b) implies b == block
                || dead_before.contains(b) by {
                let k = choose|k: int| 0 <= k < dead.len() && dead[k] == b;
                if k < dead_before.len() {
                    assert(dead_before[k] == b);
                }
            }
            assert forall|b: Block| dead_before.contains(b) implies dead.contains(b) by {
                let k = choose|k: int| 0 <= k < dead_before.len() && dead_before[k] == b;
                assert(dead[k] == b);
            }
        }
        assert forall|b: Block| blocks.contains(b) && is_dead(b) implies #[trigger] dead.contains(
            b,
        ) by {
            let k = choose|k: int| 0 <= k < blocks.len() && blocks[k] == b;
            if k < less.len() {
                assert(less[k] == b);
                assert(less.contains(b));
                assert(dead_before.contains(b));
            }
        }
    } else {
        assert(released(dead, s.madvise_freed_this_gc) =~= Seq::empty());
    }
    assert(nursery_swept(m, s, blocks).s.pr.pending =~= s.pr.pending + released(
        dead,
        s.madvise_freed_this_gc,
    ));
}

/// The sweep of some nursery blocks leaves the entries of any other block as they are.
proof fn lemma_nursery_sweep_spares_others(
    m: MetadataView,
    s: ImmixSpaceView,
    blocks: Seq<Block>,
    other: Block,
)
    requires
        m.wf(),
        forall|i: int| 0 <= i < blocks.len() ==> (#[trigger] blocks[i]).valid(m),
        forall|i: int| 0 <= i < blocks.len() ==> #[trigger] blocks[i] != other,
        other.valid(m),
    ensures
        ({
            let after = nursery_swept(m, s, blocks).m;
            let i = other.index(m);
            &&& after.block_mark[i] == m.block_mark[i]
            &&& after.block_defrag[i] == m.block_defrag[i]
            &&& after.block_promoted[i] == m.block_promoted[i]
            &&& after.block_log[i] == m.block_log[i]
        }),
    decreases blocks.len(),
{
    if blocks.len() > 0 {
        let less = blocks.drop_last();
        let block = blocks.last();
        assert forall|i: int| 0 <= i < less.len() implies (#[trigger] less[i]).valid(m) && less[i]
            != other by {
            assert(less[i] == blocks[i]);
        }
        lemma_nursery_sweep_spares_others(m, s, less, other);
        lemma_nursery_swept(m, s, less);
        assert(block == blocks[blocks.len() - 1]);
        lemma_block_positions(m, block);
        lemma_block_positions(m, other);
        assert(block.index(m) != other.index(m)) by {
            if block.index(m) == other.index(m) {
                assert(block.addr() == other.addr());
                assert(block == other);
            }
        }
    }
}

/// A block that the sweep of the nursery frees starts its next life without a state, without a
/// promotion, and with no sweep waiting for it. Every block that is spared keeps its entries, and
/// no count, line or object mark changes.
pub proof fn law_nursery_sweep_resets_freed_blocks(
    m: MetadataView,
    s: ImmixSpaceView,
    blocks: Seq<Block>,
    block: Block,
)
    requires
        m.wf(),
        forall|i: int| 0 <= i < blocks.len() ==> (#[trigger] blocks[i]).valid(m),
        blocks.no_duplicates(),
        block.valid(m),
        s.rc_enabled,
    ensures
        ({
            let after = nursery_swept(m, s, blocks).m;
            let i = block.index(m);
            &&& blocks.contains(block) && never_promoted(m)(block) ==> after.block_mark[i] == 0
                && after.block_promoted[i] == 0 && after.block_defrag[i] == 0
                && after.block_log[i] == 0
            &&& !blocks.contains(block) || !never_promoted(m)(block) ==> after.block_mark[i]
                == m.block_mark[i] && after.block_promoted[i] == m.block_promoted[i]
                && after.block_defrag[i] == m.block_defrag[i] && after.block_log[i]
                == m.block_log[i]
            &&& after == (MetadataView {
                block_mark: after.block_mark,
                block_promoted: after.block_promoted,
                block_defrag: after.block_defrag,
                block_log: after.block_log,
                ..m
            })
        }),
    decreases blocks.len(),
{
    if blocks.len() > 0 {
        let less = blocks.drop_last();
        let last = blocks.last();
        assert forall|i: int| 0 <= i < less.len() implies (#[trigger] less[i]).valid(m) by {
            assert(less[i] == blocks[i]);
        }
        assert(less.no_duplicates()) by {
            assert forall|i: int, j: int| 0 <= i < j < less.len() implies less[i] != less[j] by {
                assert(blocks[i] != blocks[j]);
            }
        }
        law_nursery_sweep_resets_freed_blocks(m, s, less, block);
        lemma_nursery_swept(m, s, less);
        assert(last == blocks[blocks.len() - 1]);
        lemma_block_positions(m, last);
        lemma_block_positions(m, block);
        assert forall|i: int| 0 <= i < less.len() implies #[trigger] less[i] != last by {
            assert(blocks[i] != blocks[blocks.len() - 1]);
        }
        lemma_nursery_sweep_spares_others(m, s, less, last);
        let before = nursery_swept(m, s, less);
        assert(last.first_cell(before.m) == last.index(m) * CELLS_IN_BLOCK);
        assert(last.end_cell(before.m) == (last.index(m) + 1) * CELLS_IN_BLOCK);
        assert((last.state(before.m) == BlockState::Unallocated && last.all_counts_zero(before.m))
            == never_promoted(m)(last));
        if block == last {
            assert(blocks.contains(block));
            assert(!less.contains(block));
        } else {
            assert(block.index(m) != last.index(m)) by {
                if block.index(m) == last.index(m) {
                    assert(block.addr() == last.addr());
                }
            }
            assert(blocks.contains(block) == less.contains(block)) by {
                if blocks.contains(block) {
                    let k = choose|k: int| 0 <= k < blocks.len() && blocks[k] == block;
                    assert(less[k] == block);
                }
                if less.contains(block) {
                    let k = choose|k: int| 0 <= k < less.len() && less[k] == block;
                    assert(blocks[k] == block);
                }
            }
        }
    }
}

/// The sweep of the nursery allocates no block.
proof fn lemma_unallocated_stay(m: MetadataView, s: ImmixSpaceView, blocks: Seq<Block>, block: Block)
    requires
        m.wf(),
        forall|i: int| 0 <= i < blocks.len() ==> (#[trigger] blocks[i]).valid(m),
        block.valid(m),
    ensures
        block.state(m) == BlockState::Unallocated ==> block.state(nursery_swept(m, s, blocks).m)
            == BlockState::Unallocated,
    decreases blocks.len(),
{
    if blocks.len() > 0 {
        let less = blocks.drop_last();
        assert forall|i: int| 0 <= i < less.len() implies (#[trigger] less[i]).valid(m) by {
            assert(less[i] == blocks[i]);
        }
        lemma_nursery_swept(m, s, less);
        lemma_unallocated_stay(m, s, less, block);
        assert(blocks.last() == blocks[blocks.len() - 1]);
        lemma_block_positions(m, blocks.last());
        lemma_block_positions(m, block);
    }
}

/// No block is freed twice in a pause: what the sweep of the nursery may free, the mature sweep
/// refuses, before and after.
pub proof fn law_sweeps_are_disjoint(
    m: MetadataView,
    s: ImmixSpaceView,
    blocks: Seq<Block>,
    block: Block,
    defrag: bool,
    rc_dead: bool,
)
    requires
        m.wf(),
        forall|i: int| 0 <= i < blocks.len() ==> (#[trigger] blocks[i]).valid(m),
        block.valid(m),
        block.state(m) == BlockState::Unallocated,
    ensures
        !block.freed_by_mature_sweep(m, defrag, rc_dead),
        !block.freed_by_mature_sweep(nursery_swept(m, s, blocks).m, defrag, rc_dead),
{
    lemma_unallocated_stay(m, s, blocks, block);
}

/// Where a line lies within its block.
proof fn lemma_line_in_block(m: MetadataView, line: Line, block: Block)
    requires
        m.wf(),
        line.valid(m),
        block.addr() == line.addr() - line.addr() % BYTES_IN_BLOCK as int,
    ensures
        block.valid(m),
        0 <= block.first_line(m),
        block.first_line(m) + LINES_IN_BLOCK <= m.line_mark.len(),
        m.start + (block.first_line(m) + LINES_IN_BLOCK) * BYTES_IN_LINE <= usize::MAX,
        ({
            let cursor = (line.addr() % BYTES_IN_BLOCK as int) / BYTES_IN_LINE as int;
            &&& line.index(m) == block.first_line(m) + cursor
            &&& line.addr() == m.start + (block.first_line(m) + cursor) * BYTES_IN_LINE
        }),
        (line.index(m) / LINES_IN_BLOCK as int + 1) * LINES_IN_BLOCK == block.first_line(m)
            + LINES_IN_BLOCK,
{
    lemma_block_positions(m, block);
}

/// The position of the line that starts `k` lines after `start`.
proof fn lemma_line_at(start: int, k: int)
    ensures
        (start + k * BYTES_IN_LINE - start) / BYTES_IN_LINE as int == k,
{
}

impl ImmixSpace {
    /// Initializes a block that is handed out clean in a space that counts references: its mark
    /// and unlog bits are set up, and a block for mutators is recorded.
    fn initialize_new_clean_block(
        &mut self,
        meta: &mut HeapMetadata,
        block: Block,
        copy: bool,
        cm_enabled: bool,
    )
        requires
            old(meta).wf(),
            block.valid(old(meta)@),
            old(self)@.rc_enabled ==> block.state(old(meta)@) == BlockState::Unallocated,
        ensures
            final(meta).wf(),
            final(meta)@ == clean_block_initialized(
                old(meta)@,
                old(self)@.rc_enabled,
                block,
                copy,
                cm_enabled,
            ),
            final(self)@ == (ImmixSpaceView {
                defrag: old(self)@.defrag.with_clean_block(copy),
                block_allocation: BlockAllocationView {
                    nursery_blocks: if copy {
                        old(self)@.block_allocation.nursery_blocks
                    } else {
                        old(self)@.block_allocation.nursery_blocks.push(block)
                    },
                    ..old(self)@.block_allocation
                },
                ..old(self)@
            }),
    {
        self.notify_new_clean_block(copy);
        self.block_allocation.record_clean_block(block, copy);
        if cm_enabled {
            block.initialize_mark_table_as_marked(meta);
        } else {
            block.clear_mark_table(meta);
        }
        block.clear_field_unlog_table(meta);
        block.init_rc(meta, copy, false, self);
    }

    /// Hands out the block that the page resource acquired at `block_address`. A zero address says
    /// that there was none.
    pub fn get_clean_block(
        &mut self,
        meta: &mut HeapMetadata,
        block_address: Address,
        copy: bool,
    ) -> (block: Option<Block>)
        requires
            old(meta).wf(),
            old(self)@.wf(old(meta)@),
            block_address.0 != 0 ==> Block(block_address).valid(old(meta)@),
            block_address.0 != 0 && old(self)@.rc_enabled ==> Block(block_address).state(
                old(meta)@,
            ) == BlockState::Unallocated,
        ensures
            final(meta).wf(),
            block_address.0 == 0 ==> block is None && final(meta)@ == old(meta)@ && final(self)@
                == old(self)@,
            block_address.0 != 0 ==> ({
                let m = old(meta)@;
                let s = old(self)@;
                let b = Block(block_address);
                &&& block == Some(b)
                &&& final(meta)@ == if s.rc_enabled {
                    clean_block_initialized(m, true, b, copy, false)
                } else {
                    MetadataView {
                        block_mark: m.block_mark.update(
                            b.index(m),
                            (if copy {
                                BlockState::Marked
                            } else {
                                BlockState::Unmarked
                            }).to_byte(),
                        ),
                        block_defrag: m.block_defrag.update(b.index(m), 0),
                        ..m
                    }
                }
                &&& final(self)@ == (ImmixSpaceView {
                    chunk_map: s.chunk_map.update(m.chunk(b.addr()), true),
                    defrag: s.defrag.with_clean_block(copy),
                    block_allocation: BlockAllocationView {
                        nursery_blocks: if copy || !s.rc_enabled {
                            s.block_allocation.nursery_blocks
                        } else {
                            s.block_allocation.nursery_blocks.push(b)
                        },
                        ..s.block_allocation
                    },
                    lines_consumed: s.lines_consumed.wrapping_add(LINES_IN_BLOCK),
                    free_blocks: if s.track_frees {
                        s.free_blocks.remove(b.0.0)
                    } else {
                        s.free_blocks
                    },
                    ..s
                })
            }),
    {
        if block_address.is_zero() {
            return None;
        }
        let block: Block = Block::from_aligned_address(block_address);
        self.track_alloc(block);
        if self.rc_enabled {
            self.initialize_new_clean_block(meta, block, copy, false);
        } else {
            self.notify_new_clean_block(copy);
            block.init(meta, copy);
        }
        let chunk = block.chunk();
        assert(meta@.in_heap(chunk.addr()));
        assert(meta@.chunk(chunk.addr()) == meta@.chunk(block.addr()));
        self.chunk_map.set_allocated(meta, chunk, true);
        self.lines_consumed = self.lines_consumed.wrapping_add(Block::LINES);
        Some(block)
    }

    /// Hands out a reusable block. Where references are counted, none is.
    pub fn get_reusable_block(&mut self, meta: &mut HeapMetadata, copy: bool) -> (block: Option<
        Block,
    >)
        requires
            old(meta).wf(),
            forall|i: int|
                0 <= i < old(self)@.reusable_blocks.shared.len() ==> can_be_reused(
                    old(meta)@,
                    #[trigger] old(self)@.reusable_blocks.shared[i],
                ),
        ensures
            final(meta).wf(),
            old(self)@.rc_enabled ==> block is None && final(meta)@ == old(meta)@ && final(self)@
                == old(self)@,
            !old(self)@.rc_enabled ==> ({
                let m = old(meta)@;
                let s = old(self)@;
                let pick = reusable_pick(m, s.reusable_blocks.shared, copy);
                let taken = ImmixSpaceView {
                    reusable_blocks: ReusablePoolView { shared: pick.1, ..s.reusable_blocks },
                    ..s
                };
                &&& block == pick.0
                &&& match block {
                    Some(b) => final(meta)@ == (MetadataView {
                        block_mark: m.block_mark.update(
                            b.index(m),
                            (if copy {
                                BlockState::Marked
                            } else {
                                BlockState::Unmarked
                            }).to_byte(),
                        ),
                        block_defrag: m.block_defrag.update(b.index(m), 0),
                        ..m
                    }) && final(self)@ == (ImmixSpaceView {
                        lines_consumed: s.lines_consumed.wrapping_add(free_lines(m, b) as usize),
                        ..taken
                    }),
                    None => final(meta)@ == m && final(self)@ == taken,
                }
            }),
    {
        if self.rc_enabled {
            return None;
        }
        let ghost m: MetadataView = meta@;
        let ghost s: ImmixSpaceView = self@;
        loop
            invariant
                m == old(meta)@,
                s == old(self)@,
                meta.wf(),
                meta@ == m,
                !s.rc_enabled,
                forall|i: int|
                    0 <= i < s.reusable_blocks.shared.len() ==> can_be_reused(
                        m,
                        #[trigger] s.reusable_blocks.shared[i],
                    ),
                self@ == (ImmixSpaceView {
                    reusable_blocks: ReusablePoolView {
                        shared: self@.reusable_blocks.shared,
                        ..s.reusable_blocks
                    },
                    ..s
                }),
                self@.reusable_blocks.shared.len() <= s.reusable_blocks.shared.len(),
                self@.reusable_blocks.shared == s.reusable_blocks.shared.subrange(
                    0,
                    self@.reusable_blocks.shared.len() as int,
                ),
                reusable_pick(m, s.reusable_blocks.shared, copy) == reusable_pick(
                    m,
                    self@.reusable_blocks.shared,
                    copy,
                ),
            decreases self@.reusable_blocks.shared.len(),
        {
            let ghost shared: Seq<Block> = self@.reusable_blocks.shared;
            if let Some(block) = self.reusable_blocks.pop() {
                assert(block == s.reusable_blocks.shared[shared.len() - 1]);
                if copy && block.is_defrag_source(meta) {
                    continue;
                }
                let lines_delta: usize = match block.get_state(meta) {
                    BlockState::Reusable { unavailable_lines } => Block::LINES
                        - unavailable_lines as usize,
                    _ => Block::LINES,
                };
                self.lines_consumed = self.lines_consumed.wrapping_add(lines_delta);
                block.init(meta, copy);
                return Some(block);
            } else {
                return None;
            }
        }
    }

    /// Searches the lines of a block for the next hole, from the given line on. Returns the first
    /// line of the hole and the line after it, or `None` iff there is no free line.
    pub fn get_next_available_lines(&self, meta: &HeapMetadata, search_start: Line) -> (hole:
        Option<(Line, Line)>)
        requires
            meta.wf(),
            search_start.valid(meta@),
        ensures
            ({
                let m = meta@;
                let from = search_start.index(m);
                let end = (from / LINES_IN_BLOCK as int + 1) * LINES_IN_BLOCK;
                match hole {
                    None => forall|i: int| from <= i < end ==> !line_available(m, self@, i),
                    Some((first, limit)) => {
                        let lo = (first.addr() - m.start) / BYTES_IN_LINE as int;
                        let hi = (limit.addr() - m.start) / BYTES_IN_LINE as int;
                        &&& first.addr() == m.start + lo * BYTES_IN_LINE
                        &&& limit.addr() == m.start + hi * BYTES_IN_LINE
                        &&& from <= lo < hi <= end
                        &&& forall|i: int| from <= i < lo ==> !line_available(m, self@, i)
                        &&& forall|i: int| lo <= i < hi ==> line_available(m, self@, i)
                        &&& hi < end ==> !line_available(m, self@, hi)
                    },
                }
            }),
    {
        let ghost m: MetadataView = meta@;
        let unavail_state: u8 = self.line_unavail_state;
        let current_state: u8 = self.line_mark_state;
        let block: Block = search_start.block();
        proof {
            lemma_line_in_block(m, search_start, block);
        }
        let mark_data: Vec<u8> = block.line_mark_table(meta);
        let start_cursor: usize = search_start.get_index_within_block();
        let ghost first_line: int = block.first_line(m);
        let mut cursor: usize = start_cursor;
        while cursor < mark_data.len()
            invariant_except_break
                forall|i: int|
                    first_line + start_cursor <= i < first_line + cursor ==> !line_available(
                        m,
                        self@,
                        i,
                    ),
            invariant
                start_cursor <= cursor <= LINES_IN_BLOCK,
                mark_data@.len() == LINES_IN_BLOCK,
                mark_data@ == m.line_mark.subrange(first_line, first_line + LINES_IN_BLOCK),
                0 <= first_line,
                first_line + LINES_IN_BLOCK <= m.line_mark.len(),
                unavail_state == self@.line_unavail_state,
                current_state == self@.line_mark_state,
            ensures
                forall|i: int|
                    first_line + start_cursor <= i < first_line + cursor ==> !line_available(
                        m,
                        self@,
                        i,
                    ),
                cursor < LINES_IN_BLOCK ==> line_available(m, self@, first_line + cursor),
            decreases LINES_IN_BLOCK - cursor,
        {
            let mark: u8 = mark_data[cursor];
            assert(mark == m.line_mark[first_line + cursor]);
            if mark != unavail_state && mark != current_state {
                break;
            }
            cursor += 1;
        }
        if cursor == mark_data.len() {
            return None;
        }
        let start: Line = search_start.next_nth(cursor - start_cursor);
        let ghost lo: int = first_line + cursor;
        while cursor < mark_data.len()
            invariant_except_break
                forall|i: int| lo <= i < first_line + cursor ==> line_available(m, self@, i),
            invariant
                lo <= first_line + cursor,
                cursor <= LINES_IN_BLOCK,
                start_cursor <= cursor,
                line_available(m, self@, lo),
                mark_data@.len() == LINES_IN_BLOCK,
                mark_data@ == m.line_mark.subrange(first_line, first_line + LINES_IN_BLOCK),
                0 <= first_line,
                first_line + LINES_IN_BLOCK <= m.line_mark.len(),
                unavail_state == self@.line_unavail_state,
                current_state == self@.line_mark_state,
            ensures
                forall|i: int| lo <= i < first_line + cursor ==> line_available(m, self@, i),
                cursor < LINES_IN_BLOCK ==> !line_available(m, self@, first_line + cursor),
            decreases LINES_IN_BLOCK - cursor,
        {
            let mark: u8 = mark_data[cursor];
            assert(mark == m.line_mark[first_line + cursor]);
            if mark == unavail_state || mark == current_state {
                break;
            }
            cursor += 1;
        }
        let end: Line = search_start.next_nth(cursor - start_cursor);
        proof {
            lemma_line_at(m.start, lo);
            lemma_line_at(m.start, first_line + cursor);
        }
        Some((start, end))
    }

    /// Frees the blocks that were handed out to mutators in the current phase and never promoted,
    /// and starts a new phase. Returns how many were freed.
    fn sweep_nursery_blocks(&mut self, meta: &mut HeapMetadata) -> (freed: usize)
        requires
            old(meta).wf(),
            old(self)@.nursery_sweepable(old(meta)@),
        ensures
            final(meta).wf(),
            ({
                let sweep = nursery_swept(
                    old(meta)@,
                    old(self)@,
                    old(self)@.block_allocation.nursery_blocks,
                );
                &&& final(meta)@ == sweep.m
                &&& freed == sweep.freed
                &&& final(self)@ == (ImmixSpaceView {
                    block_allocation: BlockAllocationView {
                        nursery_blocks: Seq::empty(),
                        in_place_promoted_nursery_blocks: 0,
                    },
                    ..sweep.s
                })
            }),
    {
        let ghost m: MetadataView = meta@;
        let ghost s: ImmixSpaceView = self@;
        let ghost blocks: Seq<Block> = s.block_allocation.nursery_blocks;
        assert(blocks.subrange(0, blocks.len() as int) =~= blocks);
        let mut freed: usize = 0;
        let mut i: usize = 0;
        while i < self.block_allocation.nursery_blocks.len()
            invariant
                i <= blocks.len(),
                m.wf(),
                meta.wf(),
                s.nursery_sweepable(m),
                blocks == s.block_allocation.nursery_blocks,
                self.block_allocation.nursery_blocks@ == blocks,
                nursery_swept(m, s, blocks.subrange(0, i as int)) == (NurserySweep {
                    m: meta@,
                    s: self@,
                    freed: freed as int,
                }),
                freed <= i,
            decreases blocks.len() - i,
        {
            let ghost done: Seq<Block> = blocks.subrange(0, i as int);
            let block: Block = self.block_allocation.nursery_blocks[i];
            proof {
                assert forall|j: int| 0 <= j < done.len() implies (#[trigger] done[j]).valid(
                    m,
                ) by {
                    assert(done[j] == blocks[j]);
                }
                lemma_nursery_swept(m, s, done);
                let next = blocks.subrange(0, i + 1);
                assert(next.drop_last() =~= done);
                assert(next.last() == blocks[i as int]);
                assert(self@.can_free(block)) by {
                    if self@.track_frees && self@.free_blocks.contains(block.0.0) {
                        let j = choose|j: int|
                            0 <= j < done.len() && (#[trigger] done[j]).0.0 == block.0.0;
                        assert(blocks[j] == blocks[i as int]);
                    }
                }
            }
            if block.get_state(meta) == BlockState::Unallocated && block.rc_dead(meta) {
                self.release_block(meta, block);
                freed += 1;
            }
            i += 1;
        }
        self.block_allocation.reset_nursery_counters();
        freed
    }

    /// Frees the nursery blocks that were never promoted, unless that is switched off; either way
    /// the list of nursery blocks starts over.
    pub fn rc_sweep_nursery_blocks(&mut self, meta: &mut HeapMetadata, env: &Environment)
        requires
            old(meta).wf(),
            old(self)@.nursery_sweepable(old(meta)@),
        ensures
            final(meta).wf(),
            ({
                let sweep = nursery_swept(
                    old(meta)@,
                    old(self)@,
                    if nursery_sweep_off(*env) {
                        Seq::empty()
                    } else {
                        old(self)@.block_allocation.nursery_blocks
                    },
                );
                &&& final(meta)@ == sweep.m
                &&& final(self)@ == (ImmixSpaceView {
                    block_allocation: BlockAllocationView {
                        nursery_blocks: Seq::empty(),
                        in_place_promoted_nursery_blocks: 0,
                    },
                    num_clean_blocks_released_young: if sweep.freed == 0 {
                        sweep.s.num_clean_blocks_released_young
                    } else {
                        sweep.s.num_clean_blocks_released_young.wrapping_add(sweep.freed as usize)
                    },
                    ..sweep.s
                })
            }),
    {
        let no_free: bool = env.is_set("MMTK_RC_NO_NURSERY_SWEEP") || env.is_set(
            "MMTK_RC_NO_FREE",
        );
        let released: usize = if no_free {
            self.block_allocation.reset_nursery_counters();
            0
        } else {
            self.sweep_nursery_blocks(meta)
        };
        if released != 0 {
            self.num_clean_blocks_released_young =
            self.num_clean_blocks_released_young.wrapping_add(released);
        }
    }
}

/// The lines of a scanned object are not free: no hole that is handed out holds one of them.
pub proof fn law_scanned_lines_are_taken(
    m: MetadataView,
    s: ImmixSpaceView,
    address: int,
    size: int,
    line: int,
)
    requires
        m.wf(),
        m.in_heap(address),
        0 <= size,
        address + size <= m.end(),
        first_line(m, address) <= line < last_line(m, address, size),
    ensures
        !line_available(
            MetadataView {
                line_mark: filled(
                    m.line_mark,
                    first_line(m, address),
                    last_line(m, address, size),
                    s.line_mark_state,
                ),
                ..m
            },
            s,
            line,
        ),
{
}

impl ImmixSpaceView {
    /// The nursery can be swept: each of its blocks lies in the heap and is listed once, and no
    /// free is a double free.
    pub open spec fn nursery_sweepable(self, m: MetadataView) -> bool {
        let blocks = self.block_allocation.nursery_blocks;
        &&& forall|i: int|
            0 <= i < blocks.len() ==> (#[trigger] blocks[i]).valid(m) && self.can_free(blocks[i])
        &&& forall|i: int, j: int|
            0 <= i < j < blocks.len() ==> #[trigger] blocks[i] != #[trigger] blocks[j]
    }
}

} // verus!
