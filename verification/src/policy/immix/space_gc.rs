//! What the Immix space does at the start and at the end of a collection.

use crate::plan::lxr::Pause;
use crate::policy::immix::block::{Block, BlockState, ReusablePoolView};
use crate::policy::immix::chunk_work::{
    ClearVOBitsAfterPrepare, FlushPageResource, PrepareBlockState, SweepChunk, VOBitsClearingScope,
};
use crate::policy::immix::defrag::DefragView;
use crate::policy::immix::immixspace::{ImmixSpace, ImmixSpaceView};
use crate::policy::immix::line::Line;
use crate::policy::immix::rc_work::{
    ChunkMarkZeroing, ChunkRange, SweepBlocksAfterDecs, SweepDeadCycles,
};
use crate::util::address::Address;
use crate::util::constants::{BLOCKS_IN_CHUNK, BYTES_IN_CHUNK, CELLS_IN_CHUNK};
use crate::util::heap::chunk_map::{chunk_at, chunks_set};
use crate::util::linear_scan::Chunk;
use crate::util::log_bit::{UnlogBitsOperation, LOGGED_VALUE, UNLOGGED_VALUE};
use crate::util::metadata::{HeapMetadata, MetadataView};
use crate::util::queue::{count_blocks, pop_block, push_block};
use crate::util::rc::RefCountHelper;
use crate::LazySweepingJobsCounter;
use vstd::prelude::*;

verus! {

/// The chunks of the space, in address order.
pub open spec fn space_chunks(m: MetadataView, s: ImmixSpaceView) -> Seq<Chunk> {
    chunks_set(m, s.chunk_map, m.chunks)
}

/// The chunks of the space lie in the heap.
pub proof fn lemma_space_chunks(m: MetadataView, allocated: Seq<bool>, n: int)
    requires
        m.wf(),
        0 <= n <= m.chunks,
        allocated.len() == m.chunks,
    ensures
        forall|i: int|
            0 <= i < chunks_set(m, allocated, n).len() ==> (#[trigger] chunks_set(
                m,
                allocated,
                n,
            )[i]).valid(m),
    decreases n,
{
    if n > 0 {
        lemma_space_chunks(m, allocated, n - 1);
        let chunk = chunk_at(m, n - 1);
        assert(chunk.addr() == m.start + (n - 1) * BYTES_IN_CHUNK);
        assert(chunk.valid(m));
        let before = chunks_set(m, allocated, n - 1);
        let after = chunks_set(m, allocated, n);
        assert forall|i: int| 0 <= i < after.len() implies (#[trigger] after[i]).valid(m) by {
            if i < before.len() {
                assert(after[i] == before[i]);
            }
        }
    }
}

/// The range that holds one chunk.
pub open spec fn one_chunk(chunk: Chunk) -> ChunkRange {
    ChunkRange { start: chunk, end: Chunk(Address((chunk.addr() + BYTES_IN_CHUNK) as usize)) }
}

/// The work packets that prepare the space for a collection.
pub struct PrepareWork {
    /// For the preparation stage.
    pub prepare: Vec<PrepareBlockState>,
    /// For the stage that clears valid-object bits.
    pub clear_vo_bits: Vec<ClearVOBitsAfterPrepare>,
}

/// The work packets that sweep the space, and what they do after the last one.
pub struct SweepTasks {
    /// The packets.
    pub packets: Vec<SweepChunk>,
    /// What counts them.
    pub epilogue: FlushPageResource,
}

/// The packets prepare the space for a collection: `s` is the space before, and `s2` after.
pub open spec fn prepares(
    work: PrepareWork,
    m: MetadataView,
    s: ImmixSpaceView,
    s2: ImmixSpaceView,
    major_gc: bool,
    unlog_bits_op: UnlogBitsOperation,
    clear_vo_bits: bool,
) -> bool {
    &&& work.prepare@ == if major_gc {
        space_chunks(m, s).map_values(
            |chunk: Chunk|
                PrepareBlockState {
                    chunk,
                    defrag_threshold: if s.defrag.in_defrag {
                        Some(s2.defrag.spill_threshold)
                    } else {
                        None
                    },
                    compact_all: s.compacts_all(),
                    unlog_bits_op,
                },
        )
    } else {
        Seq::empty()
    }
    &&& work.clear_vo_bits@ == match s2.vo_scope(major_gc) {
        Some(scope) if clear_vo_bits => space_chunks(m, s).map_values(
            |chunk: Chunk| ClearVOBitsAfterPrepare { chunk, scope },
        ),
        _ => Seq::empty(),
    }
}

/// The packets sweep the space, and are counted.
pub open spec fn sweeps(
    tasks: SweepTasks,
    m: MetadataView,
    s: ImmixSpaceView,
    unlog_bits_op: UnlogBitsOperation,
) -> bool {
    &&& tasks.packets@ == space_chunks(m, s).map_values(
        |chunk: Chunk| SweepChunk { chunk, unlog_bits_op },
    )
    &&& tasks.epilogue.counter == tasks.packets@.len()
}

/// The blocks among the first `n` of a chunk that may have objects.
pub open spec fn chunk_blocks(m: MetadataView, chunk: Chunk, n: int) -> Seq<Block>
    decreases n,
{
    if n <= 0 {
        Seq::empty()
    } else if chunk.block_at(n - 1).state(m) != BlockState::Unallocated {
        chunk_blocks(m, chunk, n - 1).push(chunk.block_at(n - 1))
    } else {
        chunk_blocks(m, chunk, n - 1)
    }
}

/// The blocks of the given chunks that may have objects.
pub open spec fn blocks_of(m: MetadataView, chunks: Seq<Chunk>) -> Seq<Block>
    decreases chunks.len(),
{
    if chunks.len() == 0 {
        Seq::empty()
    } else {
        blocks_of(m, chunks.drop_last()) + chunk_blocks(m, chunks.last(), BLOCKS_IN_CHUNK as int)
    }
}

/// How many blocks a packet takes when `size` blocks are spread over `bins` packets.
pub open spec fn bin_capacity(size: int, bins: int) -> int {
    size / bins + (if size % bins == 0 {
        0int
    } else {
        1int
    })
}

/// The entries of a queue that the packet at position `i` takes.
pub open spec fn bin(queue: Seq<(usize, bool)>, bins: int, i: int) -> Seq<(Block, bool)> {
    let cap = bin_capacity(queue.len() as int, bins);
    let lo = if i * cap < queue.len() {
        i * cap
    } else {
        queue.len() as int
    };
    let hi = if (i + 1) * cap < queue.len() {
        (i + 1) * cap
    } else {
        queue.len() as int
    };
    queue.subrange(lo, hi).map_values(|entry: (usize, bool)| (Block(Address(entry.0)), entry.1))
}

/// The entries that the first `n` packets take, in order.
pub open spec fn bins_joined(queue: Seq<(usize, bool)>, bins: int, n: int) -> Seq<(Block, bool)>
    decreases n,
{
    if n <= 0 {
        Seq::empty()
    } else {
        bins_joined(queue, bins, n - 1) + bin(queue, bins, n - 1)
    }
}

/// Spreading a queue over packets loses no entry and repeats none: the packets together hold the
/// queue, in order.
pub proof fn law_bins_hold_the_queue(queue: Seq<(usize, bool)>, bins: int)
    requires
        bins > 0,
    ensures
        bins_joined(queue, bins, bins) == queue.map_values(
            |entry: (usize, bool)| (Block(Address(entry.0)), entry.1),
        ),
{
    let size = queue.len() as int;
    let cap = bin_capacity(size, bins);
    lemma_bins_cover(size, bins);
    assert(cap >= 0) by {
        assert(size / bins >= 0) by {
            vstd::arithmetic::div_mod::lemma_div_pos_is_pos(size, bins);
        }
    }
    lemma_bins_prefix(queue, bins, bins);
    let all = queue.map_values(|entry: (usize, bool)| (Block(Address(entry.0)), entry.1));
    assert(all.subrange(0, size) =~= all);
}

/// The first `n` packets together hold the first entries of the queue.
proof fn lemma_bins_prefix(queue: Seq<(usize, bool)>, bins: int, n: int)
    requires
        bins > 0,
        0 <= n <= bins,
        bin_capacity(queue.len() as int, bins) >= 0,
    ensures
        ({
            let cap = bin_capacity(queue.len() as int, bins);
            let hi = if n * cap < queue.len() {
                n * cap
            } else {
                queue.len() as int
            };
            bins_joined(queue, bins, n) == queue.map_values(
                |entry: (usize, bool)| (Block(Address(entry.0)), entry.1),
            ).subrange(0, hi)
        }),
    decreases n,
{
    let cap = bin_capacity(queue.len() as int, bins);
    let all = queue.map_values(|entry: (usize, bool)| (Block(Address(entry.0)), entry.1));
    if n > 0 {
        lemma_bins_prefix(queue, bins, n - 1);
        assert(0 <= (n - 1) * cap <= n * cap) by (nonlinear_arith)
            requires
                n >= 1,
                cap >= 0,
        ;
        let lo = if (n - 1) * cap < queue.len() {
            (n - 1) * cap
        } else {
            queue.len() as int
        };
        let hi = if n * cap < queue.len() {
            n * cap
        } else {
            queue.len() as int
        };
        assert(bin(queue, bins, n - 1) =~= all.subrange(lo, hi));
        assert(all.subrange(0, lo) + all.subrange(lo, hi) =~= all.subrange(0, hi));
    } else {
        assert(bins_joined(queue, bins, n) =~= all.subrange(0, 0));
    }
}

impl ImmixSpaceView {
    /// The space after the preparation of a reference-counting pause.
    pub open spec fn rc_prepared(self, pause: Pause) -> ImmixSpaceView {
        ImmixSpaceView {
            num_clean_blocks_released_young: 0,
            num_clean_blocks_released_mature: 0,
            num_clean_blocks_released_lazy: 0,
            copy_alloc_bytes: 0,
            is_end_of_satb_or_full_gc: self.is_end_of_satb_or_full_gc || pause == Pause::Full,
            ..self
        }
    }

    /// The space after the release of a reference-counting pause.
    pub open spec fn rc_released(self) -> ImmixSpaceView {
        ImmixSpaceView {
            is_end_of_satb_or_full_gc: false,
            reused_lines_consumed: 0,
            ..self.flushed()
        }
    }

    /// The line mark state of the next major collection. The state after the last one is the
    /// first.
    pub open spec fn next_line_mark_state(self) -> u8 {
        if self.line_mark_state >= Line::MAX_MARK_STATE {
            Line::RESET_MARK_STATE
        } else {
            (self.line_mark_state + 1) as u8
        }
    }

    /// Every block in use is a source in the current collection.
    pub open spec fn compacts_all(self) -> bool {
        self.defrag.compact_all && self.defrag.in_defrag
    }

    /// The space after the preparation of a collection.
    pub open spec fn prepared(self, major_gc: bool, spill_threshold: Option<usize>) -> ImmixSpaceView {
        if major_gc {
            ImmixSpaceView {
                major_live_bytes: 0,
                mark_state: 1,
                defrag: if self.space_args.never_move_objects {
                    self.defrag
                } else {
                    DefragView { spill_threshold: spill_threshold->0, ..self.defrag }
                },
                madvise_freed_this_gc: self.compacts_all(),
                line_mark_state: self.next_line_mark_state(),
                ..self
            }
        } else {
            self
        }
    }

    /// The space after the release of a collection, before its sweep.
    pub open spec fn released(self, major_gc: bool) -> ImmixSpaceView {
        ImmixSpaceView {
            line_unavail_state: if major_gc {
                self.line_mark_state
            } else {
                self.line_unavail_state
            },
            reusable_blocks: ReusablePoolView {
                pending: Seq::empty(),
                shared: Seq::empty(),
                ..self.reusable_blocks
            },
            swept_live_blocks: 0,
            defrag: DefragView { mark_histograms: Seq::empty(), ..self.defrag },
            lines_consumed: 0,
            ..self
        }
    }

    /// Which valid-object bits are cleared before the trace of a collection, where any must be:
    /// all in a major collection; in a nursery collection those of unmarked lines, if the space
    /// holds young objects.
    pub open spec fn vo_scope(self, major_gc: bool) -> Option<VOBitsClearingScope> {
        if major_gc {
            Some(VOBitsClearingScope::FullGC)
        } else if self.space_args.mixed_age {
            Some(VOBitsClearingScope::Line { state: self.line_mark_state })
        } else {
            None
        }
    }
}

impl ImmixSpace {
    /// Makes every object of the space logged, or unlogged.
    fn fill_side_log_bits(&self, meta: &mut HeapMetadata, value: u8)
        requires
            old(meta).wf(),
            self@.wf(old(meta)@),
        ensures
            final(meta).wf(),
            final(meta)@ == (MetadataView {
                log_bit: log_bits_filled(old(meta)@, self@, old(meta)@.chunks, value),
                ..old(meta)@
            }),
    {
        let ghost m: MetadataView = meta@;
        assert(log_bits_filled(m, self@, 0, value) =~= m.log_bit);
        let mut i: usize = 0;
        while i < meta.chunks
            invariant
                i <= meta.chunks,
                m.wf(),
                meta.wf(),
                self@.wf(m),
                meta@ == (MetadataView {
                    log_bit: log_bits_filled(m, self@, i as int, value),
                    ..m
                }),
            decreases meta.chunks - i,
        {
            if self.chunk_map.allocated[i] {
                let first: usize = i * CELLS_IN_CHUNK;
                meta.log_bit.fill(first, first + CELLS_IN_CHUNK, value);
            }
            i += 1;
            assert(meta@.log_bit =~= log_bits_filled(m, self@, i as int, value));
        }
    }

    /// Makes every object of the space logged.
    pub fn clear_side_log_bits(&self, meta: &mut HeapMetadata)
        requires
            old(meta).wf(),
            self@.wf(old(meta)@),
        ensures
            final(meta).wf(),
            final(meta)@ == (MetadataView {
                log_bit: log_bits_filled(old(meta)@, self@, old(meta)@.chunks, LOGGED_VALUE),
                ..old(meta)@
            }),
    {
        self.fill_side_log_bits(meta, LOGGED_VALUE);
    }

    /// Makes every object of the space unlogged.
    pub fn set_side_log_bits(&self, meta: &mut HeapMetadata)
        requires
            old(meta).wf(),
            self@.wf(old(meta)@),
        ensures
            final(meta).wf(),
            final(meta)@ == (MetadataView {
                log_bit: log_bits_filled(old(meta)@, self@, old(meta)@.chunks, UNLOGGED_VALUE),
                ..old(meta)@
            }),
    {
        self.fill_side_log_bits(meta, UNLOGGED_VALUE);
    }

    /// The blocks of the space that may have objects, in address order.
    pub fn enumerate_objects(&self, meta: &HeapMetadata) -> (blocks: Vec<Block>)
        requires
            meta.wf(),
            self@.wf(meta@),
        ensures
            blocks@ == blocks_of(meta@, space_chunks(meta@, self@)),
    {
        let chunks: Vec<Chunk> = self.chunk_map.all_chunks(meta);
        proof {
            lemma_space_chunks(meta@, self@.chunk_map, meta@.chunks);
            assert(chunks@.subrange(0, chunks@.len() as int) =~= chunks@);
        }
        let mut blocks: Vec<Block> = Vec::new();
        let mut i: usize = 0;
        while i < chunks.len()
            invariant
                i <= chunks@.len(),
                meta.wf(),
                forall|k: int| 0 <= k < chunks@.len() ==> (#[trigger] chunks@[k]).valid(meta@),
                blocks@ == blocks_of(meta@, chunks@.subrange(0, i as int)),
            decreases chunks@.len() - i,
        {
            let chunk: Chunk = chunks[i];
            let ghost before: Seq<Block> = blocks@;
            let mut j: usize = 0;
            while j < BLOCKS_IN_CHUNK
                invariant
                    j <= BLOCKS_IN_CHUNK,
                    meta.wf(),
                    chunk.valid(meta@),
                    blocks@ == before + chunk_blocks(meta@, chunk, j as int),
                decreases BLOCKS_IN_CHUNK - j,
            {
                proof {
                    chunk.lemma_positions(meta@);
                }
                let block: Block = chunk.block(j);
                if block.may_have_objects(meta) {
                    blocks.push(block);
                }
                j += 1;
            }
            proof {
                let next = chunks@.subrange(0, i + 1);
                assert(next.drop_last() =~= chunks@.subrange(0, i as int));
                assert(next.last() == chunk);
            }
            i += 1;
        }
        blocks
    }

    /// Records a mature block that decrements may have left dead. A block is recorded once, until
    /// its log bit is cleared; a nursery block is not recorded, since the nursery sweep frees it.
    pub fn add_to_possibly_dead_mature_blocks(
        &mut self,
        meta: &mut HeapMetadata,
        block: Block,
        is_defrag_source: bool,
    )
        requires
            old(meta).wf(),
            block.valid(old(meta)@),
        ensures
            final(meta).wf(),
            ({
                let m = old(meta)@;
                let s = old(self)@;
                let i = block.index(m);
                if block.state(m) == BlockState::Unallocated || m.block_log[i] == 1 {
                    final(meta)@ == m && final(self)@ == s
                } else {
                    &&& final(meta)@ == (MetadataView { block_log: m.block_log.update(i, 1), ..m })
                    &&& final(self)@ == (ImmixSpaceView {
                        possibly_dead_mature_blocks: s.possibly_dead_mature_blocks.push(
                            (block.0.0, is_defrag_source),
                        ),
                        ..s
                    })
                }
            }),
    {
        if block.get_state(meta) == BlockState::Unallocated {
            return;
        }
        if block.log(meta) {
            push_block(&mut self.possibly_dead_mature_blocks, (block.0.0, is_defrag_source));
        } else {
            assert(meta@.block_log =~= old(meta)@.block_log);
        }
    }

    /// Takes up to `cap` entries of the queue of possibly dead blocks.
    fn drain_bin(&mut self, cap: usize) -> (blocks: Vec<(Block, bool)>)
        ensures
            ({
                let queue = old(self)@.possibly_dead_mature_blocks;
                let n = if cap < queue.len() {
                    cap as int
                } else {
                    queue.len() as int
                };
                &&& blocks@ == queue.subrange(0, n).map_values(
                    |entry: (usize, bool)| (Block(Address(entry.0)), entry.1),
                )
                &&& final(self)@ == (ImmixSpaceView {
                    possibly_dead_mature_blocks: queue.subrange(n, queue.len() as int),
                    ..old(self)@
                })
            }),
    {
        let ghost s: ImmixSpaceView = self@;
        let ghost queue: Seq<(usize, bool)> = s.possibly_dead_mature_blocks;
        let mut blocks: Vec<(Block, bool)> = Vec::new();
        let mut i: usize = 0;
        while i < cap
            invariant_except_break
                i <= queue.len(),
                blocks@ == queue.subrange(0, i as int).map_values(
                    |entry: (usize, bool)| (Block(Address(entry.0)), entry.1),
                ),
                self@ == (ImmixSpaceView {
                    possibly_dead_mature_blocks: queue.subrange(i as int, queue.len() as int),
                    ..s
                }),
            invariant
                i <= cap,
                queue == s.possibly_dead_mature_blocks,
            ensures
                ({
                    let n = if cap < queue.len() {
                        cap as int
                    } else {
                        queue.len() as int
                    };
                    &&& blocks@ == queue.subrange(0, n).map_values(
                        |entry: (usize, bool)| (Block(Address(entry.0)), entry.1),
                    )
                    &&& self@ == (ImmixSpaceView {
                        possibly_dead_mature_blocks: queue.subrange(n, queue.len() as int),
                        ..s
                    })
                }),
            decreases cap - i,
        {
            let ghost rest: Seq<(usize, bool)> = queue.subrange(i as int, queue.len() as int);
            match pop_block(&mut self.possibly_dead_mature_blocks) {
                Some(entry) => {
                    blocks.push((Block(Address(entry.0)), entry.1));
                    i += 1;
                    assert(rest.drop_first() =~= queue.subrange(i as int, queue.len() as int));
                    assert(queue.subrange(0, i as int) =~= queue.subrange(0, i - 1).push(
                        queue[i - 1],
                    ));
                    assert(blocks@ =~= queue.subrange(0, i as int).map_values(
                        |entry: (usize, bool)| (Block(Address(entry.0)), entry.1),
                    ));
                },
                None => {
                    assert(rest.len() == 0);
                    break;
                },
            }
        }
        blocks
    }

    /// Spreads the possibly dead blocks over one packet for each worker. The packets go into the
    /// bucket that is always open.
    pub fn schedule_rc_block_sweeping_tasks(&mut self, counter: &LazySweepingJobsCounter) -> (packets:
        Vec<SweepBlocksAfterDecs>)
        requires
            old(self)@.num_workers > 0,
        ensures
            packets@.len() == old(self)@.num_workers,
            forall|i: int|
                0 <= i < packets@.len() ==> (#[trigger] packets@[i]).blocks() == bin(
                    old(self)@.possibly_dead_mature_blocks,
                    old(self)@.num_workers as int,
                    i,
                ) && packets@[i].counter().jobs() == counter.jobs()
                    && packets@[i].counter().decs() is None,
            final(self)@ == (ImmixSpaceView {
                possibly_dead_mature_blocks: Seq::empty(),
                ..old(self)@
            }),
    {
        let ghost s: ImmixSpaceView = self@;
        let ghost queue: Seq<(usize, bool)> = s.possibly_dead_mature_blocks;
        let size: usize = count_blocks(&self.possibly_dead_mature_blocks);
        let num_bins: usize = self.num_workers;
        proof {
            assert(size as int / num_bins as int <= size) by {
                vstd::arithmetic::div_mod::lemma_div_is_ordered_by_denominator(
                    size as int,
                    1,
                    num_bins as int,
                );
            }
            vstd::arithmetic::div_mod::lemma_fundamental_div_mod(size as int, num_bins as int);
            assert(size % num_bins != 0 ==> size / num_bins < size) by (nonlinear_arith)
                requires
                    num_bins > 0,
                    size as int == num_bins as int * (size as int / num_bins as int) + size as int
                        % num_bins as int,
                    0 <= size as int / num_bins as int,
            ;
        }
        let bin_cap: usize = size / num_bins + if size % num_bins == 0 {
            0
        } else {
            1
        };
        assert(bin_cap == bin_capacity(size as int, num_bins as int));
        let mut packets: Vec<SweepBlocksAfterDecs> = Vec::new();
        let mut i: usize = 0;
        assert(queue.subrange(0, queue.len() as int) =~= queue);
        while i < num_bins
            invariant
                i <= num_bins,
                queue == s.possibly_dead_mature_blocks,
                bin_cap == bin_capacity(queue.len() as int, num_bins as int),
                packets@.len() == i,
                forall|j: int|
                    0 <= j < i ==> (#[trigger] packets@[j]).blocks() == bin(
                        queue,
                        num_bins as int,
                        j,
                    ) && packets@[j].counter().jobs() == counter.jobs()
                        && packets@[j].counter().decs() is None,
                self@ == (ImmixSpaceView {
                    possibly_dead_mature_blocks: queue.subrange(
                        if i * bin_cap < queue.len() {
                            i * bin_cap
                        } else {
                            queue.len() as int
                        },
                        queue.len() as int,
                    ),
                    ..s
                }),
            decreases num_bins - i,
        {
            let ghost lo: int = if i * bin_cap < queue.len() {
                i * bin_cap
            } else {
                queue.len() as int
            };
            let ghost hi: int = if (i + 1) * bin_cap < queue.len() {
                (i + 1) * bin_cap
            } else {
                queue.len() as int
            };
            proof {
                assert((i + 1) * bin_cap == i * bin_cap + bin_cap) by (nonlinear_arith);
            }
            let blocks: Vec<(Block, bool)> = self.drain_bin(bin_cap);
            proof {
                let rest = queue.subrange(lo, queue.len() as int);
                assert(rest.subrange(0, hi - lo) =~= queue.subrange(lo, hi));
                assert(rest.subrange(hi - lo, rest.len() as int) =~= queue.subrange(
                    hi,
                    queue.len() as int,
                ));
            }
            packets.push(SweepBlocksAfterDecs::new(blocks, counter.clone()));
            i += 1;
        }
        proof {
            lemma_bins_cover(queue.len() as int, num_bins as int);
            assert(queue.subrange(queue.len() as int, queue.len() as int) =~= Seq::empty());
        }
        packets
    }

    /// Prepares a reference-counting pause. In a pause with a trace, liveness consults the marks.
    pub fn prepare_rc(&mut self, pause: Pause)
        requires
            pause == Pause::RefCount || pause == Pause::Full,
        ensures
            final(self)@ == old(self)@.rc_prepared(pause),
    {
        self.num_clean_blocks_released_young = 0;
        self.num_clean_blocks_released_mature = 0;
        self.num_clean_blocks_released_lazy = 0;
        self.copy_alloc_bytes = 0;
        if pause == Pause::Full {
            self.is_end_of_satb_or_full_gc = true;
        }
    }

    /// Releases a reference-counting pause. The sweeps run later, when no decrement is left that
    /// could read an object of a freed block.
    pub fn release_rc(&mut self, meta: &mut HeapMetadata, pause: Pause)
        requires
            old(meta).wf(),
            pause == Pause::RefCount || pause == Pause::Full,
        ensures
            final(meta).wf(),
            final(meta)@ == (MetadataView { inc_buffer_size: 0, ..old(meta)@ }),
            final(self)@ == old(self)@.rc_released(),
    {
        self.flush_page_resource();
        RefCountHelper.reset_inc_buffer_size(meta);
        self.is_end_of_satb_or_full_gc = false;
        self.reused_lines_consumed = 0;
    }

    /// One packet for each chunk of the space that clears its mark bits. The packets go into the
    /// bucket that is always open.
    pub fn schedule_mark_table_zeroing(&self, meta: &HeapMetadata) -> (packets: Vec<
        ChunkMarkZeroing,
    >)
        requires
            meta.wf(),
            self@.wf(meta@),
        ensures
            packets@ == space_chunks(meta@, self@).map_values(
                |chunk: Chunk| ChunkMarkZeroing { chunks: one_chunk(chunk) },
            ),
    {
        let chunks: Vec<Chunk> = self.chunk_map.all_chunks(meta);
        proof {
            lemma_space_chunks(meta@, self@.chunk_map, meta@.chunks);
        }
        let mut packets: Vec<ChunkMarkZeroing> = Vec::new();
        let mut i: usize = 0;
        while i < chunks.len()
            invariant
                i <= chunks@.len(),
                meta.wf(),
                forall|k: int| 0 <= k < chunks@.len() ==> (#[trigger] chunks@[k]).valid(meta@),
                packets@ == chunks@.subrange(0, i as int).map_values(
                    |chunk: Chunk| ChunkMarkZeroing { chunks: one_chunk(chunk) },
                ),
            decreases chunks@.len() - i,
        {
            let chunk: Chunk = chunks[i];
            proof {
                chunk.lemma_positions(meta@);
                assert(chunks@.subrange(0, i + 1) =~= chunks@.subrange(0, i as int).push(chunk));
            }
            packets.push(
                ChunkMarkZeroing { chunks: ChunkRange { start: chunk, end: chunk.next() } },
            );
            i += 1;
            assert(packets@ =~= chunks@.subrange(0, i as int).map_values(
                |chunk: Chunk| ChunkMarkZeroing { chunks: one_chunk(chunk) },
            ));
        }
        assert(chunks@.subrange(0, chunks@.len() as int) =~= chunks@);
        packets
    }

    /// One packet for each chunk of the space that sweeps its dead cycles. The packets go into the
    /// bucket that is always open.
    pub fn schedule_dead_cycle_sweep(&self, meta: &HeapMetadata) -> (packets: Vec<SweepDeadCycles>)
        requires
            meta.wf(),
            self@.wf(meta@),
        ensures
            packets@.len() == space_chunks(meta@, self@).len(),
            forall|i: int|
                0 <= i < packets@.len() ==> (#[trigger] packets@[i]).chunks() == one_chunk(
                    space_chunks(meta@, self@)[i],
                ) && packets@[i].counter().decs() is Some,
    {
        let chunks: Vec<Chunk> = self.chunk_map.all_chunks(meta);
        proof {
            lemma_space_chunks(meta@, self@.chunk_map, meta@.chunks);
        }
        let mut packets: Vec<SweepDeadCycles> = Vec::new();
        let mut i: usize = 0;
        while i < chunks.len()
            invariant
                i <= chunks@.len(),
                packets@.len() == i,
                meta.wf(),
                forall|k: int| 0 <= k < chunks@.len() ==> (#[trigger] chunks@[k]).valid(meta@),
                forall|k: int|
                    0 <= k < i ==> (#[trigger] packets@[k]).chunks() == one_chunk(chunks@[k])
                        && packets@[k].counter().decs() is Some,
            decreases chunks@.len() - i,
        {
            let chunk: Chunk = chunks[i];
            proof {
                chunk.lemma_positions(meta@);
            }
            packets.push(
                SweepDeadCycles::new(
                    ChunkRange { start: chunk, end: chunk.next() },
                    LazySweepingJobsCounter::new_decs(),
                ),
            );
            i += 1;
        }
        packets
    }

    /// One packet for each chunk of the space that prepares its blocks.
    fn generate_prepare_tasks(
        &self,
        meta: &HeapMetadata,
        task: PrepareBlockState,
    ) -> (packets: Vec<PrepareBlockState>)
        requires
            meta.wf(),
            self@.wf(meta@),
        ensures
            packets@ == space_chunks(meta@, self@).map_values(
                |chunk: Chunk| PrepareBlockState { chunk, ..task },
            ),
    {
        let chunks: Vec<Chunk> = self.chunk_map.all_chunks(meta);
        let mut packets: Vec<PrepareBlockState> = Vec::new();
        let mut i: usize = 0;
        while i < chunks.len()
            invariant
                i <= chunks@.len(),
                packets@ == chunks@.subrange(0, i as int).map_values(
                    |chunk: Chunk| PrepareBlockState { chunk, ..task },
                ),
            decreases chunks@.len() - i,
        {
            let chunk: Chunk = chunks[i];
            assert(chunks@.subrange(0, i + 1) =~= chunks@.subrange(0, i as int).push(chunk));
            packets.push(PrepareBlockState { chunk, ..task });
            i += 1;
            assert(packets@ =~= chunks@.subrange(0, i as int).map_values(
                |chunk: Chunk| PrepareBlockState { chunk, ..task },
            ));
        }
        assert(chunks@.subrange(0, chunks@.len() as int) =~= chunks@);
        packets
    }

    /// One packet for each chunk of the space that clears valid-object bits.
    fn generate_vo_tasks(&self, meta: &HeapMetadata, scope: VOBitsClearingScope) -> (packets: Vec<
        ClearVOBitsAfterPrepare,
    >)
        requires
            meta.wf(),
            self@.wf(meta@),
        ensures
            packets@ == space_chunks(meta@, self@).map_values(
                |chunk: Chunk| ClearVOBitsAfterPrepare { chunk, scope },
            ),
    {
        let chunks: Vec<Chunk> = self.chunk_map.all_chunks(meta);
        let mut packets: Vec<ClearVOBitsAfterPrepare> = Vec::new();
        let mut i: usize = 0;
        while i < chunks.len()
            invariant
                i <= chunks@.len(),
                packets@ == chunks@.subrange(0, i as int).map_values(
                    |chunk: Chunk| ClearVOBitsAfterPrepare { chunk, scope },
                ),
            decreases chunks@.len() - i,
        {
            let chunk: Chunk = chunks[i];
            assert(chunks@.subrange(0, i + 1) =~= chunks@.subrange(0, i as int).push(chunk));
            packets.push(ClearVOBitsAfterPrepare { chunk, scope });
            i += 1;
            assert(packets@ =~= chunks@.subrange(0, i as int).map_values(
                |chunk: Chunk| ClearVOBitsAfterPrepare { chunk, scope },
            ));
        }
        assert(chunks@.subrange(0, chunks@.len() as int) =~= chunks@);
        packets
    }

    /// Prepares a collection that goes by marks. A major collection starts a new line mark state
    /// and prepares the blocks of every chunk; `spill_threshold` is the number of holes that the
    /// defragmentation policy settled on. `clear_vo_bits` says whether valid-object bits are
    /// cleared before a trace.
    pub fn prepare(
        &mut self,
        meta: &HeapMetadata,
        major_gc: bool,
        spill_threshold: Option<usize>,
        unlog_bits_op: UnlogBitsOperation,
        clear_vo_bits: bool,
    ) -> (work: PrepareWork)
        requires
            meta.wf(),
            old(self)@.wf(meta@),
            !old(self)@.rc_enabled,
            major_gc ==> old(self)@.vm.mark_bit is OnSide,
            major_gc && !old(self)@.space_args.never_move_objects ==> spill_threshold is Some,
        ensures
            final(self)@ == old(self)@.prepared(major_gc, spill_threshold),
            final(self)@.wf(meta@),
            prepares(
                work,
                meta@,
                old(self)@,
                final(self)@,
                major_gc,
                unlog_bits_op,
                clear_vo_bits,
            ),
    {
        let ghost s: ImmixSpaceView = self@;
        let mut prepare: Vec<PrepareBlockState> = Vec::new();
        if major_gc {
            self.major_live_bytes = 0;
            self.mark_state = 1;
            if self.is_defrag_enabled() {
                self.defrag.spill_threshold = spill_threshold.unwrap();
            }
            let threshold: usize = self.defrag.spill_threshold;
            let in_defrag: bool = self.in_defrag();
            let compact_all: bool = self.defrag.compact_all_active() && in_defrag;
            self.madvise_freed_this_gc = compact_all;
            prepare =
            self.generate_prepare_tasks(
                meta,
                PrepareBlockState {
                    chunk: Chunk(Address(0)),
                    defrag_threshold: if in_defrag {
                        Some(threshold)
                    } else {
                        None
                    },
                    compact_all,
                    unlog_bits_op,
                },
            );
            assert(prepare@ =~= space_chunks(meta@, s).map_values(
                |chunk: Chunk|
                    PrepareBlockState {
                        chunk,
                        defrag_threshold: if s.defrag.in_defrag {
                            Some(threshold)
                        } else {
                            None
                        },
                        compact_all: s.compacts_all(),
                        unlog_bits_op,
                    },
            ));
            self.line_mark_state = self.line_mark_state + 1;
            if self.line_mark_state > Line::MAX_MARK_STATE {
                self.line_mark_state = Line::RESET_MARK_STATE;
            }
        }
        let mut vo_tasks: Vec<ClearVOBitsAfterPrepare> = Vec::new();
        if clear_vo_bits {
            let maybe_scope: Option<VOBitsClearingScope> = if major_gc {
                Some(VOBitsClearingScope::FullGC)
            } else if self.space_args.mixed_age {
                Some(VOBitsClearingScope::Line { state: self.line_mark_state })
            } else {
                None
            };
            if let Some(scope) = maybe_scope {
                vo_tasks = self.generate_vo_tasks(meta, scope);
            }
        }
        PrepareWork { prepare, clear_vo_bits: vo_tasks }
    }

    /// One packet for each chunk of the space that sweeps its blocks.
    fn generate_sweep_tasks(&mut self, meta: &HeapMetadata, unlog_bits_op: UnlogBitsOperation) -> (tasks:
        SweepTasks)
        requires
            meta.wf(),
            old(self)@.wf(meta@),
        ensures
            final(self)@ == (ImmixSpaceView {
                swept_live_blocks: 0,
                defrag: DefragView { mark_histograms: Seq::empty(), ..old(self)@.defrag },
                ..old(self)@
            }),
            sweeps(tasks, meta@, old(self)@, unlog_bits_op),
    {
        self.swept_live_blocks = 0;
        self.defrag.clear_mark_histograms();
        let chunks: Vec<Chunk> = self.chunk_map.all_chunks(meta);
        let mut packets: Vec<SweepChunk> = Vec::new();
        let mut i: usize = 0;
        while i < chunks.len()
            invariant
                i <= chunks@.len(),
                packets@ == chunks@.subrange(0, i as int).map_values(
                    |chunk: Chunk| SweepChunk { chunk, unlog_bits_op },
                ),
            decreases chunks@.len() - i,
        {
            let chunk: Chunk = chunks[i];
            assert(chunks@.subrange(0, i + 1) =~= chunks@.subrange(0, i as int).push(chunk));
            packets.push(SweepChunk { chunk, unlog_bits_op });
            i += 1;
            assert(packets@ =~= chunks@.subrange(0, i as int).map_values(
                |chunk: Chunk| SweepChunk { chunk, unlog_bits_op },
            ));
        }
        assert(chunks@.subrange(0, chunks@.len() as int) =~= chunks@);
        let counter: usize = packets.len();
        SweepTasks { packets, epilogue: FlushPageResource { counter } }
    }

    /// Releases a collection that goes by marks, and returns the packets that sweep the space. They
    /// go into the release stage.
    pub fn release(
        &mut self,
        meta: &HeapMetadata,
        major_gc: bool,
        unlog_bits_op: UnlogBitsOperation,
    ) -> (tasks: SweepTasks)
        requires
            meta.wf(),
            old(self)@.wf(meta@),
            !old(self)@.rc_enabled,
        ensures
            final(self)@ == old(self)@.released(major_gc),
            final(self)@.wf(meta@),
            sweeps(tasks, meta@, old(self)@, unlog_bits_op),
    {
        if major_gc {
            self.line_unavail_state = self.line_mark_state;
        }
        self.reusable_blocks.reset();
        let tasks: SweepTasks = self.generate_sweep_tasks(meta, unlog_bits_op);
        self.lines_consumed = 0;
        tasks
    }

    /// Like `release`, but the packets are for the plan to run when it chooses. Until all have
    /// run, the space must not be prepared again.
    pub fn release_deferred_sweep(
        &mut self,
        meta: &HeapMetadata,
        major_gc: bool,
        unlog_bits_op: UnlogBitsOperation,
    ) -> (tasks: SweepTasks)
        requires
            meta.wf(),
            old(self)@.wf(meta@),
            !old(self)@.rc_enabled,
        ensures
            final(self)@ == old(self)@.released(major_gc),
            final(self)@.wf(meta@),
            sweeps(tasks, meta@, old(self)@, unlog_bits_op),
    {
        if major_gc {
            self.line_unavail_state = self.line_mark_state;
        }
        self.reusable_blocks.reset();
        self.lines_consumed = 0;
        self.generate_sweep_tasks(meta, unlog_bits_op)
    }
}

/// All packets together have room for all blocks.
proof fn lemma_bins_cover(size: int, bins: int)
    requires
        size >= 0,
        bins > 0,
    ensures
        bins * bin_capacity(size, bins) >= size,
{
    vstd::arithmetic::div_mod::lemma_fundamental_div_mod(size, bins);
    vstd::arithmetic::div_mod::lemma_mod_bound(size, bins);
    assert(bins * (size / bins + 1) == bins * (size / bins) + bins) by (nonlinear_arith);
}

/// The log bits after those of the space's chunks among the first `n` were set to `value`.
pub open spec fn log_bits_filled(m: MetadataView, s: ImmixSpaceView, n: int, value: u8) -> Seq<u8> {
    Seq::new(
        m.log_bit.len(),
        |i: int|
            if i / (CELLS_IN_CHUNK as int) < n && s.chunk_map[i / CELLS_IN_CHUNK as int] {
                value
            } else {
                m.log_bit[i]
            },
    )
}

} // verus!
