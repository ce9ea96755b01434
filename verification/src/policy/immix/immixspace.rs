//! The Immix space.

use crate::policy::immix::block::{Block, BlockState, ReusableBlockPool, ReusablePoolView};
use crate::policy::immix::block_allocation::{BlockAllocation, BlockAllocationView};
use crate::policy::immix::defrag::{Defrag, DefragView};
use crate::policy::immix::line::{first_line, last_line, Line};
use crate::util::address::{Address, ObjectReference};
use crate::util::constants::{BYTES_IN_BLOCK, BYTES_IN_LINE, BYTES_IN_PAGE};
use crate::util::heap::chunk_map::ChunkMap;
use crate::util::heap::page_resource::{BlockPageResource, PageResourceView, ReleasedBlock};
use crate::util::log_bit::UNLOGGED_VALUE;
use crate::util::metadata::{HeapMetadata, MetadataView};
use crate::util::object_forwarding;
use crate::util::object_forwarding::{
    bits_shift, can_hold, forwarded, law_forwarded_object_is_found, pointer_of, sentinel_active,
    status, with_bits, BEING_FORWARDED, FORWARDED, FORWARDING_NOT_TRIGGERED_YET,
};
use crate::util::queue::{new_block_queue, queued_blocks};
use crate::util::rc::{count_of, RefCountHelper};
use crate::util::side_metadata::filled;
use crate::util::vm::{MetadataLocation, ObjectModel, VmConfig};
use crossbeam::queue::SegQueue;
use std::collections::HashSet;
use vstd::prelude::*;

verus! {

broadcast use vstd::std_specs::hash::group_hash_axioms;

/// Some settings of an Immix space.
#[derive(Debug, Clone, Copy, PartialEq, Eq, Structural)]
pub struct ImmixSpaceArgs {
    /// Whether the space contains both young and old objects.
    pub mixed_age: bool,
    /// Whether objects of the space never move.
    pub never_move_objects: bool,
}

/// What an Immix space holds.
#[verifier::ext_equal]
pub ghost struct ImmixSpaceView {
    /// Per chunk: whether it holds blocks of the space.
    pub chunk_map: Seq<bool>,
    /// The page resource.
    pub pr: PageResourceView,
    /// The current line mark state.
    pub line_mark_state: u8,
    /// The line mark state of the previous collection.
    pub line_unavail_state: u8,
    /// The reusable blocks.
    pub reusable_blocks: ReusablePoolView,
    /// How many live blocks the last sweep counted.
    pub swept_live_blocks: usize,
    /// The defragmentation state.
    pub defrag: DefragView,
    /// Whether freed blocks return their pages to the operating system.
    pub madvise_freed_this_gc: bool,
    /// Bytes of the objects that the current major collection has marked or forwarded.
    pub major_live_bytes: usize,
    /// Lines taken since the last collection.
    pub lines_consumed: usize,
    /// The object mark state.
    pub mark_state: u8,
    /// The number of workers.
    pub num_workers: usize,
    /// The settings.
    pub space_args: ImmixSpaceArgs,
    /// Whether the space counts references.
    pub rc_enabled: bool,
    /// Whether liveness also consults the mark bits.
    pub is_end_of_satb_or_full_gc: bool,
    /// The blocks given to mutators in the current phase.
    pub block_allocation: BlockAllocationView,
    /// The mature blocks that may have died: the address of each, and whether it must be freed.
    pub possibly_dead_mature_blocks: Seq<(usize, bool)>,
    /// Clean blocks released by nursery sweeps.
    pub num_clean_blocks_released_young: usize,
    /// Clean blocks released by mature sweeps.
    pub num_clean_blocks_released_mature: usize,
    /// Clean blocks released lazily.
    pub num_clean_blocks_released_lazy: usize,
    /// Bytes handed out for copies.
    pub copy_alloc_bytes: usize,
    /// Lines that mutators took in reused blocks.
    pub reused_lines_consumed: usize,
    /// Whether traced objects become unlogged.
    pub unlog_traced_object: bool,
    /// Whether every collection defragments.
    pub always_defrag: bool,
    /// Whether every block in use is a source when the space defragments.
    pub defrag_every_block: bool,
    /// The runtime's layout of metadata.
    pub vm: VmConfig,
    /// Whether frees are checked.
    pub track_frees: bool,
    /// The addresses of the blocks that are known to be free, when frees are checked.
    pub free_blocks: Set<usize>,
}

/// The Immix space.
pub struct ImmixSpace {
    /// Per chunk: whether it holds blocks of the space.
    pub chunk_map: ChunkMap,
    /// The page resource.
    pub pr: BlockPageResource,
    /// The current line mark state.
    pub line_mark_state: u8,
    /// The line mark state of the previous collection.
    pub line_unavail_state: u8,
    /// The reusable blocks.
    pub reusable_blocks: ReusableBlockPool,
    /// How many live blocks the last sweep counted.
    pub swept_live_blocks: usize,
    /// The defragmentation state.
    pub defrag: Defrag,
    /// Whether freed blocks return their pages to the operating system.
    pub madvise_freed_this_gc: bool,
    /// Bytes of the objects that the current major collection has marked or forwarded.
    pub major_live_bytes: usize,
    /// Lines taken since the last collection.
    pub lines_consumed: usize,
    /// The object mark state.
    pub mark_state: u8,
    /// The number of workers.
    pub num_workers: usize,
    /// The settings.
    pub space_args: ImmixSpaceArgs,
    /// Whether the space counts references.
    pub rc_enabled: bool,
    /// Whether liveness also consults the mark bits.
    pub is_end_of_satb_or_full_gc: bool,
    /// The blocks given to mutators in the current phase.
    pub block_allocation: BlockAllocation,
    /// The mature blocks that may have died: the address of each, and whether it must be freed.
    pub possibly_dead_mature_blocks: SegQueue<(usize, bool)>,
    /// Clean blocks released by nursery sweeps.
    pub num_clean_blocks_released_young: usize,
    /// Clean blocks released by mature sweeps.
    pub num_clean_blocks_released_mature: usize,
    /// Clean blocks released lazily.
    pub num_clean_blocks_released_lazy: usize,
    /// Bytes handed out for copies.
    pub copy_alloc_bytes: usize,
    /// Lines that mutators took in reused blocks.
    pub reused_lines_consumed: usize,
    /// Whether traced objects become unlogged.
    pub unlog_traced_object: bool,
    /// Whether every collection defragments.
    pub always_defrag: bool,
    /// Whether every block in use is a source when the space defragments.
    pub defrag_every_block: bool,
    /// The runtime's layout of metadata.
    pub vm: VmConfig,
    /// Whether frees are checked.
    pub track_frees: bool,
    /// The addresses of the blocks that are known to be free, when frees are checked.
    pub free_blocks: HashSet<usize>,
}

impl View for ImmixSpace {
    type V = ImmixSpaceView;

    open spec fn view(&self) -> ImmixSpaceView {
        ImmixSpaceView {
            chunk_map: self.chunk_map@,
            pr: self.pr@,
            line_mark_state: self.line_mark_state,
            line_unavail_state: self.line_unavail_state,
            reusable_blocks: self.reusable_blocks@,
            swept_live_blocks: self.swept_live_blocks,
            defrag: self.defrag@,
            madvise_freed_this_gc: self.madvise_freed_this_gc,
            major_live_bytes: self.major_live_bytes,
            lines_consumed: self.lines_consumed,
            mark_state: self.mark_state,
            num_workers: self.num_workers,
            space_args: self.space_args,
            rc_enabled: self.rc_enabled,
            is_end_of_satb_or_full_gc: self.is_end_of_satb_or_full_gc,
            block_allocation: self.block_allocation@,
            possibly_dead_mature_blocks: queued_blocks(self.possibly_dead_mature_blocks),
            num_clean_blocks_released_young: self.num_clean_blocks_released_young,
            num_clean_blocks_released_mature: self.num_clean_blocks_released_mature,
            num_clean_blocks_released_lazy: self.num_clean_blocks_released_lazy,
            copy_alloc_bytes: self.copy_alloc_bytes,
            reused_lines_consumed: self.reused_lines_consumed,
            unlog_traced_object: self.unlog_traced_object,
            always_defrag: self.always_defrag,
            defrag_every_block: self.defrag_every_block,
            vm: self.vm,
            track_frees: self.track_frees,
            free_blocks: self.free_blocks@,
        }
    }
}

impl ImmixSpaceView {
    /// Freeing the block is not a double free, as far as frees are checked.
    pub open spec fn can_free(self, block: Block) -> bool {
        self.track_frees ==> !self.free_blocks.contains(block.0.0)
    }

    /// The space after a block was released.
    pub open spec fn with_freed(self, block: Block, madvise: bool) -> ImmixSpaceView {
        ImmixSpaceView {
            pr: PageResourceView {
                pending: self.pr.pending.push(ReleasedBlock { block, madvise }),
                ..self.pr
            },
            free_blocks: if self.track_frees {
                self.free_blocks.insert(block.0.0)
            } else {
                self.free_blocks
            },
            ..self
        }
    }
}

impl ImmixSpace {
    /// Records that a block is free, when frees are checked.
    fn track_free(&mut self, block: Block)
        requires
            old(self)@.can_free(block),
        ensures
            final(self)@ == (ImmixSpaceView {
                free_blocks: if old(self)@.track_frees {
                    old(self)@.free_blocks.insert(block.0.0)
                } else {
                    old(self)@.free_blocks
                },
                ..old(self)@
            }),
    {
        if self.track_frees {
            self.free_blocks.insert(block.0.0);
        }
    }

    /// Records that a block is no longer free, when frees are checked.
    pub(crate) fn track_alloc(&mut self, block: Block)
        ensures
            final(self)@ == (ImmixSpaceView {
                free_blocks: if old(self)@.track_frees {
                    old(self)@.free_blocks.remove(block.0.0)
                } else {
                    old(self)@.free_blocks
                },
                ..old(self)@
            }),
    {
        if self.track_frees {
            self.free_blocks.remove(&block.0.0);
        }
    }

    /// Releases a block. After a compacting collection its pages go back to the operating system.
    pub fn release_block(&mut self, meta: &mut HeapMetadata, block: Block)
        requires
            old(meta).wf(),
            block.valid(old(meta)@),
            old(self)@.can_free(block),
        ensures
            final(meta).wf(),
            final(meta)@ == block.deinitialized_rc(old(meta)@, old(self)@.rc_enabled),
            final(self)@ == old(self)@.with_freed(block, old(self)@.madvise_freed_this_gc),
    {
        self.track_free(block);
        if self.rc_enabled {
            block.deinit_rc(meta, self);
        } else {
            block.deinit(meta);
        }
        let madvise: bool = self.madvise_freed_this_gc;
        self.pr.release_block_with(block, madvise);
    }

    /// Releases a block that was deinitialized before.
    pub fn release_block_to_free_list(&mut self, block: Block)
        requires
            old(self)@.can_free(block),
        ensures
            final(self)@ == old(self)@.with_freed(block, false),
    {
        self.track_free(block);
        self.pr.release_block(block);
    }
}

impl ImmixSpaceView {
    /// The space fits the tables: its chunk map covers the heap, and mark bits are set to 1.
    pub open spec fn wf(self, m: MetadataView) -> bool {
        &&& self.chunk_map.len() == m.chunks
        &&& self.mark_state == 1
        &&& 1 <= self.line_mark_state <= Line::MAX_MARK_STATE
        &&& 1 <= self.line_unavail_state <= Line::MAX_MARK_STATE
    }

    /// The space after what workers released became available to all.
    pub open spec fn flushed(self) -> ImmixSpaceView {
        ImmixSpaceView {
            reusable_blocks: ReusablePoolView {
                pending: Seq::empty(),
                shared: self.reusable_blocks.shared + self.reusable_blocks.pending,
                ..self.reusable_blocks
            },
            pr: if usize::BITS == 64 {
                PageResourceView { pending: Seq::empty(), free: self.pr.free + self.pr.pending }
            } else {
                self.pr
            },
            ..self
        }
    }

    /// The object at `address` carries the mark of the current collection.
    pub open spec fn marked(self, m: MetadataView, address: int) -> bool {
        m.mark[m.cell(address)] == self.mark_state
    }

    /// The object at `address` was forwarded.
    pub open spec fn forwarded(self, m: MetadataView, address: int) -> bool {
        status(self.vm, m, address) == FORWARDED
    }

    /// The copy of the object at `address`.
    pub open spec fn copy_of(self, m: MetadataView, address: int) -> ObjectReference {
        pointer_of(self.vm, m, address)
    }

    /// The object at `address` is marked and has a count.
    pub open spec fn marked_and_counted(self, m: MetadataView, address: int) -> bool {
        self.marked(m, address) && count_of(m, address) > 0
    }

    /// The object at `address` was forwarded to an object that is marked and has a count.
    pub open spec fn copy_marked_and_counted(self, m: MetadataView, address: int) -> bool {
        self.forwarded(m, address) && self.marked_and_counted(
            m,
            self.copy_of(m, address).addr(),
        )
    }

    /// The object at `address` is live. Where references are counted, an object with a count or
    /// with a copy is live; at the end of a trace it must also have been marked, and one in a
    /// block that is being emptied must have been copied. Elsewhere the mark or the copy decides.
    pub open spec fn live(self, m: MetadataView, address: int) -> bool {
        if self.rc_enabled {
            if self.is_end_of_satb_or_full_gc {
                if self.marked(m, address) && !Block(
                    Address((address - address % BYTES_IN_BLOCK as int) as usize),
                ).defrag_source(m) {
                    count_of(m, address) > 0
                } else {
                    self.copy_marked_and_counted(m, address)
                }
            } else {
                count_of(m, address) > 0 || self.forwarded(m, address)
            }
        } else {
            self.marked(m, address) || (!self.space_args.never_move_objects && self.forwarded(
                m,
                address,
            ))
        }
    }

    /// The object at `address` is reachable.
    pub open spec fn reachable(self, m: MetadataView, address: int) -> bool {
        if self.rc_enabled {
            if self.forwarded(m, address) {
                self.copy_marked_and_counted(m, address)
            } else {
                self.marked_and_counted(m, address)
            }
        } else {
            self.live(m, address)
        }
    }
}

impl ImmixSpace {
    /// Whether an object carries the mark `mark_state`.
    fn is_marked_with(&self, meta: &HeapMetadata, object: ObjectReference, mark_state: u8) -> (marked:
        bool)
        requires
            meta.wf(),
            meta@.in_heap(object.addr()),
        ensures
            marked == (meta@.mark[meta@.cell(object.addr())] == mark_state),
    {
        meta.mark.load(meta.cell(object.0)) == mark_state
    }

    /// Whether an object carries the mark of the current collection.
    pub fn is_marked(&self, meta: &HeapMetadata, object: ObjectReference) -> (marked: bool)
        requires
            meta.wf(),
            meta@.in_heap(object.addr()),
        ensures
            marked == self@.marked(meta@, object.addr()),
    {
        self.is_marked_with(meta, object, self.mark_state)
    }

    /// Whether objects of the space move.
    pub fn is_movable(&self) -> (movable: bool)
        ensures
            movable == !self@.space_args.never_move_objects,
    {
        !self.space_args.never_move_objects
    }

    /// The copy of an object, if it has one.
    pub fn get_forwarded_object(&self, meta: &HeapMetadata, object: ObjectReference) -> (copy:
        Option<ObjectReference>)
        requires
            meta.wf(),
            meta@.in_heap(object.addr()),
        ensures
            copy == (if !self@.space_args.never_move_objects && self@.forwarded(
                meta@,
                object.addr(),
            ) {
                Some(self@.copy_of(meta@, object.addr()))
            } else {
                None
            }),
    {
        if !self.is_movable() {
            return None;
        }
        if object_forwarding::is_forwarded(&self.vm, meta, object) {
            Some(object_forwarding::read_forwarding_pointer(&self.vm, meta, object))
        } else {
            None
        }
    }

    /// Whether the copy of a forwarded object is marked and has a count.
    fn is_copy_marked_and_counted(&self, meta: &HeapMetadata, object: ObjectReference) -> (result:
        bool)
        requires
            meta.wf(),
            meta@.in_heap(object.addr()),
            self@.forwarded(meta@, object.addr()),
            meta@.in_heap(self@.copy_of(meta@, object.addr()).addr()),
        ensures
            result == self@.copy_marked_and_counted(meta@, object.addr()),
    {
        let forwarded: ObjectReference = object_forwarding::read_forwarding_pointer(
            &self.vm,
            meta,
            object,
        );
        self.is_marked(meta, forwarded) && RefCountHelper.count(meta, forwarded) > 0
    }

    /// Whether an object is live.
    pub fn is_live(&self, meta: &HeapMetadata, object: ObjectReference) -> (live: bool)
        requires
            meta.wf(),
            meta@.in_heap(object.addr()),
            self@.forwarded(meta@, object.addr()) ==> meta@.in_heap(
                self@.copy_of(meta@, object.addr()).addr(),
            ),
        ensures
            live == self@.live(meta@, object.addr()),
    {
        if self.rc_enabled {
            if self.is_end_of_satb_or_full_gc {
                if self.is_marked(meta, object) {
                    let block: Block = Block::from_unaligned_address(object.0);
                    if block.is_defrag_source(meta) {
                        if object_forwarding::is_forwarded(&self.vm, meta, object) {
                            return self.is_copy_marked_and_counted(meta, object);
                        } else {
                            return false;
                        }
                    }
                    return RefCountHelper.count(meta, object) > 0;
                } else if object_forwarding::is_forwarded(&self.vm, meta, object) {
                    return self.is_copy_marked_and_counted(meta, object);
                } else {
                    return false;
                }
            }
            return RefCountHelper.count(meta, object) > 0 || object_forwarding::is_forwarded(
                &self.vm,
                meta,
                object,
            );
        }
        if self.is_marked(meta, object) {
            return true;
        }
        if !self.is_movable() {
            return false;
        }
        object_forwarding::is_forwarded(&self.vm, meta, object)
    }

    /// Whether an object is reachable.
    pub fn is_reachable(&self, meta: &HeapMetadata, object: ObjectReference) -> (reachable: bool)
        requires
            meta.wf(),
            meta@.in_heap(object.addr()),
            self@.forwarded(meta@, object.addr()) ==> meta@.in_heap(
                self@.copy_of(meta@, object.addr()).addr(),
            ),
        ensures
            reachable == self@.reachable(meta@, object.addr()),
    {
        if self.rc_enabled {
            if object_forwarding::is_forwarded(&self.vm, meta, object) {
                return self.is_copy_marked_and_counted(meta, object);
            }
            return self.is_marked(meta, object) && RefCountHelper.count(meta, object) > 0;
        }
        self.is_live(meta, object)
    }

    /// Pins an object. Returns true iff it was not pinned before.
    pub fn pin_object(&self, meta: &mut HeapMetadata, object: ObjectReference) -> (pinned: bool)
        requires
            old(meta).wf(),
            old(meta)@.in_heap(object.addr()),
        ensures
            final(meta).wf(),
            pinned == (old(meta)@.pin_bit[old(meta)@.cell(object.addr())] == 0),
            final(meta)@ == if pinned {
                MetadataView {
                    pin_bit: old(meta)@.pin_bit.update(old(meta)@.cell(object.addr()), 1),
                    ..old(meta)@
                }
            } else {
                old(meta)@
            },
    {
        let index: usize = meta.cell(object.0);
        meta.pin_bit.compare_exchange(index, 0, 1).is_ok()
    }

    /// Unpins an object. Returns true iff it was pinned before.
    pub fn unpin_object(&self, meta: &mut HeapMetadata, object: ObjectReference) -> (unpinned: bool)
        requires
            old(meta).wf(),
            old(meta)@.in_heap(object.addr()),
        ensures
            final(meta).wf(),
            unpinned == (old(meta)@.pin_bit[old(meta)@.cell(object.addr())] == 1),
            final(meta)@ == if unpinned {
                MetadataView {
                    pin_bit: old(meta)@.pin_bit.update(old(meta)@.cell(object.addr()), 0),
                    ..old(meta)@
                }
            } else {
                old(meta)@
            },
    {
        let index: usize = meta.cell(object.0);
        meta.pin_bit.compare_exchange(index, 1, 0).is_ok()
    }

    /// Whether an object is pinned. Nothing is pinned where the runtime has no pinning bit.
    fn is_pinned(&self, meta: &HeapMetadata, object: ObjectReference) -> (pinned: bool)
        requires
            meta.wf(),
            meta@.in_heap(object.addr()),
        ensures
            pinned == self@.pinned(meta@, object.addr()),
    {
        match self.vm.pinning_bit {
            Some(_) => self.is_object_pinned(meta, object),
            None => false,
        }
    }

    /// Whether an object carries the pinning bit.
    pub fn is_object_pinned(&self, meta: &HeapMetadata, object: ObjectReference) -> (pinned: bool)
        requires
            meta.wf(),
            meta@.in_heap(object.addr()),
        ensures
            pinned == (meta@.pin_bit[meta@.cell(object.addr())] == 1),
    {
        meta.pin_bit.load(meta.cell(object.0)) == 1
    }

    /// Takes note of a new object: a valid object starts there.
    pub fn initialize_object_metadata(&self, meta: &mut HeapMetadata, object: ObjectReference)
        requires
            old(meta).wf(),
            old(meta)@.in_heap(object.addr()),
        ensures
            final(meta).wf(),
            final(meta)@ == (MetadataView {
                vo_bit: old(meta)@.vo_bit.update(old(meta)@.cell(object.addr()), 1),
                ..old(meta)@
            }),
    {
        let index: usize = meta.cell(object.0);
        meta.vo_bit.store(index, 1);
    }

    /// Marks an object. Returns true iff it did not carry the mark before.
    fn attempt_mark(&self, meta: &mut HeapMetadata, object: ObjectReference, mark_state: u8) -> (first:
        bool)
        requires
            old(meta).wf(),
            old(meta)@.in_heap(object.addr()),
        ensures
            final(meta).wf(),
            first == lacks_mark(old(meta)@, object.addr(), mark_state),
            final(meta)@ == with_mark(old(meta)@, object.addr(), mark_state),
    {
        let index: usize = meta.cell(object.0);
        let old_value: u8 = meta.mark.load(index);
        if old_value == mark_state {
            assert(meta@.mark =~= meta@.mark.update(index as int, mark_state));
            return false;
        }
        meta.mark.store(index, mark_state);
        true
    }

    /// Marks an object that was not marked. Returns true iff this call did.
    pub fn attempt_mark_rc(&self, meta: &mut HeapMetadata, object: ObjectReference) -> (marked: bool)
        requires
            old(meta).wf(),
            old(meta)@.in_heap(object.addr()),
        ensures
            final(meta).wf(),
            marked == (old(meta)@.mark[old(meta)@.cell(object.addr())] == 0),
            final(meta)@ == if marked {
                with_mark(old(meta)@, object.addr(), 1)
            } else {
                old(meta)@
            },
    {
        let index: usize = meta.cell(object.0);
        meta.mark.compare_exchange(index, 0, 1).is_ok()
    }

    /// Removes the mark of a marked object. Returns true iff this call did.
    pub fn unmark_rc(&self, meta: &mut HeapMetadata, object: ObjectReference) -> (unmarked: bool)
        requires
            old(meta).wf(),
            old(meta)@.in_heap(object.addr()),
        ensures
            final(meta).wf(),
            unmarked == (old(meta)@.mark[old(meta)@.cell(object.addr())] == 1),
            final(meta)@ == if unmarked {
                with_mark(old(meta)@, object.addr(), 0)
            } else {
                old(meta)@
            },
    {
        let index: usize = meta.cell(object.0);
        meta.mark.compare_exchange(index, 1, 0).is_ok()
    }
}

impl ImmixSpaceView {
    /// The object at `address` is pinned.
    pub open spec fn pinned(self, m: MetadataView, address: int) -> bool {
        self.vm.pinning_bit is Some && m.pin_bit[m.cell(address)] == 1
    }
}

/// The tables with the mark of the object at `address` set to `value`.
pub open spec fn with_mark(m: MetadataView, address: int, value: u8) -> MetadataView {
    MetadataView { mark: m.mark.update(m.cell(address), value), ..m }
}

/// The object at `address` does not carry the mark `value`.
pub open spec fn lacks_mark(m: MetadataView, address: int, value: u8) -> bool {
    m.mark[m.cell(address)] != value
}

/// Of two attempts to mark an object, one after the other, the second one is not the first to mark
/// it, and changes nothing. The marks of objects in other cells stay as they are.
pub proof fn law_second_mark_changes_nothing(m: MetadataView, address: int, value: u8)
    requires
        m.wf(),
        m.in_heap(address),
    ensures
        ({
            let once = with_mark(m, address, value);
            &&& !lacks_mark(once, address, value)
            &&& with_mark(once, address, value) == once
            &&& forall|other: int, state: u8|
                m.in_heap(other) && m.cell(other) != m.cell(address) ==> #[trigger] lacks_mark(
                    once,
                    other,
                    state,
                ) == lacks_mark(m, other, state)
        }),
{
    let once = with_mark(m, address, value);
    assert(with_mark(once, address, value).mark =~= once.mark);
}

/// How a trace treats the objects of the space.
#[derive(Debug, Clone, Copy, PartialEq, Eq, Structural)]
pub enum TraceKind {
    /// Objects are marked where they are.
    Fast,
    /// Objects of the blocks that are being emptied are copied.
    Defrag,
    /// Objects are marked where they are, and so is everything they reach.
    TransitivePin,
    /// The trace of a plan that does not choose.
    Default,
}

/// The tables after the object at `address` became unlogged. The log bits of the eight objects
/// that share a byte are set together: objects that close are of one age.
pub open spec fn unlogged(m: MetadataView, address: int) -> MetadataView {
    let first = m.cell(address) / 8 * 8;
    MetadataView { log_bit: filled(m.log_bit, first, first + 8, UNLOGGED_VALUE), ..m }
}

/// The eight log bits that share a byte lie in the table.
proof fn lemma_log_byte_in_table(m: MetadataView, address: int)
    requires
        m.wf(),
        m.in_heap(address),
    ensures
        0 <= m.cell(address) / 8 * 8,
        m.cell(address) / 8 * 8 + 8 <= m.log_bit.len(),
{
}

impl ImmixSpaceView {
    /// The tables after the object at `address` was unlogged, where traced objects are.
    pub open spec fn unlogged_if_needed(self, m: MetadataView, address: int) -> MetadataView {
        if self.unlog_traced_object {
            unlogged(m, address)
        } else {
            m
        }
    }

    /// The space after `bytes` more bytes were found live.
    pub open spec fn with_live_bytes(self, bytes: usize) -> ImmixSpaceView {
        ImmixSpaceView { major_live_bytes: self.major_live_bytes.wrapping_add(bytes), ..self }
    }

    /// The tables after an object was copied to `address`. Where references are counted, the
    /// copy takes nothing from this step.
    pub open spec fn copied_to(self, m: MetadataView, address: int) -> MetadataView {
        if self.rc_enabled {
            m
        } else {
            self.unlogged_if_needed(with_mark(m, address, self.mark_state), address)
        }
    }

    /// A trace of the object at `address` goes on to its fields: it was not marked before, and
    /// it does not start in a line that an earlier object covers.
    pub open spec fn newly_visited(self, m: MetadataView, address: int) -> bool {
        !self.marked(m, address) && !(self.rc_enabled && m.straddle[m.line(address)] != 0)
    }

    /// The object at `address` stays where it is although its block is being emptied: it is
    /// pinned, or the space for copies ran out.
    pub open spec fn stays(self, m: MetadataView, address: int, nursery: bool) -> bool {
        self.pinned(m, address) || (!nursery && self.defrag.space_exhausted)
    }
}

/// An object was marked where it is: `s`, `m` and `q` are the space, the tables and the queue
/// before, and `s2`, `m2` and `q2` those after. An object that was not marked before is marked and
/// counted as live; if its fields are to be visited it is queued, and unlogged where traced
/// objects are.
pub open spec fn traced_in_place(
    s: ImmixSpaceView,
    s2: ImmixSpaceView,
    m: MetadataView,
    m2: MetadataView,
    q: Seq<ObjectReference>,
    q2: Seq<ObjectReference>,
    object: ObjectReference,
    size: usize,
) -> bool {
    let address = object.addr();
    if s.marked(m, address) {
        s2 == s && m2 == m && q2 == q
    } else if s.newly_visited(m, address) {
        &&& s2 == s.with_live_bytes(size)
        &&& m2 == s.unlogged_if_needed(with_mark(m, address, s.mark_state), address)
        &&& q2 == q.push(object)
    } else {
        &&& s2 == s.with_live_bytes(size)
        &&& m2 == with_mark(m, address, s.mark_state)
        &&& q2 == q
    }
}

/// An object of a block that is being emptied was traced with the result `result`. `copy` is the
/// function that copies an object.
pub open spec fn traced_with_copy<F: FnOnce(ObjectReference) -> (ObjectReference, usize)>(
    copy: F,
    nursery_collection: bool,
    s: ImmixSpaceView,
    s2: ImmixSpaceView,
    m: MetadataView,
    m2: MetadataView,
    q: Seq<ObjectReference>,
    q2: Seq<ObjectReference>,
    object: ObjectReference,
    size: usize,
    result: ObjectReference,
) -> bool {
    let address = object.addr();
    let bits = status(s.vm, m, address);
    if bits != FORWARDING_NOT_TRIGGERED_YET {
        &&& result == (if bits == FORWARDED {
            s.copy_of(m, address)
        } else {
            object
        })
        &&& s2 == s && m2 == m && q2 == q
    } else if s.marked(m, address) {
        result == object && s2 == s && m2 == m && q2 == q
    } else if s.stays(m, address, nursery_collection) {
        &&& result == object
        &&& s2 == s.with_live_bytes(size)
        &&& m2 == s.unlogged_if_needed(
            MetadataView {
                block_mark: m.block_mark.update(m.block(address), BlockState::Marked.to_byte()),
                ..with_mark(m, address, s.mark_state)
            },
            address,
        )
        &&& q2 == q.push(object)
    } else {
        exists|new: (ObjectReference, usize)| #[trigger]
            call_ensures(copy, (object,), new) && result == new.0 && s2 == s.with_live_bytes(new.1)
                && m2 == forwarded(s.vm, s.copied_to(m, new.0.addr()), address, new.0) && q2
                == q.push(new.0)
    }
}

impl ImmixSpace {
    /// Adds to the bytes found live by the current major collection.
    fn add_major_live_bytes(&mut self, bytes: usize)
        ensures
            final(self)@ == old(self)@.with_live_bytes(bytes),
    {
        self.major_live_bytes = self.major_live_bytes.wrapping_add(bytes);
    }

    /// Makes an object unlogged, where traced objects are.
    fn unlog_object_if_needed(&self, meta: &mut HeapMetadata, object: ObjectReference)
        requires
            old(meta).wf(),
            old(meta)@.in_heap(object.addr()),
        ensures
            final(meta).wf(),
            final(meta)@ == self@.unlogged_if_needed(old(meta)@, object.addr()),
    {
        if self.unlog_traced_object {
            proof {
                lemma_log_byte_in_table(meta@, object.addr());
            }
            let first: usize = meta.cell(object.0) / 8 * 8;
            meta.log_bit.fill(first, first + 8, UNLOGGED_VALUE);
        }
    }

    /// Marks the lines that an object of `size` bytes touches. Where references are counted,
    /// lines carry no marks.
    pub fn mark_lines(&self, meta: &mut HeapMetadata, object: ObjectReference, size: usize)
        requires
            old(meta).wf(),
            old(meta)@.in_heap(object.addr()),
            object.addr() + size <= old(meta)@.end(),
        ensures
            final(meta).wf(),
            final(meta)@ == if self@.rc_enabled {
                old(meta)@
            } else {
                MetadataView {
                    line_mark: filled(
                        old(meta)@.line_mark,
                        first_line(old(meta)@, object.addr()),
                        last_line(old(meta)@, object.addr(), size as int),
                        self@.line_mark_state,
                    ),
                    ..old(meta)@
                }
            },
    {
        if self.rc_enabled {
            return;
        }
        let _count: usize = Line::mark_lines_for_object(meta, object, size, self.line_mark_state);
    }

    /// Marks the lines of an object when its fields are scanned.
    pub fn post_scan_object(&self, meta: &mut HeapMetadata, objects: &ObjectModel, object: ObjectReference)
        requires
            old(meta).wf(),
            old(meta)@.in_heap(object.addr()),
            object.addr() + objects.size(object.0.0) <= old(meta)@.end(),
        ensures
            final(meta).wf(),
            final(meta)@ == if self@.rc_enabled {
                old(meta)@
            } else {
                MetadataView {
                    line_mark: filled(
                        old(meta)@.line_mark,
                        first_line(old(meta)@, object.addr()),
                        last_line(old(meta)@, object.addr(), objects.size(object.0.0) as int),
                        self@.line_mark_state,
                    ),
                    ..old(meta)@
                }
            },
    {
        self.mark_lines(meta, object, objects.get_current_size(object));
    }

    /// Marks a copy and makes it unlogged, where traced objects are.
    pub fn post_copy(&self, meta: &mut HeapMetadata, object: ObjectReference)
        requires
            old(meta).wf(),
            old(meta)@.in_heap(object.addr()),
        ensures
            final(meta).wf(),
            final(meta)@ == self@.copied_to(old(meta)@, object.addr()),
    {
        if self.rc_enabled {
            return;
        }
        let index: usize = meta.cell(object.0);
        meta.mark.store(index, self.mark_state);
        self.unlog_object_if_needed(meta, object);
    }

    /// Marks an object where it is. An object that was not marked before is added to the queue,
    /// so that its fields are visited.
    pub fn trace_object_without_moving(
        &mut self,
        meta: &mut HeapMetadata,
        objects: &ObjectModel,
        queue: &mut Vec<ObjectReference>,
        object: ObjectReference,
    ) -> (result: ObjectReference)
        requires
            old(meta).wf(),
            old(meta)@.in_heap(object.addr()),
        ensures
            final(meta).wf(),
            result == object,
            traced_in_place(
                old(self)@,
                final(self)@,
                old(meta)@,
                final(meta)@,
                old(queue)@,
                final(queue)@,
                object,
                objects.size(object.0.0),
            ),
    {
        let mark_state: u8 = self.mark_state;
        if self.attempt_mark(meta, object, mark_state) {
            self.add_major_live_bytes(objects.get_current_size(object));
            if self.rc_enabled {
                let line: Line = Line::from_aligned_address(Line::align(object.0));
                if RefCountHelper.is_straddle_line(meta, line) {
                    return object;
                }
            }
            queue.push(object);
            self.unlog_object_if_needed(meta, object);
            return object;
        }
        proof {
            assert(meta@.mark =~= old(meta)@.mark);
        }
        object
    }

    /// Traces an object of a block that is being emptied. An object that was copied before is
    /// replaced by its copy, and one that was marked stays. Any other is copied by `copy`, which
    /// returns the copy and its size, unless it must stay; then it is marked in place. What was
    /// not traced before is added to the queue.
    pub fn trace_object_with_opportunistic_copy<
        F: FnOnce(ObjectReference) -> (ObjectReference, usize),
    >(
        &mut self,
        meta: &mut HeapMetadata,
        objects: &ObjectModel,
        queue: &mut Vec<ObjectReference>,
        object: ObjectReference,
        nursery_collection: bool,
        copy: F,
    ) -> (result: ObjectReference)
        requires
            old(meta).wf(),
            old(meta)@.in_heap(object.addr()),
            status(old(self)@.vm, old(meta)@, object.addr()) != BEING_FORWARDED,
            call_requires(copy, (object,)),
            forall|new: (ObjectReference, usize)| #[trigger]
                call_ensures(copy, (object,), new) ==> old(meta)@.in_heap(new.0.addr()),
        ensures
            final(meta).wf(),
            traced_with_copy(
                copy,
                nursery_collection,
                old(self)@,
                final(self)@,
                old(meta)@,
                final(meta)@,
                old(queue)@,
                final(queue)@,
                object,
                objects.size(object.0.0),
                result,
            ),
    {
        let ghost m: MetadataView = meta@;
        let ghost s: ImmixSpaceView = self@;
        let vm: VmConfig = self.vm;
        let forwarding_status: u8 = object_forwarding::attempt_to_forward(&vm, meta, object);
        if object_forwarding::state_is_forwarded_or_being_forwarded(forwarding_status) {
            return object_forwarding::spin_and_get_forwarded_object(
                &vm,
                meta,
                object,
                forwarding_status,
            );
        }
        let ghost claimed: MetadataView = meta@;
        if self.is_marked(meta, object) {
            object_forwarding::clear_forwarding_bits(&vm, meta, object);
            proof {
                lemma_claim_given_up(vm, m, claimed, meta@, object.addr());
            }
            return object;
        }
        if self.is_pinned(meta, object) || (!nursery_collection && self.defrag.space_exhausted()) {
            let mark_state: u8 = self.mark_state;
            object_forwarding::clear_forwarding_bits(&vm, meta, object);
            proof {
                lemma_claim_given_up(vm, m, claimed, meta@, object.addr());
            }
            if self.attempt_mark(meta, object, mark_state) {
                self.add_major_live_bytes(objects.get_current_size(object));
            }
            Block::from_unaligned_address(object.0).set_state(meta, BlockState::Marked);
            self.unlog_object_if_needed(meta, object);
            queue.push(object);
            return object;
        }
        let new: (ObjectReference, usize) = copy(object);
        assert(call_ensures(copy, (object,), new));
        self.post_copy(meta, new.0);
        self.add_major_live_bytes(new.1);
        let result: ObjectReference = object_forwarding::set_forwarded(&vm, meta, object, new.0);
        queue.push(result);
        proof {
            let direct = forwarded(s.vm, s.copied_to(m, new.0.addr()), object.addr(), new.0);
            let i = m.cell(object.addr());
            assert(m.cell(object.addr()) == claimed.cell(object.addr()));
            assert(m.cell(new.0.addr()) == claimed.cell(new.0.addr()));
            assert(meta@.forwarding_word =~= direct.forwarding_word) by {
                if bits_shift(vm) is None {
                    assert(claimed.forwarding_word[i] == m.forwarding_word[i]);
                }
            }
            assert(meta@.forwarding_bits =~= direct.forwarding_bits);
            assert(meta@ =~= direct);
        }
        result
    }

    /// Traces an object as the kind of the trace demands. `copy` copies an object, and returns the
    /// copy and its size.
    pub fn trace_object<F: FnOnce(ObjectReference) -> (ObjectReference, usize)>(
        &mut self,
        meta: &mut HeapMetadata,
        objects: &ObjectModel,
        queue: &mut Vec<ObjectReference>,
        object: ObjectReference,
        kind: TraceKind,
        copy: F,
    ) -> (result: ObjectReference)
        requires
            old(meta).wf(),
            old(meta)@.in_heap(object.addr()),
            kind != TraceKind::Default,
            status(old(self)@.vm, old(meta)@, object.addr()) != BEING_FORWARDED,
            call_requires(copy, (object,)),
            forall|new: (ObjectReference, usize)| #[trigger]
                call_ensures(copy, (object,), new) ==> old(meta)@.in_heap(new.0.addr()),
        ensures
            final(meta).wf(),
            if kind == TraceKind::Defrag && old(meta)@.block_defrag[old(meta)@.block(
                object.addr(),
            )] == 255 {
                traced_with_copy(
                    copy,
                    false,
                    old(self)@,
                    final(self)@,
                    old(meta)@,
                    final(meta)@,
                    old(queue)@,
                    final(queue)@,
                    object,
                    objects.size(object.0.0),
                    result,
                )
            } else {
                result == object && traced_in_place(
                    old(self)@,
                    final(self)@,
                    old(meta)@,
                    final(meta)@,
                    old(queue)@,
                    final(queue)@,
                    object,
                    objects.size(object.0.0),
                )
            },
    {
        if kind == TraceKind::Defrag && Block::from_unaligned_address(object.0).is_defrag_source(
            meta,
        ) {
            self.trace_object_with_opportunistic_copy(meta, objects, queue, object, false, copy)
        } else {
            self.trace_object_without_moving(meta, objects, queue, object)
        }
    }

    /// Whether a trace of the given kind may move objects.
    pub fn may_move_objects(kind: TraceKind) -> (may: bool)
        ensures
            may == (kind == TraceKind::Defrag),
    {
        kind == TraceKind::Defrag
    }
}

/// Giving up a claim on an object restores the tables as they were before the claim.
proof fn lemma_claim_given_up(
    vm: VmConfig,
    m: MetadataView,
    claimed: MetadataView,
    after: MetadataView,
    address: int,
)
    requires
        m.wf(),
        m.in_heap(address),
        status(vm, m, address) == FORWARDING_NOT_TRIGGERED_YET,
        claimed == if vm.single_tracer {
            m
        } else {
            with_bits(vm, m, address, BEING_FORWARDED)
        },
        after == if sentinel_active(vm) {
            claimed
        } else {
            with_bits(vm, claimed, address, 0)
        },
    ensures
        after == m,
{
    if !sentinel_active(vm) {
        let i = m.cell(address);
        match bits_shift(vm) {
            Some(shift) => {
                let s = shift as u64;
                let w = m.forwarding_word[i];
                let c = claimed.forwarding_word[i];
                assert(((w >> s) & 3u64) < 256u64 && (((w >> s) & 3u64) as u8 == 0u8 ==> (w >> s)
                    & 3u64 == 0)) by (bit_vector);
                assert((w & !(3u64 << s)) | (0u64 << s) == w) by (bit_vector)
                    requires
                        s < 64,
                        (w >> s) & 3u64 == 0,
                ;
                assert((((w & !(3u64 << s)) | (2u64 << s)) & !(3u64 << s)) | (0u64 << s) == w)
                    by (bit_vector)
                    requires
                        s < 64,
                        (w >> s) & 3u64 == 0,
                ;
                assert(after.forwarding_word =~= m.forwarding_word);
            },
            None => {
                assert(after.forwarding_bits =~= m.forwarding_bits);
            },
        }
        assert(after =~= m);
    }
}

/// An object is visited once: where a trace meets it again, nothing changes.
pub proof fn law_object_is_visited_once(
    s: ImmixSpaceView,
    s2: ImmixSpaceView,
    s3: ImmixSpaceView,
    m: MetadataView,
    m2: MetadataView,
    m3: MetadataView,
    q: Seq<ObjectReference>,
    q2: Seq<ObjectReference>,
    q3: Seq<ObjectReference>,
    object: ObjectReference,
    size: usize,
    size_again: usize,
)
    requires
        m.wf(),
        m.in_heap(object.addr()),
        traced_in_place(s, s2, m, m2, q, q2, object, size),
        traced_in_place(s2, s3, m2, m3, q2, q3, object, size_again),
    ensures
        s3 == s2,
        m3 == m2,
        q3 == q2,
{
}

/// An object that a trace has met is live, where marks decide.
pub proof fn law_traced_object_is_live(
    s: ImmixSpaceView,
    s2: ImmixSpaceView,
    m: MetadataView,
    m2: MetadataView,
    q: Seq<ObjectReference>,
    q2: Seq<ObjectReference>,
    object: ObjectReference,
    size: usize,
)
    requires
        m.wf(),
        m.in_heap(object.addr()),
        !s.rc_enabled,
        traced_in_place(s, s2, m, m2, q, q2, object, size),
    ensures
        s2.live(m2, object.addr()),
{
}

/// An object is copied or marked once: where a trace that copies meets it again, the result is the
/// same and nothing changes. A copy must fit into the forwarding pointer.
pub proof fn law_object_is_copied_once<
    F: FnOnce(ObjectReference) -> (ObjectReference, usize),
    G: FnOnce(ObjectReference) -> (ObjectReference, usize),
>(
    copy: F,
    copy_again: G,
    nursery: bool,
    nursery_again: bool,
    s: ImmixSpaceView,
    s2: ImmixSpaceView,
    s3: ImmixSpaceView,
    m: MetadataView,
    m2: MetadataView,
    m3: MetadataView,
    q: Seq<ObjectReference>,
    q2: Seq<ObjectReference>,
    q3: Seq<ObjectReference>,
    object: ObjectReference,
    size: usize,
    size_again: usize,
    result: ObjectReference,
    result_again: ObjectReference,
)
    requires
        m.wf(),
        m.in_heap(object.addr()),
        forall|new: (ObjectReference, usize)| #[trigger]
            call_ensures(copy, (object,), new) ==> m.in_heap(new.0.addr()) && can_hold(s.vm, new.0),
        traced_with_copy(copy, nursery, s, s2, m, m2, q, q2, object, size, result),
        traced_with_copy(
            copy_again,
            nursery_again,
            s2,
            s3,
            m2,
            m3,
            q2,
            q3,
            object,
            size_again,
            result_again,
        ),
    ensures
        result_again == result,
        s3 == s2,
        m3 == m2,
        q3 == q2,
{
    let address = object.addr();
    if status(s.vm, m, address) == FORWARDING_NOT_TRIGGERED_YET && !s.marked(m, address)
        && !s.stays(m, address, nursery) {
        let new = choose|new: (ObjectReference, usize)| #[trigger]
            call_ensures(copy, (object,), new) && result == new.0 && s2 == s.with_live_bytes(new.1)
                && m2 == forwarded(s.vm, s.copied_to(m, new.0.addr()), address, new.0) && q2
                == q.push(new.0);
        law_forwarded_object_is_found(s.vm, s.copied_to(m, new.0.addr()), address, new.0);
    }
}

impl ImmixSpace {
    /// Makes what workers released available to all.
    pub fn flush_page_resource(&mut self)
        ensures
            final(self)@ == old(self)@.flushed(),
    {
        self.reusable_blocks.flush_all();
        if usize::BITS == 64 {
            self.pr.flush_all();
        }
    }

    /// Whether the space can defragment.
    pub fn is_defrag_enabled(&self) -> (enabled: bool)
        ensures
            enabled == !self@.space_args.never_move_objects,
    {
        !self.space_args.never_move_objects
    }
}

/// The metadata tables that a space registers.
#[derive(Debug, Clone, Copy, PartialEq, Eq, Structural)]
pub enum SideMetadataSpec {
    /// The line marks.
    LineMark,
    /// The defrag states of blocks.
    BlockDefrag,
    /// The mark states of blocks.
    BlockMark,
    /// The mark bits of objects.
    MarkBit,
    /// The forwarding bits of objects.
    ForwardingBits,
    /// The forwarding pointers of objects.
    ForwardingPointer,
    /// The pinning bits of objects.
    PinningBit,
    /// The straddle marks of lines.
    RcStraddleLines,
    /// The log bits of blocks.
    BlockLog,
    /// The promotion states of blocks.
    NurseryPromotionState,
    /// The phases of blocks.
    PhaseEpoch,
    /// The reuse counts of lines.
    LineReuseCount,
}

/// `spec` alone, if the runtime keeps that metadata on the side.
pub open spec fn if_on_side(location: MetadataLocation, spec: SideMetadataSpec) -> Seq<
    SideMetadataSpec,
> {
    if location is OnSide {
        seq![spec]
    } else {
        Seq::empty()
    }
}

/// The tables of the object metadata that the runtime keeps on the side.
pub open spec fn object_specs(vm: VmConfig) -> Seq<SideMetadataSpec> {
    if_on_side(vm.mark_bit, SideMetadataSpec::MarkBit) + if_on_side(
        vm.forwarding_bits,
        SideMetadataSpec::ForwardingBits,
    ) + if_on_side(vm.forwarding_pointer, SideMetadataSpec::ForwardingPointer) + (
    match vm.pinning_bit {
        Some(location) => if_on_side(location, SideMetadataSpec::PinningBit),
        None => Seq::empty(),
    })
}

/// The tables of reference counting.
pub open spec fn rc_specs() -> Seq<SideMetadataSpec> {
    seq![
        SideMetadataSpec::RcStraddleLines,
        SideMetadataSpec::BlockLog,
        SideMetadataSpec::NurseryPromotionState,
        SideMetadataSpec::PhaseEpoch,
        SideMetadataSpec::LineReuseCount,
    ]
}

/// The tables that an Immix space registers: those of lines and blocks, those of object metadata
/// that the runtime keeps on the side, and those of reference counting where the space counts.
pub open spec fn registered_specs(vm: VmConfig, rc_enabled: bool) -> Seq<SideMetadataSpec> {
    seq![SideMetadataSpec::LineMark, SideMetadataSpec::BlockDefrag, SideMetadataSpec::BlockMark]
        + object_specs(vm) + (if rc_enabled {
        rc_specs()
    } else {
        Seq::empty()
    })
}

/// What a plan says of the space that it makes.
#[derive(Debug, Clone, Copy, PartialEq, Eq, Structural)]
pub struct PlanCreateSpaceArgs {
    /// Whether traced objects become unlogged.
    pub unlog_traced_object: bool,
    /// Whether the plan uses log bits.
    pub needs_log_bit: bool,
    /// Whether the plan counts references.
    pub rc_enabled: bool,
    /// Whether no Immix space moves objects, whatever its settings.
    pub force_non_moving: bool,
    /// The number of chunks in the heap.
    pub chunks: usize,
    /// The number of workers.
    pub num_workers: usize,
    /// Whether every collection defragments.
    pub always_defrag: bool,
    /// Whether every block in use is a source when the space defragments.
    pub defrag_every_block: bool,
    /// Whether frees are checked.
    pub track_frees: bool,
    /// The runtime's layout of metadata.
    pub vm: VmConfig,
}

/// The space that a plan makes: it is empty.
pub open spec fn new_space(args: PlanCreateSpaceArgs, space_args: ImmixSpaceArgs) -> ImmixSpaceView {
    ImmixSpaceView {
        chunk_map: Seq::new(args.chunks as nat, |i: int| false),
        pr: PageResourceView { pending: Seq::empty(), free: Seq::empty() },
        line_mark_state: 1,
        line_unavail_state: 1,
        reusable_blocks: ReusablePoolView {
            pending: Seq::empty(),
            shared: Seq::empty(),
            workers: args.num_workers,
        },
        swept_live_blocks: 0,
        defrag: DefragView {
            in_defrag: false,
            compact_all: false,
            space_exhausted: false,
            spill_threshold: 0,
            mark_histograms: Seq::empty(),
            clean_blocks_for_copies: 0,
        },
        madvise_freed_this_gc: false,
        major_live_bytes: 0,
        lines_consumed: 0,
        mark_state: 1,
        num_workers: args.num_workers,
        space_args: ImmixSpaceArgs {
            never_move_objects: space_args.never_move_objects || args.force_non_moving,
            ..space_args
        },
        rc_enabled: args.rc_enabled,
        is_end_of_satb_or_full_gc: false,
        block_allocation: BlockAllocationView {
            nursery_blocks: Seq::empty(),
            in_place_promoted_nursery_blocks: 0,
        },
        possibly_dead_mature_blocks: Seq::empty(),
        num_clean_blocks_released_young: 0,
        num_clean_blocks_released_mature: 0,
        num_clean_blocks_released_lazy: 0,
        copy_alloc_bytes: 0,
        reused_lines_consumed: 0,
        unlog_traced_object: args.unlog_traced_object,
        always_defrag: args.always_defrag,
        defrag_every_block: args.defrag_every_block,
        vm: args.vm,
        track_frees: args.track_frees,
        free_blocks: Set::empty(),
    }
}

impl ImmixSpaceView {
    /// The space after it was decided whether the current collection defragments. A request for a
    /// compaction outweighs the decision, if the space can defragment.
    pub open spec fn defrag_decided(self, decided: bool) -> ImmixSpaceView {
        ImmixSpaceView {
            defrag: DefragView {
                in_defrag: decided || (!self.space_args.never_move_objects
                    && self.defrag.compact_all),
                ..self.defrag
            },
            ..self
        }
    }

    /// What the decision whether to defragment goes by.
    pub open spec fn defrag_inputs(
        self,
        emergency_collection: bool,
        collect_whole_heap: bool,
        collection_attempts: usize,
        user_triggered_collection: bool,
        full_heap_system_gc: bool,
    ) -> DefragInputs {
        DefragInputs {
            defrag_enabled: !self.space_args.never_move_objects,
            emergency_collection,
            collect_whole_heap,
            collection_attempts,
            user_triggered_collection,
            exhausted_reusable_space: self.reusable_blocks.all().len() == 0,
            full_heap_system_gc,
            always_defrag: self.always_defrag,
            rc_enabled: self.rc_enabled,
        }
    }

    /// The space after the end of a collection.
    pub open spec fn collection_ended(self) -> ImmixSpaceView {
        if self.space_args.never_move_objects {
            self
        } else {
            ImmixSpaceView { defrag: self.defrag.ended(), ..self }
        }
    }

    /// The space after a compaction was asked for.
    pub open spec fn compaction_requested(self) -> ImmixSpaceView {
        ImmixSpaceView { defrag: DefragView { compact_all: true, ..self.defrag }, ..self }
    }
}

/// One request for a compaction leads to one. Whatever is decided for the next collection, it
/// defragments and takes every block in use as a source; a collection after it does not, unless
/// a compaction is asked for again.
pub proof fn law_compaction_happens_once(
    s: ImmixSpaceView,
    decided: bool,
    spill_threshold: Option<usize>,
    decided_later: bool,
)
    requires
        !s.space_args.never_move_objects,
    ensures
        ({
            let collecting = s.compaction_requested().defrag_decided(decided);
            let done = collecting.prepared(true, spill_threshold).released(
                true,
            ).collection_ended();
            let later = done.defrag_decided(decided_later);
            &&& collecting.compacts_all()
            &&& !done.defrag.compact_all
            &&& !done.defrag.in_defrag
            &&& later.defrag.in_defrag == decided_later
            &&& !later.compacts_all()
        }),
{
}

/// A request for a compaction outlasts a collection that does not defragment.
pub proof fn law_compaction_request_waits(s: ImmixSpaceView)
    requires
        !s.defrag.in_defrag,
    ensures
        s.compaction_requested().collection_ended().defrag.compact_all,
{
}

/// What decides whether a collection defragments.
#[derive(Debug, Clone, Copy, PartialEq, Eq, Structural)]
pub struct DefragInputs {
    /// The space can defragment.
    pub defrag_enabled: bool,
    /// The collection is an emergency.
    pub emergency_collection: bool,
    /// The whole heap is collected.
    pub collect_whole_heap: bool,
    /// How often the collection was attempted.
    pub collection_attempts: usize,
    /// The user asked for the collection.
    pub user_triggered_collection: bool,
    /// There is no reusable block.
    pub exhausted_reusable_space: bool,
    /// Collections that the user asks for collect the whole heap.
    pub full_heap_system_gc: bool,
    /// Every collection defragments.
    pub always_defrag: bool,
    /// The space counts references.
    pub rc_enabled: bool,
}

impl ImmixSpace {
    /// Adds `spec` to `specs` if the runtime keeps that metadata on the side.
    fn push_if_on_side(
        specs: &mut Vec<SideMetadataSpec>,
        location: MetadataLocation,
        spec: SideMetadataSpec,
    )
        ensures
            final(specs)@ == old(specs)@ + if_on_side(location, spec),
    {
        if let MetadataLocation::OnSide = location {
            specs.push(spec);
        }
    }

    /// Adds the tables of the object metadata that the runtime keeps on the side.
    fn push_object_specs(specs: &mut Vec<SideMetadataSpec>, vm: &VmConfig)
        ensures
            final(specs)@ == old(specs)@ + object_specs(*vm),
    {
        let ghost before: Seq<SideMetadataSpec> = specs@;
        Self::push_if_on_side(specs, vm.mark_bit, SideMetadataSpec::MarkBit);
        Self::push_if_on_side(specs, vm.forwarding_bits, SideMetadataSpec::ForwardingBits);
        Self::push_if_on_side(specs, vm.forwarding_pointer, SideMetadataSpec::ForwardingPointer);
        if let Some(location) = vm.pinning_bit {
            Self::push_if_on_side(specs, location, SideMetadataSpec::PinningBit);
        }
        assert(specs@ =~= before + object_specs(*vm));
    }

    /// Adds the tables of reference counting.
    fn push_rc_specs(specs: &mut Vec<SideMetadataSpec>)
        ensures
            final(specs)@ == old(specs)@ + rc_specs(),
    {
        specs.push(SideMetadataSpec::RcStraddleLines);
        specs.push(SideMetadataSpec::BlockLog);
        specs.push(SideMetadataSpec::NurseryPromotionState);
        specs.push(SideMetadataSpec::PhaseEpoch);
        specs.push(SideMetadataSpec::LineReuseCount);
    }

    /// The tables that an Immix space registers.
    pub fn side_metadata_specs(vm: &VmConfig, rc_enabled: bool) -> (specs: Vec<SideMetadataSpec>)
        ensures
            specs@ == registered_specs(*vm, rc_enabled),
    {
        let mut specs: Vec<SideMetadataSpec> = Vec::new();
        specs.push(SideMetadataSpec::LineMark);
        specs.push(SideMetadataSpec::BlockDefrag);
        specs.push(SideMetadataSpec::BlockMark);
        assert(specs@ =~= seq![
            SideMetadataSpec::LineMark,
            SideMetadataSpec::BlockDefrag,
            SideMetadataSpec::BlockMark,
        ]);
        Self::push_object_specs(&mut specs, vm);
        if rc_enabled {
            Self::push_rc_specs(&mut specs);
        }
        specs
    }

    /// An empty space.
    pub fn new(args: PlanCreateSpaceArgs, space_args: ImmixSpaceArgs) -> (space: Self)
        requires
            args.unlog_traced_object ==> args.needs_log_bit,
        ensures
            space@ == new_space(args, space_args),
    {
        let mut space_args: ImmixSpaceArgs = space_args;
        if args.force_non_moving && !space_args.never_move_objects {
            space_args.never_move_objects = true;
        }
        ImmixSpace {
            chunk_map: ChunkMap::new(args.chunks),
            pr: BlockPageResource::new(),
            line_mark_state: Line::RESET_MARK_STATE,
            line_unavail_state: Line::RESET_MARK_STATE,
            reusable_blocks: ReusableBlockPool::new(args.num_workers),
            swept_live_blocks: 0,
            defrag: Defrag::new(),
            madvise_freed_this_gc: false,
            major_live_bytes: 0,
            lines_consumed: 0,
            mark_state: 1,
            num_workers: args.num_workers,
            space_args,
            rc_enabled: args.rc_enabled,
            is_end_of_satb_or_full_gc: false,
            block_allocation: BlockAllocation::new(),
            possibly_dead_mature_blocks: new_block_queue(),
            num_clean_blocks_released_young: 0,
            num_clean_blocks_released_mature: 0,
            num_clean_blocks_released_lazy: 0,
            copy_alloc_bytes: 0,
            reused_lines_consumed: 0,
            unlog_traced_object: args.unlog_traced_object,
            always_defrag: args.always_defrag,
            defrag_every_block: args.defrag_every_block,
            vm: args.vm,
            track_frees: args.track_frees,
            free_blocks: HashSet::new(),
        }
    }

    /// Pages worth of the lines that mutators took in reused blocks.
    pub fn get_mutator_recycled_lines_in_pages(&self) -> (pages: usize)
        ensures
            pages == self@.reused_lines_consumed / 16,
    {
        self.reused_lines_consumed / (BYTES_IN_PAGE / BYTES_IN_LINE)
    }

    /// Pages worth of the lines that were taken since the last collection.
    pub fn get_pages_allocated(&self) -> (pages: usize)
        ensures
            pages == self@.lines_consumed / 16,
    {
        self.lines_consumed / (BYTES_IN_PAGE / BYTES_IN_LINE)
    }

    /// Whether nursery collections copy.
    pub fn is_nursery_copy_enabled(&self, non_moving_nursery: bool) -> (enabled: bool)
        ensures
            enabled == (!self@.space_args.never_move_objects && !non_moving_nursery),
    {
        !self.space_args.never_move_objects && !non_moving_nursery
    }

    /// Whether nursery collections copy by preference.
    pub fn prefer_copy_on_nursery_gc(&self, non_moving_nursery: bool) -> (prefer: bool)
        ensures
            prefer == (!self@.space_args.never_move_objects && !non_moving_nursery),
    {
        self.is_nursery_copy_enabled(non_moving_nursery)
    }

    /// Whether the last collection reclaimed all that it could. Without defragmentation every
    /// collection does.
    pub fn is_last_gc_exhaustive(&self, did_defrag_for_last_gc: bool) -> (exhaustive: bool)
        ensures
            exhaustive == (self@.space_args.never_move_objects || did_defrag_for_last_gc),
    {
        if self.is_defrag_enabled() {
            did_defrag_for_last_gc
        } else {
            true
        }
    }

    /// Whether the current collection defragments.
    pub fn in_defrag(&self) -> (in_defrag: bool)
        ensures
            in_defrag == self@.defrag.in_defrag,
    {
        self.defrag.in_defrag()
    }

    /// What the decision whether to defragment goes by.
    fn current_defrag_inputs(
        &self,
        emergency_collection: bool,
        collect_whole_heap: bool,
        collection_attempts: usize,
        user_triggered_collection: bool,
        full_heap_system_gc: bool,
    ) -> (inputs: DefragInputs)
        ensures
            inputs == self@.defrag_inputs(
                emergency_collection,
                collect_whole_heap,
                collection_attempts,
                user_triggered_collection,
                full_heap_system_gc,
            ),
    {
        DefragInputs {
            defrag_enabled: self.is_defrag_enabled(),
            emergency_collection,
            collect_whole_heap,
            collection_attempts,
            user_triggered_collection,
            exhausted_reusable_space: self.reusable_blocks.len() == 0,
            full_heap_system_gc,
            always_defrag: self.always_defrag,
            rc_enabled: self.rc_enabled,
        }
    }

    /// Takes the decision over, which a request for a compaction outweighs.
    fn apply_defrag_decision(&mut self, decided: bool)
        ensures
            final(self)@ == old(self)@.defrag_decided(decided),
    {
        let compacts: bool = self.is_defrag_enabled() && self.defrag.compact_all_active();
        self.defrag.in_defrag = decided || compacts;
    }

    /// Decides, by `decide`, whether the current collection defragments. Where a compaction was
    /// asked for, it does if the space can.
    pub fn decide_whether_to_defrag<F: FnOnce(DefragInputs) -> bool>(
        &mut self,
        emergency_collection: bool,
        collect_whole_heap: bool,
        collection_attempts: usize,
        user_triggered_collection: bool,
        full_heap_system_gc: bool,
        decide: F,
    ) -> (in_defrag: bool)
        requires
            forall|inputs: DefragInputs| call_requires(decide, (inputs,)),
        ensures
            exists|decided: bool|
                {
                    &&& #[trigger] call_ensures(
                        decide,
                        (old(self)@.defrag_inputs(
                            emergency_collection,
                            collect_whole_heap,
                            collection_attempts,
                            user_triggered_collection,
                            full_heap_system_gc,
                        ),),
                        decided,
                    )
                    &&& final(self)@ == old(self)@.defrag_decided(decided)
                },
            in_defrag == final(self)@.defrag.in_defrag,
    {
        let inputs: DefragInputs = self.current_defrag_inputs(
            emergency_collection,
            collect_whole_heap,
            collection_attempts,
            user_triggered_collection,
            full_heap_system_gc,
        );
        let decided: bool = decide(inputs);
        assert(call_ensures(decide, (inputs,), decided));
        self.apply_defrag_decision(decided);
        self.defrag.in_defrag()
    }

    /// Ends a collection. A request for a compaction ends with the collection that defragmented.
    /// Returns whether this one did.
    pub fn end_of_gc(&mut self) -> (did_defrag: bool)
        ensures
            did_defrag == old(self)@.defrag.in_defrag,
            final(self)@ == old(self)@.collection_ended(),
    {
        let did_defrag: bool = self.defrag.in_defrag();
        if self.is_defrag_enabled() {
            self.defrag.reset_in_defrag();
        }
        did_defrag
    }

    /// Asks that the next collection for which it is decided whether to defragment does, if the
    /// space can, and takes every block in use as a source.
    pub fn request_compact_all(&mut self)
        ensures
            final(self)@ == old(self)@.compaction_requested(),
    {
        self.defrag.request_compact_all();
    }

    /// Bytes that the last major collection found live.
    pub fn major_live_bytes(&self) -> (bytes: usize)
        ensures
            bytes == self@.major_live_bytes,
    {
        self.major_live_bytes
    }

    /// How many of the live blocks are only partly taken, and how many live blocks there are.
    pub fn post_sweep_fragmentation(&self) -> (counts: (usize, usize))
        ensures
            counts.0 == self@.reusable_blocks.count(),
            counts.1 == self@.swept_live_blocks,
    {
        (self.reusable_blocks.len(), self.swept_live_blocks)
    }

    /// Takes note of a clean block that was handed out.
    pub fn notify_new_clean_block(&mut self, copy: bool)
        ensures
            final(self)@ == (ImmixSpaceView {
                defrag: old(self)@.defrag.with_clean_block(copy),
                ..old(self)@
            }),
    {
        self.defrag.notify_new_clean_block(copy);
    }
}

} // verus!
