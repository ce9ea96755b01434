//! What holds of single objects and blocks of an Immix space: when an object is live, what a trace
//! does to it, and in what state a block starts and ends.

use crate::policy::immix::block::{lemma_block_positions, Block};
use crate::policy::immix::immixspace::{
    if_on_side, new_space, object_specs, rc_specs, registered_specs, traced_in_place,
    traced_with_copy, ImmixSpaceArgs, ImmixSpaceView, PlanCreateSpaceArgs, SideMetadataSpec,
};
use crate::policy::immix::space_alloc::{
    clean_block_initialized, free_lines, line_available, reusable_pick,
};
use crate::util::address::{Address, ObjectReference};
use crate::util::constants::{BYTES_IN_BLOCK, CELLS_IN_BLOCK};
use crate::util::heap::page_resource::ReleasedBlock;
use crate::util::linear_scan::Chunk;
use crate::util::log_bit::UnlogBitsOperation;
use crate::util::metadata::MetadataView;
use crate::util::object_forwarding::{
    can_hold, law_forwarded_object_is_found, pointer_of, status, FORWARDED,
    FORWARDING_NOT_TRIGGERED_YET,
};
use crate::util::rc::count_of;
use crate::util::vm::{MetadataLocation, VmConfig};
use vstd::prelude::*;

verus! {

/// When an object is live. Where marks decide: if it is marked, or was copied in a space that moves
/// objects. Where counts decide: if it has one, or was copied. At the end of a trace of a space
/// with counts: if it is marked and has a count, unless its block is emptied; and if it was copied,
/// and its copy is marked and has a count.
pub proof fn law_live_objects(s: ImmixSpaceView, m: MetadataView, address: int)
    requires
        m.wf(),
        m.in_heap(address),
    ensures
        ({
            let marked = m.mark[m.cell(address)] == s.mark_state;
            let copied = status(s.vm, m, address) == FORWARDED;
            let copy = pointer_of(s.vm, m, address).addr();
            let counted = m.rc[m.cell(address)] != 0;
            let copy_lives = m.mark[m.cell(copy)] == s.mark_state && m.rc[m.cell(copy)] != 0;
            let emptied = m.block_defrag[m.block(address)] == 255;
            &&& !s.rc_enabled && s.space_args.never_move_objects ==> s.live(m, address) == marked
            &&& !s.rc_enabled && !s.space_args.never_move_objects ==> s.live(m, address) == (marked
                || copied)
            &&& s.rc_enabled && !s.is_end_of_satb_or_full_gc ==> s.live(m, address) == (counted
                || copied)
            &&& s.rc_enabled && s.is_end_of_satb_or_full_gc && marked && !emptied ==> s.live(
                m,
                address,
            ) == counted
            &&& s.rc_enabled && s.is_end_of_satb_or_full_gc && (!marked || emptied) ==> s.live(
                m,
                address,
            ) == (copied && copy_lives)
        }),
{
    let base = address - address % BYTES_IN_BLOCK as int;
    let block = Block(Address(base as usize));
    assert(base >= 0);
    assert(block.index(m) == m.block(address)) by {
        assert(block.addr() == base);
        assert((base - m.start) / BYTES_IN_BLOCK as int == (address - m.start)
            / BYTES_IN_BLOCK as int);
    }
}

/// When an object is reachable. Where counts decide, it or its copy must be marked and have a count;
/// elsewhere it must be live. What is reachable at the end of a trace is live, unless its block is
/// emptied and it was not copied.
pub proof fn law_reachable_objects(s: ImmixSpaceView, m: MetadataView, address: int)
    requires
        m.wf(),
        m.in_heap(address),
    ensures
        ({
            let marked = m.mark[m.cell(address)] == s.mark_state;
            let copied = status(s.vm, m, address) == FORWARDED;
            let copy = pointer_of(s.vm, m, address).addr();
            &&& !s.rc_enabled ==> s.reachable(m, address) == s.live(m, address)
            &&& s.rc_enabled && !copied ==> s.reachable(m, address) == (marked && count_of(
                m,
                address,
            ) > 0)
            &&& s.rc_enabled && copied ==> s.reachable(m, address) == (m.mark[m.cell(copy)]
                == s.mark_state && count_of(m, copy) > 0)
            &&& s.rc_enabled && !s.is_end_of_satb_or_full_gc && s.reachable(m, address) ==> s.live(
                m,
                address,
            )
            &&& s.rc_enabled && s.is_end_of_satb_or_full_gc && !copied && s.reachable(m, address)
                && m.block_defrag[m.block(address)] != 255 ==> s.live(m, address)
        }),
{
    law_live_objects(s, m, address);
}

/// A trace marks an object where it is, counts its bytes and queues it the first time; it changes no
/// other mark. Where objects that start in a covered line may be met, these are not queued. Where
/// traced objects become unlogged, those that share a byte of log bits do so together.
pub proof fn law_trace_marks_in_place(
    s: ImmixSpaceView,
    s2: ImmixSpaceView,
    m: MetadataView,
    m2: MetadataView,
    q: Seq<ObjectReference>,
    q2: Seq<ObjectReference>,
    object: ObjectReference,
    size: usize,
)
    requires
        m.wf(),
        m.in_heap(object.addr()),
        traced_in_place(s, s2, m, m2, q, q2, object, size),
    ensures
        ({
            let cell = m.cell(object.addr());
            let before = m.mark[cell] == s.mark_state;
            let covered = s.rc_enabled && m.straddle[m.line(object.addr())] != 0;
            let byte = cell / 8;
            &&& m2.mark[cell] == s.mark_state
            &&& forall|c: int|
                0 <= c < m.mark.len() && c != cell ==> #[trigger] m2.mark[c] == m.mark[c]
            &&& before ==> q2 == q && s2 == s && m2 == m
            &&& !before ==> s2.major_live_bytes == s.major_live_bytes.wrapping_add(size)
            &&& !before && !covered ==> q2 == q.push(object)
            &&& !before && covered ==> q2 == q && m2.log_bit == m.log_bit
            &&& !before && !covered && s.unlog_traced_object ==> forall|c: int|
                0 <= c < m.log_bit.len() ==> #[trigger] m2.log_bit[c] == (if c / 8 == byte {
                    1u8
                } else {
                    m.log_bit[c]
                })
            &&& !s.unlog_traced_object ==> m2.log_bit == m.log_bit
            &&& m2.rc == m.rc
            &&& m2.line_mark == m.line_mark
            &&& m2.block_mark == m.block_mark
        }),
{
}

/// A trace that copies leaves an object where it is if it is pinned, or if there is no more room for
/// copies outside a nursery collection: its block counts as marked then. Otherwise the object leads
/// to its copy, which is queued and counted, and which is marked where marks decide. An object that
/// was copied or marked before is left alone.
pub proof fn law_trace_copies_or_stays<F: FnOnce(ObjectReference) -> (ObjectReference, usize)>(
    copy: F,
    nursery: bool,
    s: ImmixSpaceView,
    s2: ImmixSpaceView,
    m: MetadataView,
    m2: MetadataView,
    q: Seq<ObjectReference>,
    q2: Seq<ObjectReference>,
    object: ObjectReference,
    size: usize,
    result: ObjectReference,
)
    requires
        m.wf(),
        m.in_heap(object.addr()),
        forall|new: (ObjectReference, usize)| #[trigger]
            call_ensures(copy, (object,), new) ==> m.in_heap(new.0.addr()) && can_hold(s.vm, new.0),
        traced_with_copy(copy, nursery, s, s2, m, m2, q, q2, object, size, result),
    ensures
        ({
            let address = object.addr();
            let cell = m.cell(address);
            let fresh = status(s.vm, m, address) == FORWARDING_NOT_TRIGGERED_YET && m.mark[cell]
                != s.mark_state;
            let pinned = s.vm.pinning_bit is Some && m.pin_bit[cell] == 1;
            let full = !nursery && s.defrag.space_exhausted;
            &&& status(s.vm, m, address) == FORWARDED ==> result == pointer_of(s.vm, m, address)
                && q2 == q && m2 == m && s2 == s
            &&& !fresh ==> q2 == q && m2 == m && s2 == s
            &&& fresh && (pinned || full) ==> result == object && q2 == q.push(object)
                && m2.mark[cell] == s.mark_state && m2.block_mark[m.block(address)] == 254
                && s2.major_live_bytes == s.major_live_bytes.wrapping_add(size)
            &&& fresh && !pinned && !full ==> q2 == q.push(result) && status(s.vm, m2, address)
                == FORWARDED && pointer_of(s.vm, m2, address) == result && exists|bytes: usize|
                #[trigger] call_ensures(copy, (object,), (result, bytes)) && s2.major_live_bytes
                    == s.major_live_bytes.wrapping_add(bytes)
            &&& fresh && !pinned && !full && !s.rc_enabled ==> m2.mark[m.cell(result.addr())]
                == s.mark_state
        }),
{
    let address = object.addr();
    let fresh = status(s.vm, m, address) == FORWARDING_NOT_TRIGGERED_YET && !s.marked(m, address);
    if fresh && !s.stays(m, address, nursery) {
        let new = choose|new: (ObjectReference, usize)| #[trigger]
            call_ensures(copy, (object,), new) && result == new.0 && s2 == s.with_live_bytes(new.1)
                && m2 == crate::util::object_forwarding::forwarded(
                s.vm,
                s.copied_to(m, new.0.addr()),
                address,
                new.0,
            ) && q2 == q.push(new.0);
        let base = s.copied_to(m, new.0.addr());
        assert(base.wf());
        law_forwarded_object_is_found(s.vm, base, address, new.0);
        assert(call_ensures(copy, (object,), (result, new.1)));
    }
}

/// What was released becomes available, in order, after what already is; nothing is lost.
pub proof fn law_flush_makes_available(s: ImmixSpaceView)
    ensures
        s.flushed().reusable_blocks.shared == s.reusable_blocks.shared + s.reusable_blocks.pending,
        s.flushed().reusable_blocks.pending.len() == 0,
        usize::BITS == 64 ==> s.flushed().pr.free == s.pr.free + s.pr.pending,
        usize::BITS == 64 ==> s.flushed().pr.pending.len() == 0,
        s.flushed().chunk_map == s.chunk_map,
        s.flushed().flushed().reusable_blocks.shared == s.flushed().reusable_blocks.shared,
{
    let once = s.flushed();
    assert(once.reusable_blocks.shared + once.reusable_blocks.pending
        =~= once.reusable_blocks.shared);
}

/// A block that is freed is on its way back once more, with the given fate of its pages; where frees
/// are checked, it cannot be freed again until it is handed out.
pub proof fn law_freed_block_is_on_its_way(s: ImmixSpaceView, block: Block, madvise: bool)
    ensures
        s.with_freed(block, madvise).pr.pending == s.pr.pending.push(
            ReleasedBlock { block, madvise },
        ),
        s.with_freed(block, madvise).pr.free == s.pr.free,
        s.track_frees ==> !s.with_freed(block, madvise).can_free(block),
        !s.track_frees ==> s.with_freed(block, madvise).can_free(block),
        forall|other: Block|
            other != block ==> #[trigger] s.with_freed(block, madvise).can_free(other)
                == s.can_free(other),
{
    assert forall|other: Block| other != block implies #[trigger] s.with_freed(
        block,
        madvise,
    ).can_free(other) == s.can_free(other) by {
        assert(other.0.0 != block.0.0);
    }
}

/// The reusable block that is handed out is the one that was offered last, except that copies skip
/// blocks that are emptied; what was offered before it stays, and what was skipped is gone. There is
/// none iff all are skipped.
pub proof fn law_last_reusable_block_is_taken(
    m: MetadataView,
    shared: Seq<Block>,
    copy: bool,
    i: int,
)
    requires
        0 <= i < shared.len(),
        !copy || m.block_defrag[shared[i].index(m)] != 255,
        forall|j: int|
            i < j < shared.len() ==> copy && m.block_defrag[(#[trigger] shared[j]).index(m)] == 255,
    ensures
        reusable_pick(m, shared, copy) == (Some(shared[i]), shared.subrange(0, i)),
    decreases shared.len(),
{
    let less = shared.drop_last();
    if i == shared.len() - 1 {
        assert(less =~= shared.subrange(0, i));
    } else {
        assert(shared[shared.len() - 1] == shared.last());
        assert forall|j: int| i < j < less.len() implies copy && m.block_defrag[(
        #[trigger] less[j]).index(m)] == 255 by {
            assert(less[j] == shared[j]);
        }
        law_last_reusable_block_is_taken(m, less, copy, i);
        assert(less.subrange(0, i) =~= shared.subrange(0, i));
    }
}

/// Where all reusable blocks are emptied, a copy gets none.
pub proof fn law_no_copy_into_emptied_blocks(m: MetadataView, shared: Seq<Block>)
    requires
        forall|j: int|
            0 <= j < shared.len() ==> m.block_defrag[(#[trigger] shared[j]).index(m)] == 255,
    ensures
        reusable_pick(m, shared, true).0 is None,
        reusable_pick(m, shared, true).1.len() == 0,
    decreases shared.len(),
{
    if shared.len() > 0 {
        let less = shared.drop_last();
        assert(shared[shared.len() - 1] == shared.last());
        assert forall|j: int| 0 <= j < less.len() implies m.block_defrag[(#[trigger] less[j]).index(
            m,
        )] == 255 by {
            assert(less[j] == shared[j]);
        }
        law_no_copy_into_emptied_blocks(m, less);
    }
}

/// A line is free iff it carries neither the mark of the current collection nor that of the last one
/// that swept; and a reusable block has as many free lines as its state does not count as taken.
pub proof fn law_free_lines(s: ImmixSpaceView, m: MetadataView, i: int, block: Block)
    ensures
        m.line_mark[i] == s.line_mark_state ==> !line_available(m, s, i),
        m.line_mark[i] == s.line_unavail_state ==> !line_available(m, s, i),
        m.line_mark[i] != s.line_mark_state && m.line_mark[i] != s.line_unavail_state
            ==> line_available(m, s, i),
        0 < m.block_mark[block.index(m)] < 254 ==> free_lines(m, block) == 128
            - m.block_mark[block.index(m)],
        m.block_mark[block.index(m)] == 0 || m.block_mark[block.index(m)] >= 254 ==> free_lines(
            m,
            block,
        ) == 128,
{
}

/// A block that is handed out clean where references are counted starts without marks, unless a
/// cycle is in progress, and with all fields logged. It belongs to the current phase, was not
/// promoted and is not emptied; for copies it is in use at once, for mutators it stays unallocated.
/// Other blocks are left alone.
pub proof fn law_clean_block_starts_fresh(
    m: MetadataView,
    block: Block,
    copy: bool,
    cm_enabled: bool,
    other: int,
)
    requires
        m.wf(),
        block.valid(m),
        0 <= other < m.block_mark.len(),
        other != block.index(m),
    ensures
        ({
            let after = clean_block_initialized(m, true, block, copy, cm_enabled);
            let i = block.index(m);
            &&& forall|c: int|
                i * CELLS_IN_BLOCK <= c < (i + 1) * CELLS_IN_BLOCK ==> #[trigger] after.mark[c]
                    == (if cm_enabled {
                    1u8
                } else {
                    0u8
                })
            &&& forall|c: int|
                i * CELLS_IN_BLOCK <= c < (i + 1) * CELLS_IN_BLOCK
                    ==> #[trigger] after.field_unlog[c] == 0
            &&& forall|c: int|
                0 <= c < m.mark.len() && !(i * CELLS_IN_BLOCK <= c < (i + 1) * CELLS_IN_BLOCK)
                    ==> #[trigger] after.mark[c] == m.mark[c]
            &&& forall|c: int|
                0 <= c < m.mark.len() && !(i * CELLS_IN_BLOCK <= c < (i + 1) * CELLS_IN_BLOCK)
                    ==> #[trigger] after.field_unlog[c] == m.field_unlog[c]
            &&& after.block_epoch[i] == m.global_phase_epoch
            &&& after.block_promoted[i] == 0
            &&& after.block_defrag[i] == 0
            &&& copy ==> after.block_mark[i] == 255
            &&& !copy ==> after.block_mark[i] == m.block_mark[i]
            &&& after.block_epoch[other] == m.block_epoch[other]
            &&& after.block_promoted[other] == m.block_promoted[other]
            &&& after.block_defrag[other] == m.block_defrag[other]
            &&& after.block_mark[other] == m.block_mark[other]
            &&& after.rc == m.rc
            &&& after.line_mark == m.line_mark
        }),
{
    lemma_block_positions(m, block);
}

/// The first promotion of an object of a nursery block takes the block out of the nursery: it is in
/// use, belongs to the current phase, and is counted. Later ones change nothing.
pub proof fn law_block_is_promoted_once(m: MetadataView, s: ImmixSpaceView, block: Block)
    requires
        m.wf(),
        block.valid(m),
    ensures
        ({
            let after = block.promoted_in_place(m);
            let counted = block.promotion_counted(m, s);
            let i = block.index(m);
            &&& m.block_promoted[i] == 0 ==> after.block_mark[i] == 255 && after.block_promoted[i]
                == 1 && after.block_epoch[i] == m.global_phase_epoch
                && counted.block_allocation.in_place_promoted_nursery_blocks
                == s.block_allocation.in_place_promoted_nursery_blocks.wrapping_add(1)
            &&& m.block_promoted[i] != 0 ==> after == m && counted == s
            &&& block.promoted_in_place(after) == after
            &&& block.promotion_counted(after, counted) == counted
            &&& counted.block_allocation.nursery_blocks == s.block_allocation.nursery_blocks
        }),
{
    lemma_block_positions(m, block);
}

/// What one sequence or the other contains.
proof fn lemma_contains_add<A>(a: Seq<A>, b: Seq<A>, x: A)
    ensures
        (a + b).contains(x) == (a.contains(x) || b.contains(x)),
{
    if a.contains(x) {
        let i = choose|i: int| 0 <= i < a.len() && a[i] == x;
        assert((a + b)[i] == x);
    }
    if b.contains(x) {
        let i = choose|i: int| 0 <= i < b.len() && b[i] == x;
        assert((a + b)[i + a.len()] == x);
    }
}

/// What a single table contains, where the runtime keeps it on the side.
proof fn lemma_if_on_side(location: MetadataLocation, spec: SideMetadataSpec, x: SideMetadataSpec)
    ensures
        if_on_side(location, spec).contains(x) == (location is OnSide && x == spec),
{
    if location is OnSide {
        assert(if_on_side(location, spec)[0] == spec);
    }
}

/// A table of object metadata is registered iff the runtime keeps it on the side; those of lines and
/// blocks always are, and those of reference counting iff the space counts.
pub proof fn law_registered_tables(vm: VmConfig, rc_enabled: bool, spec: SideMetadataSpec)
    ensures
        registered_specs(vm, rc_enabled).contains(spec) == match spec {
            SideMetadataSpec::LineMark => true,
            SideMetadataSpec::BlockDefrag => true,
            SideMetadataSpec::BlockMark => true,
            SideMetadataSpec::MarkBit => vm.mark_bit is OnSide,
            SideMetadataSpec::ForwardingBits => vm.forwarding_bits is OnSide,
            SideMetadataSpec::ForwardingPointer => vm.forwarding_pointer is OnSide,
            SideMetadataSpec::PinningBit => vm.pinning_bit == Some(MetadataLocation::OnSide),
            _ => rc_enabled,
        },
{
    let always = seq![
        SideMetadataSpec::LineMark,
        SideMetadataSpec::BlockDefrag,
        SideMetadataSpec::BlockMark,
    ];
    let mark = if_on_side(vm.mark_bit, SideMetadataSpec::MarkBit);
    let bits = if_on_side(vm.forwarding_bits, SideMetadataSpec::ForwardingBits);
    let pointer = if_on_side(vm.forwarding_pointer, SideMetadataSpec::ForwardingPointer);
    let pins = match vm.pinning_bit {
        Some(location) => if_on_side(location, SideMetadataSpec::PinningBit),
        None => Seq::empty(),
    };
    let counts = if rc_enabled {
        rc_specs()
    } else {
        Seq::empty()
    };
    lemma_if_on_side(vm.mark_bit, SideMetadataSpec::MarkBit, spec);
    lemma_if_on_side(vm.forwarding_bits, SideMetadataSpec::ForwardingBits, spec);
    lemma_if_on_side(vm.forwarding_pointer, SideMetadataSpec::ForwardingPointer, spec);
    if let Some(location) = vm.pinning_bit {
        lemma_if_on_side(location, SideMetadataSpec::PinningBit, spec);
    }
    lemma_contains_add(mark, bits, spec);
    lemma_contains_add(mark + bits, pointer, spec);
    lemma_contains_add(mark + bits + pointer, pins, spec);
    lemma_contains_add(always, object_specs(vm), spec);
    lemma_contains_add(always + object_specs(vm), counts, spec);
    assert(always[0] == SideMetadataSpec::LineMark);
    assert(always[1] == SideMetadataSpec::BlockDefrag);
    assert(always[2] == SideMetadataSpec::BlockMark);
    let all = rc_specs();
    assert(all[0] == SideMetadataSpec::RcStraddleLines);
    assert(all[1] == SideMetadataSpec::BlockLog);
    assert(all[2] == SideMetadataSpec::NurseryPromotionState);
    assert(all[3] == SideMetadataSpec::PhaseEpoch);
    assert(all[4] == SideMetadataSpec::LineReuseCount);
}

/// A new space holds nothing, fits the tables of its heap, and moves objects unless it or its plan
/// says otherwise.
pub proof fn law_new_space_is_empty(
    args: PlanCreateSpaceArgs,
    space_args: ImmixSpaceArgs,
    m: MetadataView,
)
    requires
        m.chunks == args.chunks,
    ensures
        ({
            let s = new_space(args, space_args);
            &&& s.wf(m)
            &&& forall|k: int| 0 <= k < m.chunks ==> !#[trigger] s.chunk_map[k]
            &&& s.pr.pending.len() == 0 && s.pr.free.len() == 0
            &&& s.reusable_blocks.shared.len() == 0 && s.reusable_blocks.pending.len() == 0
            &&& s.space_args.never_move_objects == (space_args.never_move_objects
                || args.force_non_moving)
            &&& s.space_args.mixed_age == space_args.mixed_age
            &&& s.rc_enabled == args.rc_enabled
            &&& s.unlog_traced_object == args.unlog_traced_object
            &&& s.track_frees == args.track_frees
            &&& s.always_defrag == args.always_defrag
            &&& s.defrag_every_block == args.defrag_every_block
            &&& s.num_workers == args.num_workers
            &&& s.vm == args.vm
            &&& !s.defrag.in_defrag && !s.defrag.compact_all
            &&& s.possibly_dead_mature_blocks.len() == 0
            &&& s.block_allocation.nursery_blocks.len() == 0
        }),
{
}

/// A bulk operation sets, or clears, the log bits of the whole chunk and of nothing else.
pub proof fn law_bulk_operation_covers_the_chunk(m: MetadataView, chunk: Chunk, c: int)
    requires
        m.wf(),
        chunk.valid(m),
        0 <= c < m.log_bit.len(),
    ensures
        ({
            let inside = chunk.first_cell(m) <= c < chunk.end_cell(m);
            &&& inside ==> UnlogBitsOperation::BulkSet.applied(m, chunk)[c] == 1
            &&& inside ==> UnlogBitsOperation::BulkClear.applied(m, chunk)[c] == 0
            &&& !inside ==> UnlogBitsOperation::BulkSet.applied(m, chunk)[c] == m.log_bit[c]
            &&& !inside ==> UnlogBitsOperation::BulkClear.applied(m, chunk)[c] == m.log_bit[c]
            &&& UnlogBitsOperation::NoOp.applied(m, chunk)[c] == m.log_bit[c]
        }),
{
    chunk.lemma_positions(m);
}

} // verus!
