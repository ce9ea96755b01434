//! What holds of increments, decrements and the sweeps of the LXR plan as a whole.

use crate::plan::lxr::rc::{
    all_in_heap, block_of, decs_processed, fields_kept, grows, keep_step, keep_steps, kept_alive,
    lemma_decs_processed, lemma_fields_kept, lemma_grows_chain, lemma_keep_step,
    lemma_object_promoted, lemma_slots_processed, promoted_space, promoted_tables, slot_processed,
    slot_unlogged, slots_processed, DecState, IncState, KeepState, EDGE_KIND_ROOT,
};
use crate::policy::immix::block::{lemma_block_positions, BlockState};
use crate::util::address::ObjectReference;
use crate::util::constants::{BYTES_IN_LINE, CELLS_IN_LINE, MIN_OBJECT_SIZE};
use crate::util::metadata::{MetadataView, SpaceKind};
use crate::util::rc::{count_of, incremented, object_straddle};
use crate::util::vm::{ObjectModel, Slot};
use vstd::prelude::*;

verus! {

/// Increments take no count away: an object that has a count has one afterwards.
pub proof fn law_increments_keep_counts(
    st: IncState,
    kind: u8,
    objects: ObjectModel,
    slots: Seq<Slot>,
    address: int,
)
    requires
        st.m.wf(),
        objects.fits(st.m),
        objects.fields_valid(st.m),
        st.m.in_heap(address),
        count_of(st.m, address) > 0,
    ensures
        count_of(slots_processed(st, kind, objects, slots).m, address) > 0,
{
    lemma_slots_processed(st, kind, objects, slots);
    assert(slots_processed(st, kind, objects, slots).m.rc[st.m.cell(address)] != 0);
}

/// Decrements give no count: an object without a count has none afterwards.
pub proof fn law_decrements_give_no_count(
    st: DecState,
    objects: ObjectModel,
    decs: Seq<ObjectReference>,
    in_pause: bool,
    address: int,
)
    requires
        st.m.wf(),
        objects.fits(st.m),
        objects.fields_valid(st.m),
        all_in_heap(st.m, decs),
        all_in_heap(st.m, st.new_decs),
        st.m.in_heap(address),
        count_of(st.m, address) == 0,
    ensures
        count_of(decs_processed(st, objects, decs, in_pause).m, address) == 0,
{
    lemma_decs_processed(st, objects, decs, in_pause);
    let after = decs_processed(st, objects, decs, in_pause);
    let cell = st.m.cell(address);
    assert(after.m.rc[cell] != 0 ==> st.m.rc[cell] != 0);
}

/// The addresses of what the given slots refer to in the spaces.
pub open spec fn targets_in_spaces(m: MetadataView, objects: ObjectModel, slots: Seq<Slot>) -> Seq<usize>
    decreases slots.len(),
{
    if slots.len() == 0 {
        Seq::empty()
    } else {
        let before = targets_in_spaces(m, objects, slots.drop_last());
        match objects.target(slots.last()) {
            Some(o) => if m.in_spaces(o.addr()) {
                before.push(o.0.0)
            } else {
                before
            },
            None => before,
        }
    }
}

/// The increments of roots remember exactly what the roots refer to in the spaces, so that the
/// next collection can take the increments back.
pub proof fn law_root_targets_are_remembered(st: IncState, objects: ObjectModel, slots: Seq<Slot>)
    requires
        st.m.wf(),
        objects.fits(st.m),
        objects.fields_valid(st.m),
    ensures
        slots_processed(st, EDGE_KIND_ROOT, objects, slots).roots == st.roots + targets_in_spaces(
            st.m,
            objects,
            slots,
        ),
    decreases slots.len(),
{
    if slots.len() > 0 {
        let less = slots.drop_last();
        law_root_targets_are_remembered(st, objects, less);
        lemma_slots_processed(st, EDGE_KIND_ROOT, objects, less);
        let before = slots_processed(st, EDGE_KIND_ROOT, objects, less);
        let slot = slots.last();
        if let Some(o) = objects.target(slot) {
            assert(before.m.in_spaces(o.addr()) == st.m.in_spaces(o.addr()));
            if before.m.in_spaces(o.addr()) {
                let rooted = IncState { roots: before.roots.push(o.0.0), ..before };
                let counted = IncState { m: incremented(rooted.m, o.addr()), ..rooted };
                assert(objects.fits(counted.m));
                assert(objects.fields_valid(counted.m));
                if count_of(rooted.m, o.addr()) == 0 {
                    lemma_object_promoted(counted, objects, o);
                }
                assert(slot_processed(before, EDGE_KIND_ROOT, objects, slot).roots
                    == before.roots.push(o.0.0));
            }
        }
        assert(slots_processed(st, EDGE_KIND_ROOT, objects, slots).roots =~= st.roots
            + targets_in_spaces(st.m, objects, slots));
    } else {
        assert(st.roots + targets_in_spaces(st.m, objects, slots) =~= st.roots);
    }
}

/// What an object with a count refers to in the spaces has a count, too.
pub open spec fn counted_closed(m: MetadataView, objects: ObjectModel) -> bool {
    forall|a: usize, t: ObjectReference|
        m.in_spaces(a as int) && count_of(m, a as int) > 0 && #[trigger] objects.refers(a, t)
            && m.in_spaces(t.addr()) ==> count_of(m, t.addr()) > 0
}

/// A block that was promoted in place is not unallocated.
pub open spec fn promoted_are_allocated(m: MetadataView) -> bool {
    forall|i: int|
        0 <= i < m.block_mark.len() && #[trigger] m.block_promoted[i] != 0 ==> m.block_mark[i] != 0
}

/// What an object with a count refers to in the spaces has a count, or is still to be visited.
pub open spec fn closed_but_for_worklist(st: KeepState, objects: ObjectModel) -> bool {
    forall|a: usize, t: ObjectReference|
        st.m.in_spaces(a as int) && count_of(st.m, a as int) > 0 && #[trigger] objects.refers(a, t)
            && st.m.in_spaces(t.addr()) ==> count_of(st.m, t.addr()) > 0 || st.worklist.contains(t)
}

/// An object of the Immix space that has a count in `m`, but had none in `m0`, is not in a nursery
/// block.
pub open spec fn first_counts_are_promoted(
    m0: MetadataView,
    m: MetadataView,
    objects: ObjectModel,
) -> bool {
    forall|a: usize|
        #![trigger objects.absent(a)]
        m.space_of(a as int) == SpaceKind::Immix && !objects.absent(a) && count_of(m, a as int) > 0
            ==> count_of(m0, a as int) > 0 || block_of(a as int).state(m)
            != BlockState::Unallocated
}

/// The objects that are still to be visited are aligned.
pub open spec fn worklist_aligned(st: KeepState) -> bool {
    forall|t: ObjectReference| #[trigger]
        st.worklist.contains(t) ==> t.addr() % MIN_OBJECT_SIZE as int == 0
}

/// What holds while an object is being kept alive. `m0` are the tables at the start.
pub open spec fn keeping(m0: MetadataView, st: KeepState, objects: ObjectModel) -> bool {
    &&& grows(m0, st.m)
    &&& promoted_are_allocated(st.m)
    &&& worklist_aligned(st)
    &&& closed_but_for_worklist(st, objects)
    &&& first_counts_are_promoted(m0, st.m, objects)
}

/// Promoting an object of the Immix space gives a count to nothing that is described.
proof fn lemma_promotion_counts(
    m: MetadataView,
    objects: ObjectModel,
    o: ObjectReference,
    a: usize,
)
    requires
        m.wf(),
        m.space_of(o.addr()) == SpaceKind::Immix,
        objects.fits(m),
        objects.separate(m),
        m.in_heap(a as int),
        !objects.absent(a),
    ensures
        ({
            let after = promoted_tables(m, o.addr(), objects.size(o.0.0) as int);
            count_of(after, a as int) > 0 ==> count_of(m, a as int) > 0
        }),
{
    let size = objects.size(o.0.0) as int;
    let flipped = if block_of(o.addr()).state(m) == BlockState::Unallocated {
        block_of(o.addr()).promoted_in_place(m)
    } else {
        m
    };
    let after = promoted_tables(m, o.addr(), size);
    let cell = m.cell(a as int);
    assert(a as int % MIN_OBJECT_SIZE as int == 0);
    lemma_line_start(m, a as int);
    assert(flipped.rc == m.rc);
    if after.rc[cell] != m.rc[cell] {
        assert(size > BYTES_IN_LINE);
        assert(m.line(o.addr()) < m.line(a as int) && m.line(a as int) < m.line(o.addr() + size));
        assert(objects.size(o.0.0) > BYTES_IN_LINE);
        assert(objects.absent(a));
    }
}

/// An aligned address is where its entry of the tables starts; it starts a line iff its entry does.
pub proof fn lemma_line_start(m: MetadataView, address: int)
    requires
        m.wf(),
        m.in_heap(address),
        address % MIN_OBJECT_SIZE as int == 0,
    ensures
        0 <= m.cell(address) < m.rc.len(),
        m.cell(address) / CELLS_IN_LINE as int == m.line(address),
        m.cell(address) % CELLS_IN_LINE as int == 0 <==> address % BYTES_IN_LINE as int == 0,
{
    let cell = m.cell(address);
    assert(address == m.start + cell * MIN_OBJECT_SIZE);
}

/// The block that holds an address of the heap.
proof fn lemma_block_of(m: MetadataView, address: int)
    requires
        m.wf(),
        m.in_heap(address),
    ensures
        block_of(address).valid(m),
        block_of(address).index(m) == m.block(address),
        0 <= m.block(address) < m.block_mark.len(),
{
    lemma_block_positions(m, block_of(address));
}

/// The straddle marks of a promoted object take no count away.
proof fn lemma_straddle_grows(m: MetadataView, address: int, size: int)
    requires
        m.wf(),
        m.in_heap(address),
        size > 0 ==> address + size <= m.end(),
    ensures
        ({
            let after = object_straddle(m, address, size, 1);
            &&& grows(m, after)
            &&& after.block_mark == m.block_mark
            &&& after.block_promoted == m.block_promoted
        }),
{
}

/// Promoting an object of the Immix space takes its block out of the nursery, and puts no other
/// block back.
pub proof fn lemma_promotion_blocks(m: MetadataView, objects: ObjectModel, o: ObjectReference)
    requires
        m.wf(),
        m.space_of(o.addr()) == SpaceKind::Immix,
        objects.fits(m),
        promoted_are_allocated(m),
    ensures
        ({
            let after = promoted_tables(m, o.addr(), objects.size(o.0.0) as int);
            &&& grows(m, after)
            &&& promoted_are_allocated(after)
            &&& after.block_mark[m.block(o.addr())] != 0
            &&& forall|i: int|
                0 <= i < m.block_mark.len() && m.block_mark[i] != 0
                    ==> #[trigger] after.block_mark[i] != 0
        }),
{
    let block = block_of(o.addr());
    let size = objects.size(o.0.0) as int;
    lemma_block_of(m, o.addr());
    assert(size > 0 ==> o.addr() + size <= m.end());
    let flipped = if block.state(m) == BlockState::Unallocated {
        block.promoted_in_place(m)
    } else {
        m
    };
    assert(grows(m, flipped));
    lemma_straddle_grows(flipped, o.addr(), size);
    lemma_grows_chain(m, flipped, promoted_tables(m, o.addr(), size));
}

/// The state after an object got its first count and was promoted, before its fields are gone through.
spec fn object_placed(st: KeepState, objects: ObjectModel, o: ObjectReference) -> KeepState {
    if st.m.space_of(o.addr()) == SpaceKind::Immix {
        KeepState {
            m: promoted_tables(st.m, o.addr(), objects.size(o.0.0) as int),
            s: promoted_space(st.m, st.s, o.addr()),
            ..st
        }
    } else {
        KeepState { m: slot_unlogged(st.m, o.addr()), ..st }
    }
}

/// What the promotion of an object with its first count does to the tables.
proof fn lemma_object_placed(st: KeepState, objects: ObjectModel, o: ObjectReference)
    requires
        st.m.wf(),
        objects.fits(st.m),
        promoted_are_allocated(st.m),
        st.m.in_spaces(o.addr()),
    ensures
        ({
            let placed = object_placed(st, objects, o);
            &&& grows(st.m, placed.m)
            &&& promoted_are_allocated(placed.m)
            &&& placed.worklist == st.worklist
            &&& st.m.space_of(o.addr()) == SpaceKind::Immix ==> placed.m.block_mark[st.m.block(
                o.addr(),
            )] != 0
            &&& forall|i: int|
                0 <= i < st.m.block_mark.len() && st.m.block_mark[i] != 0
                    ==> #[trigger] placed.m.block_mark[i] != 0
        }),
{
    if st.m.space_of(o.addr()) == SpaceKind::Immix {
        lemma_promotion_blocks(st.m, objects, o);
    } else {
        assert(grows(st.m, slot_unlogged(st.m, o.addr())));
    }
}

/// What objects get a count when one gets its first: no other.
proof fn lemma_first_count_alone(
    m: MetadataView,
    st: KeepState,
    objects: ObjectModel,
    o: ObjectReference,
    a: usize,
)
    requires
        m.wf(),
        st.m == incremented(m, o.addr()),
        st.m.wf(),
        objects.fits(st.m),
        objects.separate(st.m),
        m.in_spaces(o.addr()),
        o.addr() % MIN_OBJECT_SIZE as int == 0,
        m.in_heap(a as int),
        !objects.absent(a),
        count_of(object_placed(st, objects, o).m, a as int) > 0,
    ensures
        count_of(m, a as int) > 0 || a == o.0.0,
{
    if st.m.space_of(o.addr()) == SpaceKind::Immix {
        lemma_promotion_counts(st.m, objects, o, a);
    }
    assert(count_of(st.m, a as int) > 0);
    if m.cell(a as int) == m.cell(o.addr()) {
        assert(a as int % MIN_OBJECT_SIZE as int == 0);
    }
}

/// What the first visit of an object does.
proof fn lemma_first_visit(st: KeepState, objects: ObjectModel)
    requires
        st.m.wf(),
        objects.fits(st.m),
        objects.separate(st.m),
        promoted_are_allocated(st.m),
        st.worklist.len() > 0,
        st.m.in_spaces(st.worklist.last().addr()),
        st.worklist.last().addr() % MIN_OBJECT_SIZE as int == 0,
        count_of(st.m, st.worklist.last().addr()) == 0,
    ensures
        ({
            let o = st.worklist.last();
            let rest = st.worklist.drop_last();
            let after = keep_step(st, objects);
            &&& grows(st.m, after.m)
            &&& promoted_are_allocated(after.m)
            &&& count_of(after.m, o.addr()) > 0
            &&& forall|a: usize|
                #![trigger objects.absent(a)]
                st.m.in_heap(a as int) && !objects.absent(a) && count_of(after.m, a as int) > 0
                    ==> count_of(st.m, a as int) > 0 || a == o.0.0
            &&& forall|t: ObjectReference|
                rest.contains(t) ==> #[trigger] after.worklist.contains(t)
            &&& forall|t: ObjectReference| #[trigger]
                objects.refers(o.0.0, t) ==> after.worklist.contains(t)
            &&& forall|t: ObjectReference| #[trigger]
                after.worklist.contains(t) ==> rest.contains(t) || objects.refers(o.0.0, t)
            &&& st.m.space_of(o.addr()) == SpaceKind::Immix ==> after.m.block_mark[st.m.block(
                o.addr(),
            )] != 0
            &&& forall|i: int|
                0 <= i < st.m.block_mark.len() && st.m.block_mark[i] != 0
                    ==> #[trigger] after.m.block_mark[i] != 0
        }),
{
    let o = st.worklist.last();
    let rest = st.worklist.drop_last();
    let after = keep_step(st, objects);
    let counted = KeepState { m: incremented(st.m, o.addr()), worklist: rest, ..st };
    let placed = object_placed(counted, objects, o);
    let cell = st.m.cell(o.addr());
    assert(grows(st.m, counted.m));
    assert(objects.fits(counted.m));
    assert(objects.separate(counted.m));
    assert(promoted_are_allocated(counted.m));
    lemma_object_placed(counted, objects, o);
    lemma_grows_chain(st.m, counted.m, placed.m);
    let slots = objects.field_slots(o.0.0);
    lemma_fields_kept(placed, objects, slots);
    assert(after == fields_kept(placed, objects, slots));
    lemma_grows_chain(st.m, placed.m, after.m);
    assert(counted.m.rc[cell] != 0);
    assert(placed.m.rc[cell] != 0);
    assert forall|a: usize|
        #![trigger objects.absent(a)]
        st.m.in_heap(a as int) && !objects.absent(a) && count_of(after.m, a as int)
            > 0 implies count_of(st.m, a as int) > 0 || a == o.0.0 by {
        lemma_first_count_alone(st.m, counted, objects, o, a);
    }
}

/// What a later visit of an object does: at most its count grows.
proof fn lemma_later_visit(st: KeepState, objects: ObjectModel)
    requires
        st.m.wf(),
        st.worklist.len() > 0,
        !st.m.in_spaces(st.worklist.last().addr()) || count_of(st.m, st.worklist.last().addr()) > 0,
    ensures
        ({
            let after = keep_step(st, objects);
            &&& grows(st.m, after.m)
            &&& after.worklist == st.worklist.drop_last()
            &&& after.m.block_mark == st.m.block_mark
            &&& after.m.block_promoted == st.m.block_promoted
            &&& forall|i: int|
                0 <= i < st.m.rc.len() && #[trigger] after.m.rc[i] != 0 ==> st.m.rc[i] != 0
        }),
{
}

/// The visit of an object leaves the worklist without it, and with what it adds.
proof fn lemma_worklist(st: KeepState, objects: ObjectModel)
    requires
        st.worklist.len() > 0,
    ensures
        ({
            let o = st.worklist.last();
            let rest = st.worklist.drop_last();
            &&& st.worklist.contains(o)
            &&& forall|t: ObjectReference|
                st.worklist.contains(t) && t != o ==> #[trigger] rest.contains(t)
            &&& forall|t: ObjectReference| #[trigger] rest.contains(t) ==> st.worklist.contains(t)
        }),
{
    let o = st.worklist.last();
    let rest = st.worklist.drop_last();
    assert forall|t: ObjectReference|
        st.worklist.contains(t) && t != o implies #[trigger] rest.contains(t) by {
        let k = choose|k: int| 0 <= k < st.worklist.len() && st.worklist[k] == t;
        assert(rest[k] == t);
    }
    assert forall|t: ObjectReference| #[trigger] rest.contains(t) implies st.worklist.contains(
        t,
    ) by {
        let k = choose|k: int| 0 <= k < rest.len() && rest[k] == t;
        assert(st.worklist[k] == t);
    }
}

/// The first visit of an object keeps what holds.
proof fn lemma_keeping_first(m0: MetadataView, st: KeepState, objects: ObjectModel)
    requires
        m0.wf(),
        objects.fits(m0),
        objects.separate(m0),
        objects.fields_aligned(),
        keeping(m0, st, objects),
        st.worklist.len() > 0,
        st.m.in_spaces(st.worklist.last().addr()),
        count_of(st.m, st.worklist.last().addr()) == 0,
    ensures
        keeping(m0, keep_step(st, objects), objects),
{
    let o = st.worklist.last();
    let rest = st.worklist.drop_last();
    let after = keep_step(st, objects);
    assert(objects.fits(st.m));
    assert(objects.separate(st.m));
    lemma_worklist(st, objects);
    lemma_first_visit(st, objects);
    lemma_grows_chain(m0, st.m, after.m);
    assert forall|a: usize, t: ObjectReference|
        after.m.in_spaces(a as int) && count_of(after.m, a as int) > 0 && #[trigger] objects.refers(
            a,
            t,
        ) && after.m.in_spaces(t.addr()) implies count_of(after.m, t.addr()) > 0
        || after.worklist.contains(t) by {
        assert(!objects.absent(a));
        if a != o.0.0 {
            assert(count_of(st.m, a as int) > 0);
            if count_of(st.m, t.addr()) > 0 {
                assert(after.m.rc[st.m.cell(t.addr())] != 0);
            } else if t != o {
                assert(rest.contains(t));
            }
        }
    }
    assert forall|a: usize|
        #![trigger objects.absent(a)]
        after.m.space_of(a as int) == SpaceKind::Immix && !objects.absent(a) && count_of(
            after.m,
            a as int,
        ) > 0 implies count_of(m0, a as int) > 0 || block_of(a as int).state(after.m)
        != BlockState::Unallocated by {
        lemma_block_index(st.m, a as int);
        if a != o.0.0 {
            assert(count_of(st.m, a as int) > 0);
        }
    }
}

/// Where the block of an address stands in the tables.
proof fn lemma_block_index(m: MetadataView, address: int)
    requires
        m.wf(),
        m.in_heap(address),
    ensures
        block_of(address).valid(m),
        block_of(address).index(m) == m.block(address),
        0 <= m.block(address) < m.block_mark.len(),
{
    assert(block_of(address).valid(m));
    lemma_block_positions(m, block_of(address));
}

/// A later visit of an object keeps what holds.
proof fn lemma_keeping_later(m0: MetadataView, st: KeepState, objects: ObjectModel)
    requires
        m0.wf(),
        keeping(m0, st, objects),
        st.worklist.len() > 0,
        !st.m.in_spaces(st.worklist.last().addr()) || count_of(st.m, st.worklist.last().addr()) > 0,
    ensures
        keeping(m0, keep_step(st, objects), objects),
{
    let o = st.worklist.last();
    let rest = st.worklist.drop_last();
    let after = keep_step(st, objects);
    lemma_worklist(st, objects);
    lemma_later_visit(st, objects);
    lemma_grows_chain(m0, st.m, after.m);
    assert forall|a: usize, t: ObjectReference|
        after.m.in_spaces(a as int) && count_of(after.m, a as int) > 0 && #[trigger] objects.refers(
            a,
            t,
        ) && after.m.in_spaces(t.addr()) implies count_of(after.m, t.addr()) > 0
        || after.worklist.contains(t) by {
        assert(after.m.rc[st.m.cell(a as int)] != 0);
        assert(count_of(st.m, a as int) > 0);
        if count_of(st.m, t.addr()) > 0 {
            assert(after.m.rc[st.m.cell(t.addr())] != 0);
        } else {
            assert(t != o);
            assert(rest.contains(t));
        }
    }
    assert forall|a: usize|
        #![trigger objects.absent(a)]
        after.m.space_of(a as int) == SpaceKind::Immix && !objects.absent(a) && count_of(
            after.m,
            a as int,
        ) > 0 implies count_of(m0, a as int) > 0 || block_of(a as int).state(after.m)
        != BlockState::Unallocated by {
        lemma_block_index(st.m, a as int);
        assert(after.m.rc[st.m.cell(a as int)] != 0);
    }
}

/// One more visit keeps what holds, and drops no object that is not counted.
proof fn lemma_keeping_step(m0: MetadataView, st: KeepState, objects: ObjectModel, t: ObjectReference)
    requires
        m0.wf(),
        objects.fits(m0),
        objects.separate(m0),
        objects.fields_aligned(),
        keeping(m0, st, objects),
        st.worklist.len() > 0,
        st.worklist.contains(t),
    ensures
        keeping(m0, keep_step(st, objects), objects),
        keep_step(st, objects).worklist.contains(t) || !m0.in_spaces(t.addr()) || count_of(
            keep_step(st, objects).m,
            t.addr(),
        ) > 0,
{
    let o = st.worklist.last();
    let after = keep_step(st, objects);
    lemma_worklist(st, objects);
    assert(objects.fits(st.m));
    assert(objects.separate(st.m));
    if st.m.in_spaces(o.addr()) && count_of(st.m, o.addr()) == 0 {
        lemma_keeping_first(m0, st, objects);
        lemma_first_visit(st, objects);
        if t != o {
            assert(st.worklist.drop_last().contains(t));
        }
    } else {
        lemma_keeping_later(m0, st, objects);
        lemma_later_visit(st, objects);
        if t != o {
            assert(st.worklist.drop_last().contains(t));
        } else if m0.in_spaces(o.addr()) {
            assert(after.m.rc[st.m.cell(o.addr())] != 0);
        }
    }
}

/// Any number of visits keeps what holds, and the root is counted, still to be visited, or not in
/// a space.
proof fn lemma_keeping(
    start: KeepState,
    objects: ObjectModel,
    root: ObjectReference,
    n: nat,
)
    requires
        start.m.wf(),
        start.worklist == seq![root],
        objects.fits(start.m),
        objects.separate(start.m),
        objects.fields_aligned(),
        root.addr() % MIN_OBJECT_SIZE as int == 0,
        promoted_are_allocated(start.m),
        counted_closed(start.m, objects),
        forall|k: nat| k < n ==> (#[trigger] keep_steps(start, objects, k)).worklist.len() > 0,
    ensures
        keeping(start.m, keep_steps(start, objects, n), objects),
        keep_steps(start, objects, n).worklist.contains(root) || !start.m.in_spaces(root.addr())
            || count_of(keep_steps(start, objects, n).m, root.addr()) > 0,
    decreases n,
{
    if n == 0 {
        assert(start.worklist[0] == root);
        assert(grows(start.m, start.m));
        assert(closed_but_for_worklist(start, objects));
    } else {
        let k = (n - 1) as nat;
        lemma_keeping(start, objects, root, k);
        let before = keep_steps(start, objects, k);
        assert(before.worklist.len() > 0);
        let after = keep_steps(start, objects, n);
        assert(objects.fits(before.m));
        lemma_keep_step(before, objects);
        if before.worklist.contains(root) {
            lemma_keeping_step(start.m, before, objects, root);
        } else {
            assert(before.worklist.contains(before.worklist.last()));
            lemma_keeping_step(start.m, before, objects, before.worklist.last());
            if start.m.in_spaces(root.addr()) {
                assert(after.m.rc[before.m.cell(root.addr())] != 0);
            }
        }
    }
}

/// Keeping an object alive gives it a count, if it lies in a space. Where every object with a
/// count refers to objects with a count before, that also holds after; so everything that the
/// object reaches has a count. And each object of the Immix space that gets its first count is
/// taken out of the nursery.
pub proof fn law_kept_alive_is_counted(
    start: KeepState,
    end: KeepState,
    objects: ObjectModel,
    root: ObjectReference,
)
    requires
        start.m.wf(),
        start.worklist == seq![root],
        kept_alive(start, end, objects),
        objects.fits(start.m),
        objects.separate(start.m),
        objects.fields_aligned(),
        root.addr() % MIN_OBJECT_SIZE as int == 0,
        promoted_are_allocated(start.m),
        counted_closed(start.m, objects),
    ensures
        start.m.in_spaces(root.addr()) ==> count_of(end.m, root.addr()) > 0,
        counted_closed(end.m, objects),
        first_counts_are_promoted(start.m, end.m, objects),
{
    let n = choose|n: nat|
        #![trigger keep_steps(start, objects, n)]
        end == keep_steps(start, objects, n) && forall|k: nat|
            k < n ==> (#[trigger] keep_steps(start, objects, k)).worklist.len() > 0;
    lemma_keeping(start, objects, root, n);
    assert forall|t: ObjectReference| !end.worklist.contains(t) by {}
}

/// `path` leads from object to object along pointer fields, within the spaces.
pub open spec fn is_path(m: MetadataView, objects: ObjectModel, path: Seq<ObjectReference>) -> bool
    decreases path.len(),
{
    if path.len() == 0 {
        false
    } else if path.len() == 1 {
        m.in_spaces(path[0].addr())
    } else {
        &&& is_path(m, objects, path.drop_last())
        &&& objects.refers(path.drop_last().last().0.0, path.last())
        &&& m.in_spaces(path.last().addr())
    }
}

/// The end of a path lies in a space.
proof fn lemma_path_end(m: MetadataView, objects: ObjectModel, path: Seq<ObjectReference>)
    requires
        is_path(m, objects, path),
    ensures
        m.in_spaces(path.last().addr()),
{
    if path.len() == 1 {
        assert(path.last() == path[0]);
    }
}

/// Where every object with a count refers to objects with a count, everything that a counted
/// object reaches has a count.
pub proof fn law_reached_objects_are_counted(
    m: MetadataView,
    objects: ObjectModel,
    path: Seq<ObjectReference>,
)
    requires
        counted_closed(m, objects),
        is_path(m, objects, path),
        count_of(m, path[0].addr()) > 0,
    ensures
        count_of(m, path.last().addr()) > 0,
    decreases path.len(),
{
    if path.len() > 1 {
        let less = path.drop_last();
        assert(less[0] == path[0]);
        law_reached_objects_are_counted(m, objects, less);
        lemma_path_end(m, objects, less);
        assert(objects.refers(less.last().0.0, path.last()));
    } else {
        assert(path.last() == path[0]);
    }
}

} // verus!
