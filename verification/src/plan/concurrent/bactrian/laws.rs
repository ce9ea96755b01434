//! What holds of the pauses at the two ends of a cycle as a whole.

use crate::plan::concurrent::bactrian::barrier::object_addresses;
use crate::plan::concurrent::bactrian::global::{copied_young, scanned};
use crate::plan::concurrent::bactrian::trace::{
    closed_over, copy_of, grown, lemma_cell, lemma_lines_marked, lemma_nodes_clean,
    lemma_object_scanned, lemma_slot_cleaned, lemma_slot_processed, lemma_slots_processed,
    lemma_young_traced, target_of, TraceContext, TraceState,
    SEED_CAPACITY,
};
use crate::plan::concurrent::Pause;
use crate::util::address::ObjectReference;
use crate::util::metadata::SpaceKind;
use crate::util::vm::{ObjectModel, Slot};
use vstd::prelude::*;

verus! {

/// The object is a seed for the marker, or was handed to it in a packet.
pub open spec fn is_seeded(st: TraceState, object: ObjectReference) -> bool {
    ||| st.seed.contains(object)
    ||| exists|i: int| 0 <= i < st.parked.len() && (#[trigger] st.parked[i]).1.contains(object.0.0)
    ||| exists|i: int|
        0 <= i < st.concurrent.len() && (#[trigger] st.concurrent[i]).contains(object.0.0)
}

/// The object is not young.
pub open spec fn is_mature(st: TraceState, object: ObjectReference) -> bool {
    let space = st.m.space_of(object.addr());
    &&& !copied_young(space)
    &&& !(space == SpaceKind::LargeObject && st.common.young.contains(object.0.0))
}

/// The object carries its mark, or in the common spaces a trace has met it.
pub open spec fn is_marked(st: TraceState, object: ObjectReference) -> bool {
    if st.m.space_of(object.addr()) == SpaceKind::Immix {
        st.s.marked(st.m, object.addr())
    } else {
        !st.common.untraced.contains(object.0.0)
    }
}

/// The pause has done its part for a mature object: the first pause of a cycle has made it a seed,
/// and the last one has marked it.
pub open spec fn is_served(ctx: TraceContext, st: TraceState, object: ObjectReference) -> bool {
    &&& ctx.pause == Pause::InitialMark ==> is_seeded(st, object)
    &&& ctx.pause == Pause::FinalMark ==> is_marked(st, object)
}

/// The pause has done its part for what a slot refers to in `st`, if that is mature.
pub open spec fn slot_served(
    ctx: TraceContext,
    st: TraceState,
    after: TraceState,
    slot: Slot,
) -> bool {
    match target_of(st.slots, slot) {
        Some(p) => is_mature(st, p) ==> is_served(ctx, after, p),
        None => true,
    }
}

/// What is kept from one step of a trace to the next: seeds, marks, and what slots with mature
/// targets refer to.
pub open spec fn keeps(st: TraceState, after: TraceState) -> bool {
    &&& forall|p: ObjectReference| is_seeded(st, p) ==> #[trigger] is_seeded(after, p)
    &&& forall|p: ObjectReference|
        st.m.in_heap(p.addr()) && is_marked(st, p) ==> #[trigger] is_marked(after, p)
    &&& forall|p: ObjectReference| is_mature(st, p) ==> #[trigger] is_mature(after, p)
    &&& forall|k: Slot|
        (target_of(st.slots, k) matches Some(p) ==> is_mature(st, p)) ==> #[trigger] target_of(
            after.slots,
            k,
        ) == target_of(st.slots, k)
}

/// A new seed is one, and so are the earlier ones.
proof fn lemma_seeded_stays(ctx: TraceContext, st: TraceState, o: ObjectReference)
    ensures
        is_seeded(ctx.seeded(st, o), o),
        forall|p: ObjectReference| is_seeded(st, p) ==> #[trigger] is_seeded(ctx.seeded(st, o), p),
{
    let pushed = TraceState { seed: st.seed.push(o), ..st };
    let packet = object_addresses(pushed.seed);
    let after = ctx.seeded(st, o);
    assert(pushed.seed[st.seed.len() as int] == o);
    assert(packet[st.seed.len() as int] == o.0.0);
    if pushed.seed.len() >= SEED_CAPACITY {
        if ctx.sliced {
            assert(after.parked[st.parked.len() as int].1 == packet);
        } else {
            assert(after.concurrent[st.concurrent.len() as int] == packet);
        }
    }
    assert forall|p: ObjectReference| is_seeded(st, p) implies #[trigger] is_seeded(after, p) by {
        if st.seed.contains(p) {
            let i = choose|i: int| 0 <= i < st.seed.len() && st.seed[i] == p;
            assert(pushed.seed[i] == p);
            assert(packet[i] == p.0.0);
        } else if exists|i: int|
            0 <= i < st.parked.len() && (#[trigger] st.parked[i]).1.contains(p.0.0) {
            let i = choose|i: int|
                0 <= i < st.parked.len() && (#[trigger] st.parked[i]).1.contains(p.0.0);
            assert(after.parked[i] == st.parked[i]);
        } else {
            let i = choose|i: int|
                0 <= i < st.concurrent.len() && (#[trigger] st.concurrent[i]).contains(p.0.0);
            assert(after.concurrent[i] == st.concurrent[i]);
        }
    }
}

/// The seeds and packets alone decide what is a seed.
proof fn lemma_same_seeds(st: TraceState, after: TraceState, p: ObjectReference)
    requires
        after.seed == st.seed,
        after.parked == st.parked,
        after.concurrent == st.concurrent,
    ensures
        is_seeded(after, p) == is_seeded(st, p),
{
}

/// What processing a slot keeps, and what it does for a mature target.
proof fn lemma_slot_serves(ctx: TraceContext, st: TraceState, objects: ObjectModel, slot: Slot)
    requires
        ctx.fits(st),
    ensures
        keeps(st, ctx.slot_processed(st, objects, slot)),
        slot_served(ctx, st, ctx.slot_processed(st, objects, slot), slot),
{
    lemma_slot_processed(ctx, st, objects, slot);
    lemma_slot_cleaned(ctx, st, objects, slot);
    let after = ctx.slot_processed(st, objects, slot);
    if let Some(o) = target_of(st.slots, slot) {
        let young = ctx.young_traced(st, o);
        let new = copy_of(ctx.copies, o.0.0);
        lemma_young_traced(ctx, st, o);
        lemma_cell(st.m, o.addr());
        if ctx.copies_now(st, o) {
            lemma_cell(st.m, new.addr());
        }
        if ctx.meets_mature(st, o) && ctx.pause == Pause::InitialMark {
            lemma_seeded_stays(ctx, young, o);
        }
        assert forall|p: ObjectReference| is_seeded(st, p) implies #[trigger] is_seeded(
            after,
            p,
        ) by {
            lemma_same_seeds(st, young, p);
            if ctx.meets_mature(st, o) && ctx.pause == Pause::InitialMark {
                lemma_same_seeds(ctx.seeded(young, o), after, p);
            } else {
                lemma_same_seeds(young, after, p);
            }
        }
        assert forall|p: ObjectReference|
            st.m.in_heap(p.addr()) && is_marked(st, p) implies #[trigger] is_marked(after, p) by {
            assert(st.m.space_of(p.addr()) == after.m.space_of(p.addr()));
            lemma_cell(st.m, p.addr());
        }
        assert forall|p: ObjectReference| is_mature(st, p) implies #[trigger] is_mature(
            after,
            p,
        ) by {
            assert(st.m.space_of(p.addr()) == after.m.space_of(p.addr()));
        }
        assert forall|k: Slot|
            (target_of(st.slots, k) matches Some(p) ==> is_mature(
                st,
                p,
            )) implies #[trigger] target_of(after.slots, k) == target_of(st.slots, k) by {
            if k.0.0 == slot.0.0 {
                assert(is_mature(st, o));
                assert(!ctx.emptied(st.m.space_of(o.addr())));
            }
        }
        if is_mature(st, o) {
            assert(!ctx.emptied(st.m.space_of(o.addr())));
            assert(is_mature(young, o));
        }
    }
}

/// What processing slots keeps, and what it does for mature targets.
proof fn lemma_slots_serve(
    ctx: TraceContext,
    st: TraceState,
    objects: ObjectModel,
    slots: Seq<Slot>,
)
    requires
        ctx.fits(st),
        ctx.slots_traceable(st),
    ensures
        keeps(st, ctx.slots_processed(st, objects, slots)),
        forall|i: int|
            0 <= i < slots.len() ==> slot_served(
                ctx,
                st,
                ctx.slots_processed(st, objects, slots),
                #[trigger] slots[i],
            ),
    decreases slots.len(),
{
    if slots.len() > 0 {
        let less = slots.drop_last();
        let before = ctx.slots_processed(st, objects, less);
        let after = ctx.slots_processed(st, objects, slots);
        lemma_slots_serve(ctx, st, objects, less);
        lemma_slots_processed(ctx, st, objects, less);
        lemma_slot_serves(ctx, before, objects, slots.last());
        lemma_keeps_chain(st, before, after);
        assert forall|i: int| 0 <= i < slots.len() implies slot_served(
            ctx,
            st,
            after,
            #[trigger] slots[i],
        ) by {
            if let Some(p) = target_of(st.slots, slots[i]) {
                if is_mature(st, p) {
                    assert(ctx.traceable(st.m, st.slots[slots[i].0.0]));
                    if i < less.len() {
                        assert(slot_served(ctx, st, before, less[i]));
                        lemma_served_stays(ctx, before, after, p);
                    } else {
                        assert(target_of(before.slots, slots[i]) == Some(p));
                        assert(is_mature(before, p));
                    }
                }
            }
        }
    }
}

/// What is kept over two steps.
proof fn lemma_keeps_chain(st: TraceState, middle: TraceState, after: TraceState)
    requires
        keeps(st, middle),
        keeps(middle, after),
        grown(st, middle),
    ensures
        keeps(st, after),
{
    assert forall|p: ObjectReference| is_seeded(st, p) implies #[trigger] is_seeded(after, p) by {
        assert(is_seeded(middle, p));
    }
    assert forall|p: ObjectReference|
        st.m.in_heap(p.addr()) && is_marked(st, p) implies #[trigger] is_marked(after, p) by {
        assert(is_marked(middle, p));
    }
    assert forall|p: ObjectReference| is_mature(st, p) implies #[trigger] is_mature(after, p) by {
        assert(is_mature(middle, p));
    }
    assert forall|k: Slot|
        (target_of(st.slots, k) matches Some(p) ==> is_mature(st, p)) implies #[trigger] target_of(
        after.slots,
        k,
    ) == target_of(st.slots, k) by {
        assert(target_of(middle.slots, k) == target_of(st.slots, k));
        if let Some(p) = target_of(st.slots, k) {
            assert(is_mature(middle, p));
        }
    }
}

/// What a pause has done for an object stays done.
proof fn lemma_served_stays(
    ctx: TraceContext,
    st: TraceState,
    after: TraceState,
    object: ObjectReference,
)
    requires
        keeps(st, after),
        is_served(ctx, st, object),
        st.m.in_heap(object.addr()),
    ensures
        is_served(ctx, after, object),
{
}

/// What scanning queued objects keeps, and what it does for mature targets of their slots.
proof fn lemma_nodes_serve(
    ctx: TraceContext,
    st: TraceState,
    objects: ObjectModel,
    no_slots: Set<usize>,
    n: nat,
)
    requires
        ctx.fits(st),
        forall|k: nat|
            k < n ==> k < (#[trigger] ctx.nodes_scanned(st, objects, no_slots, k)).nodes.len(),
    ensures
        ({
            let after = ctx.nodes_scanned(st, objects, no_slots, n);
            &&& keeps(st, after)
            &&& grown(st, after)
            &&& forall|i: int, j: int|
                #![trigger objects.field_slots(after.nodes[i].0.0)[j]]
                0 <= i < n && !no_slots.contains(after.nodes[i].0.0) && 0 <= j
                    < objects.field_slots(after.nodes[i].0.0).len() ==> slot_served(
                    ctx,
                    st,
                    after,
                    objects.field_slots(after.nodes[i].0.0)[j],
                )
        }),
    decreases n,
{
    if n > 0 {
        let less = (n - 1) as nat;
        let before = ctx.nodes_scanned(st, objects, no_slots, less);
        let after = ctx.nodes_scanned(st, objects, no_slots, n);
        lemma_nodes_serve(ctx, st, objects, no_slots, less);
        lemma_nodes_clean(ctx, st, objects, no_slots, less);
        assert(n - 1 < before.nodes.len());
        let o = before.nodes[n - 1];
        let slots = objects.field_slots(o.0.0);
        if !no_slots.contains(o.0.0) {
            let marked = TraceState {
                m: scanned(before.s, before.m, o, objects.size(o.0.0)),
                ..before
            };
            lemma_lines_marked(ctx, before, o, objects.size(o.0.0));
            lemma_lines_keep(before, marked);
            lemma_object_scanned(ctx, before, objects, o);
            lemma_slots_serve(ctx, marked, objects, slots);
            lemma_keeps_chain(before, marked, after);
            assert forall|j: int| 0 <= j < slots.len() implies slot_served(
                ctx,
                before,
                after,
                #[trigger] slots[j],
            ) by {
                assert(slot_served(ctx, marked, after, slots[j]));
                if let Some(p) = target_of(before.slots, slots[j]) {
                    if is_mature(before, p) {
                        assert(is_mature(marked, p));
                    }
                }
            }
        }
        lemma_keeps_chain(st, before, after);
        assert forall|i: int, j: int|
            #![trigger objects.field_slots(after.nodes[i].0.0)[j]]
            0 <= i < n && !no_slots.contains(after.nodes[i].0.0) && 0 <= j < objects.field_slots(
                after.nodes[i].0.0,
            ).len() implies slot_served(
            ctx,
            st,
            after,
            objects.field_slots(after.nodes[i].0.0)[j],
        ) by {
            assert(after.nodes[i] == before.nodes[i]);
            let slot = objects.field_slots(before.nodes[i].0.0)[j];
            if let Some(p) = target_of(st.slots, slot) {
                if is_mature(st, p) {
                    assert(ctx.traceable(st.m, st.slots[slot.0.0]));
                    assert(target_of(before.slots, slot) == Some(p));
                    assert(is_mature(before, p));
                    if i < n - 1 {
                        assert(slot_served(ctx, st, before, slot));
                        lemma_served_stays(ctx, before, after, p);
                    } else {
                        assert(slot == slots[j]);
                        assert(slot_served(ctx, before, after, slots[j]));
                    }
                }
            }
        }
    }
}

/// The lines of an object change nothing of what is kept.
proof fn lemma_lines_keep(st: TraceState, after: TraceState)
    requires
        after == (TraceState { m: after.m, ..st }),
        after.m.mark == st.m.mark,
        after.m.start == st.m.start,
        after.m.chunks == st.m.chunks,
        after.m.spaces == st.m.spaces,
    ensures
        keeps(st, after),
{
    assert forall|p: ObjectReference| is_seeded(st, p) implies #[trigger] is_seeded(after, p) by {
        lemma_same_seeds(st, after, p);
    }
    assert forall|p: ObjectReference| is_mature(st, p) implies #[trigger] is_mature(after, p) by {
        assert(st.m.space_of(p.addr()) == after.m.space_of(p.addr()));
    }
    assert forall|p: ObjectReference|
        st.m.in_heap(p.addr()) && is_marked(st, p) implies #[trigger] is_marked(after, p) by {
        assert(st.m.space_of(p.addr()) == after.m.space_of(p.addr()));
    }
}

/// What the trace of a pause does for mature objects: those that its slots refer to, and those
/// that the slots of the objects refer to which it scans.
proof fn lemma_pause_serves(
    ctx: TraceContext,
    st: TraceState,
    after: TraceState,
    objects: ObjectModel,
    slots: Seq<Slot>,
    no_slots: Set<usize>,
    n: nat,
    slot: Slot,
    object: ObjectReference,
)
    requires
        ctx.fits(st),
        closed_over(ctx, ctx.slots_processed(st, objects, slots), after, objects, no_slots, n),
        target_of(st.slots, slot) == Some(object),
        is_mature(st, object),
        reached(after, objects, slots, no_slots, slot),
    ensures
        is_served(ctx, after, object),
{
    let traced = ctx.slots_processed(st, objects, slots);
    lemma_slots_processed(ctx, st, objects, slots);
    lemma_slots_serve(ctx, st, objects, slots);
    lemma_nodes_serve(ctx, traced, objects, no_slots, n);
    assert(ctx.traceable(st.m, st.slots[slot.0.0]));
    assert(target_of(traced.slots, slot) == Some(object));
    assert(is_mature(traced, object));
    if slots.contains(slot) {
        let i = choose|i: int| 0 <= i < slots.len() && slots[i] == slot;
        assert(slot_served(ctx, st, traced, slots[i]));
        lemma_served_stays(ctx, traced, after, object);
    } else {
        let (i, j) = choose|i: int, j: int|
            0 <= i < after.nodes.len() && !no_slots.contains(after.nodes[i].0.0) && 0 <= j
                < objects.field_slots(after.nodes[i].0.0).len() && (
            #[trigger] objects.field_slots(after.nodes[i].0.0)[j]) == slot;
        assert(slot_served(ctx, traced, after, objects.field_slots(after.nodes[i].0.0)[j]));
    }
}

/// A trace has processed the slot: it is one of `slots`, or belongs to an object that was scanned.
pub open spec fn reached(
    after: TraceState,
    objects: ObjectModel,
    slots: Seq<Slot>,
    no_slots: Set<usize>,
    slot: Slot,
) -> bool {
    ||| slots.contains(slot)
    ||| exists|i: int, j: int|
        0 <= i < after.nodes.len() && !no_slots.contains(after.nodes[i].0.0) && 0 <= j
            < objects.field_slots(after.nodes[i].0.0).len() && (
        #[trigger] objects.field_slots(after.nodes[i].0.0)[j]) == slot
}

/// The first pause of a cycle takes the snapshot: every mature object that its trace meets, from a
/// root or from an object that it scans, is a seed for the marker.
pub proof fn law_first_pause_seeds_mature_objects(
    ctx: TraceContext,
    st: TraceState,
    after: TraceState,
    objects: ObjectModel,
    slots: Seq<Slot>,
    no_slots: Set<usize>,
    n: nat,
    slot: Slot,
    object: ObjectReference,
)
    requires
        ctx.fits(st),
        ctx.pause == Pause::InitialMark,
        closed_over(ctx, ctx.slots_processed(st, objects, slots), after, objects, no_slots, n),
        reached(after, objects, slots, no_slots, slot),
        target_of(st.slots, slot) == Some(object),
        is_mature(st, object),
    ensures
        is_seeded(after, object),
{
    lemma_pause_serves(ctx, st, after, objects, slots, no_slots, n, slot, object);
}

/// The last pause of a cycle completes the marks: every mature object that its trace meets, from a
/// root or from an object that it scans, is marked.
pub proof fn law_last_pause_marks_mature_objects(
    ctx: TraceContext,
    st: TraceState,
    after: TraceState,
    objects: ObjectModel,
    slots: Seq<Slot>,
    no_slots: Set<usize>,
    n: nat,
    slot: Slot,
    object: ObjectReference,
)
    requires
        ctx.fits(st),
        ctx.pause == Pause::FinalMark,
        closed_over(ctx, ctx.slots_processed(st, objects, slots), after, objects, no_slots, n),
        reached(after, objects, slots, no_slots, slot),
        target_of(st.slots, slot) == Some(object),
        is_mature(st, object),
    ensures
        is_marked(after, object),
{
    lemma_pause_serves(ctx, st, after, objects, slots, no_slots, n, slot, object);
}

/// An object that is promoted is marked from the start, so that it survives the sweep of a cycle
/// without being marked.
pub proof fn law_promoted_objects_are_marked(
    ctx: TraceContext,
    st: TraceState,
    object: ObjectReference,
    size: usize,
)
    requires
        ctx.fits(st),
        ctx.traceable(st.m, object.0.0),
        ctx.copies_now(st, object),
        ctx.promotes(st.m.space_of(object.addr())),
    ensures
        st.s.marked(
            ctx.traced(st, object, size).m,
            copy_of(ctx.copies, object.0.0).addr(),
        ),
{
    lemma_young_traced(ctx, st, object);
    lemma_cell(st.m, copy_of(ctx.copies, object.0.0).addr());
}

} // verus!
