//! What holds of the trace of a pause as a whole: everything that it copies or marks is scanned, and
//! every scanned object takes its lines.

use crate::plan::concurrent::bactrian::global::scanned;
use crate::plan::concurrent::bactrian::trace::{
    closed_over, copy_of, grown, lemma_cell, lemma_lines_marked, lemma_object_scanned,
    lemma_slot_cleaned, lemma_slot_processed, lemma_slots_processed, lemma_young_traced,
    passed_over, target_of, TraceContext, TraceState,
};
use crate::util::address::{Address, ObjectReference};
use crate::util::constants::BYTES_IN_LINE;
use crate::util::metadata::SpaceKind;
use crate::util::object_forwarding::{
    law_forwarded_object_is_found, pointer_of, status, FORWARDED, FORWARDING_NOT_TRIGGERED_YET,
};
use crate::util::vm::{ObjectModel, Slot};
use vstd::prelude::*;

verus! {

/// A slot that refers to an object of a space that is emptied refers to the copy of the object after
/// it was processed, and the object leads to its copy. The copy is queued when it is made, and not
/// again. A slot that refers to another object is left alone, and so are all other slots.
pub proof fn law_slot_follows_the_copy(
    ctx: TraceContext,
    st: TraceState,
    objects: ObjectModel,
    slot: Slot,
    o: ObjectReference,
)
    requires
        ctx.fits(st),
        target_of(st.slots, slot) == Some(o),
    ensures
        ({
            let after = ctx.slot_processed(st, objects, slot);
            let space = st.m.space_of(o.addr());
            let leaves = space == SpaceKind::Nursery || (space == SpaceKind::Aged0
                && ctx.aged0_emptied) || (space == SpaceKind::Aged1 && ctx.aged1_emptied);
            let copy = ObjectReference(Address(ctx.copies[o.0.0]));
            &&& leaves ==> target_of(after.slots, slot) == Some(copy)
            &&& leaves ==> status(ctx.vm, after.m, o.addr()) == FORWARDED && pointer_of(
                ctx.vm,
                after.m,
                o.addr(),
            ) == copy
            &&& leaves && status(ctx.vm, st.m, o.addr()) != FORWARDED ==> after.nodes
                == st.nodes.push(copy)
            &&& leaves && status(ctx.vm, st.m, o.addr()) == FORWARDED ==> after.nodes == st.nodes
                && after.m == st.m
            &&& !leaves ==> after.slots == st.slots
            &&& forall|k: usize|
                #![trigger after.slots[k]]
                k != slot.0.0 ==> after.slots.dom().contains(k) == st.slots.dom().contains(k)
                    && after.slots[k] == st.slots[k]
            &&& leaves ==> after.seed == st.seed && after.parked == st.parked && after.common
                == st.common
        }),
{
    lemma_slot_processed(ctx, st, objects, slot);
    let space = st.m.space_of(o.addr());
    let copy = copy_of(ctx.copies, o.0.0);
    assert(ctx.traceable(st.m, o.0.0));
    if ctx.emptied(space) {
        assert(ctx.settled(st.m, o.0.0));
        let after = ctx.slot_processed(st, objects, slot);
        assert(copy.addr() >= st.m.start);
        assert(copy != o);
        if ctx.copies_now(st, o) {
            let base = if ctx.promotes(space) {
                st.s.copied_to(st.m, copy.addr())
            } else {
                st.m
            };
            lemma_cell(st.m, o.addr());
            assert(base.wf());
            law_forwarded_object_is_found(ctx.vm, base, o.addr(), copy);
        }
        assert(ctx.young_result(st, o) == copy);
        assert(!ctx.meets_mature(st, o));
        assert(after.slots[slot.0.0] == copy.0.0);
        assert(after.slots =~= st.slots.insert(slot.0.0, copy.0.0));
    } else {
        assert(ctx.young_result(st, o) == o);
    }
}

/// What a trace has dealt with stays dealt with, and whatever it copied, marked or met since is
/// queued.
pub open spec fn advances(ctx: TraceContext, st: TraceState, after: TraceState) -> bool {
    &&& grown(st, after)
    &&& after.s.line_mark_state == st.s.line_mark_state
    &&& after.s.mark_state == st.s.mark_state
    &&& after.s.rc_enabled == st.s.rc_enabled
    &&& after.m.line_mark.len() == st.m.line_mark.len()
    &&& forall|a: usize|
        #![trigger ctx.traceable(st.m, a)]
        ctx.traceable(st.m, a) && ctx.emptied(st.m.space_of(a as int)) ==> {
            &&& ctx.traceable(after.m, a)
            &&& status(ctx.vm, st.m, a as int) == FORWARDED ==> status(ctx.vm, after.m, a as int)
                == FORWARDED
            &&& status(ctx.vm, st.m, a as int) != FORWARDED && status(ctx.vm, after.m, a as int)
                == FORWARDED ==> after.nodes.contains(copy_of(ctx.copies, a))
        }
    &&& forall|a: usize| #[trigger]
        st.common.untraced.contains(a) && !after.common.untraced.contains(a)
            ==> after.nodes.contains(ObjectReference(Address(a)))
    &&& forall|a: usize| #[trigger]
        after.common.untraced.contains(a) ==> st.common.untraced.contains(a)
    &&& forall|l: int|
        0 <= l < st.m.line_mark.len() && st.m.line_mark[l] == st.s.line_mark_state
            ==> #[trigger] after.m.line_mark[l] == st.s.line_mark_state
}

/// One step after another.
proof fn lemma_advances_chain(ctx: TraceContext, a: TraceState, b: TraceState, c: TraceState)
    requires
        advances(ctx, a, b),
        advances(ctx, b, c),
    ensures
        advances(ctx, a, c),
{
    assert forall|i: int| 0 <= i < a.nodes.len() implies #[trigger] c.nodes[i] == a.nodes[i] by {
        assert(b.nodes[i] == a.nodes[i]);
    }
    assert forall|p: ObjectReference| b.nodes.contains(p) implies c.nodes.contains(p) by {
        let i = choose|i: int| 0 <= i < b.nodes.len() && b.nodes[i] == p;
        assert(c.nodes[i] == p);
    }
    assert forall|x: usize|
        #![trigger ctx.traceable(a.m, x)]
        ctx.traceable(a.m, x) && ctx.emptied(a.m.space_of(x as int)) implies {
        &&& ctx.traceable(c.m, x)
        &&& status(ctx.vm, a.m, x as int) == FORWARDED ==> status(ctx.vm, c.m, x as int)
            == FORWARDED
        &&& status(ctx.vm, a.m, x as int) != FORWARDED && status(ctx.vm, c.m, x as int)
            == FORWARDED ==> c.nodes.contains(copy_of(ctx.copies, x))
    } by {
        assert(ctx.traceable(b.m, x));
        assert(b.m.space_of(x as int) == a.m.space_of(x as int));
    }
    assert forall|x: usize| #[trigger]
        a.common.untraced.contains(x) && !c.common.untraced.contains(x) implies c.nodes.contains(
        ObjectReference(Address(x)),
    ) by {
        if b.common.untraced.contains(x) {
        } else {
            assert(b.nodes.contains(ObjectReference(Address(x))));
        }
    }
    assert forall|l: int|
        0 <= l < a.m.line_mark.len() && a.m.line_mark[l]
            == a.s.line_mark_state implies #[trigger] c.m.line_mark[l] == a.s.line_mark_state by {
        assert(b.m.line_mark[l] == a.s.line_mark_state);
    }
}

/// One slot.
proof fn lemma_slot_advances(ctx: TraceContext, st: TraceState, objects: ObjectModel, slot: Slot)
    requires
        ctx.fits(st),
    ensures
        advances(ctx, st, ctx.slot_processed(st, objects, slot)),
{
    lemma_slot_processed(ctx, st, objects, slot);
    lemma_slot_cleaned(ctx, st, objects, slot);
    let after = ctx.slot_processed(st, objects, slot);
    if let Some(o) = target_of(st.slots, slot) {
        let size = objects.size(o.0.0);
        let young = ctx.young_traced(st, o);
        lemma_young_traced(ctx, st, o);
        lemma_cell(st.m, o.addr());
        let traced = ctx.traced(st, o, size);
        assert(after.nodes == traced.nodes);
        assert(after.m == traced.m);
        assert forall|a: usize|
            #![trigger ctx.traceable(st.m, a)]
            ctx.traceable(st.m, a) && ctx.emptied(st.m.space_of(a as int)) implies {
            &&& ctx.traceable(after.m, a)
            &&& status(ctx.vm, st.m, a as int) == FORWARDED ==> status(ctx.vm, after.m, a as int)
                == FORWARDED
            &&& status(ctx.vm, st.m, a as int) != FORWARDED && status(ctx.vm, after.m, a as int)
                == FORWARDED ==> after.nodes.contains(copy_of(ctx.copies, a))
        } by {
            assert(after.m.space_of(a as int) == st.m.space_of(a as int));
            let copy = copy_of(ctx.copies, a);
            assert(after.m.space_of(copy.addr()) == st.m.space_of(copy.addr()));
            lemma_cell(st.m, a as int);
            if a == o.0.0 {
                law_slot_follows_the_copy(ctx, st, objects, slot, o);
                if status(ctx.vm, st.m, a as int) != FORWARDED {
                    assert(after.nodes[after.nodes.len() - 1] == copy);
                }
            } else {
                assert(st.m.cell(a as int) != st.m.cell(o.addr()));
                assert(status(ctx.vm, after.m, a as int) == status(ctx.vm, st.m, a as int));
            }
        }
        assert forall|a: usize| #[trigger]
            st.common.untraced.contains(a) && !after.common.untraced.contains(
                a,
            ) implies after.nodes.contains(ObjectReference(Address(a))) by {
            assert(a == o.0.0);
            assert(o == ObjectReference(Address(a)));
            if young.common.untraced.contains(a) {
                assert(after.nodes[after.nodes.len() - 1] == o);
            } else {
                assert(young.nodes[young.nodes.len() - 1] == o);
                assert(after.nodes[young.nodes.len() - 1] == o);
            }
        }
    }
}

/// A run of slots.
proof fn lemma_slots_advance(
    ctx: TraceContext,
    st: TraceState,
    objects: ObjectModel,
    slots: Seq<Slot>,
)
    requires
        ctx.fits(st),
    ensures
        advances(ctx, st, ctx.slots_processed(st, objects, slots)),
    decreases slots.len(),
{
    if slots.len() > 0 {
        let less = slots.drop_last();
        lemma_slots_advance(ctx, st, objects, less);
        lemma_slots_processed(ctx, st, objects, less);
        let before = ctx.slots_processed(st, objects, less);
        lemma_slot_advances(ctx, before, objects, slots.last());
        lemma_advances_chain(ctx, st, before, ctx.slots_processed(st, objects, slots));
    }
}

/// The lines that an object of `size` bytes touches carry the mark.
pub open spec fn lines_taken(st: TraceState, o: ObjectReference, size: usize) -> bool {
    forall|l: int|
        0 <= l < st.m.line_mark.len() && st.m.line(o.addr()) <= l && st.m.start + l * BYTES_IN_LINE
            < o.addr() + size ==> #[trigger] st.m.line_mark[l] == st.s.line_mark_state
}

/// The lines of one object.
proof fn lemma_scan_takes_lines(ctx: TraceContext, st: TraceState, o: ObjectReference, size: usize)
    requires
        ctx.fits(st),
    ensures
        ({
            let after = TraceState { m: scanned(st.s, st.m, o, size), ..st };
            &&& advances(ctx, st, after)
            &&& st.m.space_of(o.addr()) == SpaceKind::Immix ==> lines_taken(after, o, size)
        }),
{
    let after = TraceState { m: scanned(st.s, st.m, o, size), ..st };
    lemma_lines_marked(ctx, st, o, size);
    assert forall|a: usize|
        #![trigger ctx.traceable(st.m, a)]
        ctx.traceable(st.m, a) && ctx.emptied(st.m.space_of(a as int)) implies {
        &&& ctx.traceable(after.m, a)
        &&& status(ctx.vm, after.m, a as int) == status(ctx.vm, st.m, a as int)
    } by {
        assert(after.m.space_of(a as int) == st.m.space_of(a as int));
        let copy = copy_of(ctx.copies, a);
        assert(after.m.space_of(copy.addr()) == st.m.space_of(copy.addr()));
    }
}

/// Some queued objects.
proof fn lemma_nodes_advance(
    ctx: TraceContext,
    st: TraceState,
    objects: ObjectModel,
    no_slots: Set<usize>,
    n: nat,
)
    requires
        ctx.fits(st),
        forall|k: nat|
            k < n ==> k < (#[trigger] ctx.nodes_scanned(st, objects, no_slots, k)).nodes.len(),
    ensures
        ({
            let after = ctx.nodes_scanned(st, objects, no_slots, n);
            &&& ctx.fits(after)
            &&& advances(ctx, st, after)
            &&& forall|i: int|
                0 <= i < n && !no_slots.contains((#[trigger] after.nodes[i]).0.0)
                    && after.m.space_of(after.nodes[i].addr()) == SpaceKind::Immix ==> lines_taken(
                    after,
                    after.nodes[i],
                    objects.size(after.nodes[i].0.0),
                )
        }),
    decreases n,
{
    if n > 0 {
        let p = (n - 1) as nat;
        lemma_nodes_advance(ctx, st, objects, no_slots, p);
        let before = ctx.nodes_scanned(st, objects, no_slots, p);
        let after = ctx.nodes_scanned(st, objects, no_slots, n);
        assert(p < before.nodes.len());
        let o = before.nodes[p as int];
        let size = objects.size(o.0.0);
        if !no_slots.contains(o.0.0) {
            let marked = TraceState { m: scanned(before.s, before.m, o, size), ..before };
            lemma_lines_marked(ctx, before, o, size);
            lemma_object_scanned(ctx, before, objects, o);
            lemma_scan_takes_lines(ctx, before, o, size);
            lemma_slots_advance(ctx, marked, objects, objects.field_slots(o.0.0));
            lemma_advances_chain(ctx, before, marked, after);
            lemma_advances_chain(ctx, st, before, after);
            if after.m.space_of(o.addr()) == SpaceKind::Immix {
                assert(marked.m.space_of(o.addr()) == before.m.space_of(o.addr()));
                assert(lines_taken(marked, o, size));
                lemma_lines_stay(ctx, marked, after, o, size);
            }
            assert forall|i: int|
                0 <= i < n && !no_slots.contains((#[trigger] after.nodes[i]).0.0)
                    && after.m.space_of(
                    after.nodes[i].addr(),
                ) == SpaceKind::Immix implies lines_taken(
                after,
                after.nodes[i],
                objects.size(after.nodes[i].0.0),
            ) by {
                assert(after.nodes[i] == before.nodes[i]);
                if i < p {
                    let q = before.nodes[i];
                    lemma_advances_chain(ctx, before, marked, after);
                    assert(before.m.space_of(q.addr()) == after.m.space_of(q.addr()));
                    lemma_lines_stay(ctx, before, after, q, objects.size(q.0.0));
                }
            }
        }
    } else {
        assert(advances(ctx, st, st));
    }
}

/// Lines that are taken stay taken.
proof fn lemma_lines_stay(
    ctx: TraceContext,
    st: TraceState,
    after: TraceState,
    o: ObjectReference,
    size: usize,
)
    requires
        advances(ctx, st, after),
        lines_taken(st, o, size),
    ensures
        lines_taken(after, o, size),
{
    assert forall|l: int|
        0 <= l < after.m.line_mark.len() && after.m.line(o.addr()) <= l && after.m.start + l
            * BYTES_IN_LINE < o.addr() + size implies #[trigger] after.m.line_mark[l]
        == after.s.line_mark_state by {
        assert(st.m.line_mark[l] == st.s.line_mark_state);
    }
}

/// When a trace of slots, and of all that was or came into its queue, is done, every object that it
/// copied is queued as its copy, and every object of the common spaces that it met is queued. So
/// the fields of all of them were processed, except those that the runtime cannot tell. And every
/// object of the mature space that was scanned has marked the lines that it touches.
pub proof fn law_trace_scans_what_it_copies(
    ctx: TraceContext,
    st: TraceState,
    after: TraceState,
    objects: ObjectModel,
    slots: Seq<Slot>,
    no_slots: Set<usize>,
    n: nat,
)
    requires
        ctx.fits(st),
        closed_over(ctx, ctx.slots_processed(st, objects, slots), after, objects, no_slots, n),
    ensures
        forall|i: int| 0 <= i < slots.len() ==> ctx.slot_clean(after, #[trigger] slots[i]),
        forall|a: usize|
            #![trigger ctx.traceable(st.m, a)]
            ctx.traceable(st.m, a) && ctx.emptied(st.m.space_of(a as int)) && status(
                ctx.vm,
                st.m,
                a as int,
            ) == FORWARDING_NOT_TRIGGERED_YET && status(ctx.vm, after.m, a as int) == FORWARDED
                ==> after.nodes.contains(copy_of(ctx.copies, a)),
        forall|a: usize| #[trigger]
            st.common.untraced.contains(a) && !after.common.untraced.contains(a)
                ==> after.nodes.contains(ObjectReference(Address(a))),
        forall|i: int|
            0 <= i < after.nodes.len() && !no_slots.contains((#[trigger] after.nodes[i]).0.0)
                && after.m.space_of(after.nodes[i].addr()) == SpaceKind::Immix ==> lines_taken(
                after,
                after.nodes[i],
                objects.size(after.nodes[i].0.0),
            ),
{
    let roots = ctx.slots_processed(st, objects, slots);
    lemma_slots_processed(ctx, st, objects, slots);
    lemma_slots_advance(ctx, st, objects, slots);
    lemma_nodes_advance(ctx, roots, objects, no_slots, n);
    lemma_advances_chain(ctx, st, roots, after);
    lemma_nodes_keep_clean(ctx, roots, objects, no_slots, n);
    assert forall|i: int| 0 <= i < slots.len() implies ctx.slot_clean(after, #[trigger] slots[i]) by {
        assert(ctx.slot_clean(roots, slots[i]));
    }
}

/// The objects that are passed over are those whose slots the runtime cannot tell, in order.
pub proof fn law_objects_without_slots_are_passed_over(
    nodes: Seq<ObjectReference>,
    no_slots: Set<usize>,
    n: nat,
)
    requires
        n <= nodes.len(),
    ensures
        passed_over(nodes, no_slots, n) == nodes.take(n as int).filter(
            |o: ObjectReference| no_slots.contains(o.0.0),
        ),
    decreases n,
{
    reveal(Seq::filter);
    if n > 0 {
        law_objects_without_slots_are_passed_over(nodes, no_slots, (n - 1) as nat);
        assert(nodes.take(n as int).drop_last() =~= nodes.take(n - 1));
        assert(nodes.take(n as int).last() == nodes[n - 1]);
    }
}

/// A slot that is clean stays clean while queued objects are scanned.
proof fn lemma_nodes_keep_clean(
    ctx: TraceContext,
    st: TraceState,
    objects: ObjectModel,
    no_slots: Set<usize>,
    n: nat,
)
    requires
        ctx.fits(st),
        forall|k: nat|
            k < n ==> k < (#[trigger] ctx.nodes_scanned(st, objects, no_slots, k)).nodes.len(),
    ensures
        forall|slot: Slot|
            ctx.slot_clean(st, slot) ==> #[trigger] ctx.slot_clean(
                ctx.nodes_scanned(st, objects, no_slots, n),
                slot,
            ),
    decreases n,
{
    if n > 0 {
        let p = (n - 1) as nat;
        lemma_nodes_keep_clean(ctx, st, objects, no_slots, p);
        lemma_nodes_advance(ctx, st, objects, no_slots, p);
        let before = ctx.nodes_scanned(st, objects, no_slots, p);
        let after = ctx.nodes_scanned(st, objects, no_slots, n);
        assert(p < before.nodes.len());
        let o = before.nodes[p as int];
        if !no_slots.contains(o.0.0) {
            lemma_object_scanned(ctx, before, objects, o);
        }
        assert forall|slot: Slot| ctx.slot_clean(st, slot) implies #[trigger] ctx.slot_clean(
            after,
            slot,
        ) by {
            assert(ctx.slot_clean(before, slot));
        }
    }
}

} // verus!
