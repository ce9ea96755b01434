//! What keeping an object alive does to counts as a whole: it counts each reference that it follows
//! once.

use crate::plan::lxr::decrements::all_aligned;
use crate::plan::lxr::increments::{
    all_unlogged, fields_of, lemma_aligned_cells, lemma_fields_add, lemma_fields_one,
    lemma_promotion_counts_nothing, lemma_promotion_grows, lemma_refs_add, lemma_refs_empty,
    lemma_refs_push, lemma_unlogged_stay, own_count, references_aligned, refs, unlogged_in,
};
use crate::plan::lxr::rc::{
    fields_kept, grows, keep_step, keep_steps, kept_alive, lemma_fields_kept, lemma_grows_chain,
    lemma_keep_step, promoted_space, promoted_tables, slot_unlogged, KeepState,
};
use crate::util::address::{Address, ObjectReference};
use crate::util::constants::{BYTES_IN_LINE, MIN_OBJECT_SIZE};
use crate::util::metadata::{MetadataView, SpaceKind, MAX_REF_COUNT};
use crate::util::occurrences::{lemma_times_push, times};
use crate::util::rc::{count_of, incremented};
use crate::util::vm::{ObjectModel, Slot};
use vstd::prelude::*;

verus! {

/// The count of `a` after objects were visited: what it was, and one for each visit that was asked
/// for and each field of an object that got its first count that refers to `a`, except those that
/// are still to come. Only a count that reached its maximum may be short of that.
pub open spec fn visits_counted(
    st: KeepState,
    after: KeepState,
    objects: ObjectModel,
    first: Seq<ObjectReference>,
    a: usize,
) -> bool {
    let o = ObjectReference(Address(a));
    let owed = count_of(st.m, a as int) + times(st.worklist, o) + refs(
        objects,
        fields_of(objects, first),
        o,
    );
    let now = count_of(after.m, a as int) + times(after.worklist, o);
    &&& count_of(st.m, a as int) <= count_of(after.m, a as int)
    &&& now <= owed
    &&& count_of(after.m, a as int) < MAX_REF_COUNT ==> now == owed
    &&& count_of(st.m, a as int) == 0 && count_of(after.m, a as int) > 0 ==> first.contains(o)
}

/// What visits do, when exactly the objects in `first` get their first count: the fields of these
/// are unlogged, and no field that was is logged.
pub open spec fn keep_effect(
    st: KeepState,
    after: KeepState,
    objects: ObjectModel,
    first: Seq<ObjectReference>,
) -> bool {
    &&& grows(st.m, after.m)
    &&& all_aligned(st.worklist) ==> all_aligned(after.worklist)
    &&& forall|p: ObjectReference| #[trigger]
        first.contains(p) ==> st.m.in_spaces(p.addr()) && count_of(st.m, p.addr()) == 0
    &&& forall|a: usize|
        st.m.in_spaces(a as int) && own_count(st.m, objects, a) ==> #[trigger] visits_counted(
            st,
            after,
            objects,
            first,
            a,
        )
    &&& all_unlogged(after.m, fields_of(objects, first))
    &&& forall|c: int|
        0 <= c < st.m.field_unlog.len() && st.m.field_unlog[c] == 1
            ==> #[trigger] after.m.field_unlog[c] == 1
}

/// Some visits after others.
proof fn lemma_keep_chain(
    x: KeepState,
    y: KeepState,
    z: KeepState,
    objects: ObjectModel,
    p1: Seq<ObjectReference>,
    p2: Seq<ObjectReference>,
)
    requires
        x.m.wf(),
        keep_effect(x, y, objects, p1),
        keep_effect(y, z, objects, p2),
    ensures
        keep_effect(x, z, objects, p1 + p2),
{
    let p = p1 + p2;
    lemma_grows_chain(x.m, y.m, z.m);
    lemma_fields_add(objects, p1, p2);
    let f1 = fields_of(objects, p1);
    let f2 = fields_of(objects, p2);
    assert forall|q: ObjectReference| #[trigger] p.contains(q) implies p1.contains(q)
        || p2.contains(q) by {
        let k = choose|k: int| 0 <= k < p.len() && p[k] == q;
        if k < p1.len() {
            assert(p1[k] == q);
        } else {
            assert(p2[k - p1.len()] == q);
        }
    }
    assert forall|q: ObjectReference| p1.contains(q) || p2.contains(q) implies p.contains(q) by {
        if p1.contains(q) {
            let k = choose|k: int| 0 <= k < p1.len() && p1[k] == q;
            assert(p[k] == q);
        } else {
            let k = choose|k: int| 0 <= k < p2.len() && p2[k] == q;
            assert(p[k + p1.len()] == q);
        }
    }
    assert forall|q: ObjectReference| #[trigger] p.contains(q) implies x.m.in_spaces(q.addr())
        && count_of(x.m, q.addr()) == 0 by {
        if !p1.contains(q) {
            assert(p2.contains(q));
            let c = x.m.cell(q.addr());
            assert(x.m.rc[c] != 0 ==> y.m.rc[c] != 0);
        }
    }
    assert forall|a: usize|
        x.m.in_spaces(a as int) && own_count(x.m, objects, a) implies #[trigger] visits_counted(
        x,
        z,
        objects,
        p,
        a,
    ) by {
        let o = ObjectReference(Address(a));
        assert(own_count(y.m, objects, a));
        assert(visits_counted(x, y, objects, p1, a));
        assert(visits_counted(y, z, objects, p2, a));
        lemma_refs_add(objects, f1, f2, o);
    }
    lemma_unlogged_stay(y.m, z.m, f1);
    assert(all_unlogged(z.m, f1 + f2)) by {
        assert forall|i: int| 0 <= i < (f1 + f2).len() implies unlogged_in(
            z.m,
            #[trigger] (f1 + f2)[i],
        ) by {
            if i < f1.len() {
                assert(unlogged_in(z.m, f1[i]));
            } else {
                assert(unlogged_in(z.m, f2[i - f1.len()]));
            }
        }
    }
}

/// The fields of an object that is kept: each is unlogged, and each reference is left for a visit.
proof fn lemma_fields_queued(st: KeepState, objects: ObjectModel, slots: Seq<Slot>)
    requires
        st.m.wf(),
        references_aligned(objects),
    ensures
        ({
            let after = fields_kept(st, objects, slots);
            &&& grows(st.m, after.m)
            &&& after.m.rc == st.m.rc
            &&& all_unlogged(after.m, slots)
            &&& all_aligned(st.worklist) ==> all_aligned(after.worklist)
            &&& forall|o: ObjectReference| #[trigger]
                times(after.worklist, o) == times(st.worklist, o) + refs(objects, slots, o)
            &&& forall|c: int|
                0 <= c < st.m.field_unlog.len() && st.m.field_unlog[c] == 1
                    ==> #[trigger] after.m.field_unlog[c] == 1
        }),
    decreases slots.len(),
{
    let after = fields_kept(st, objects, slots);
    lemma_fields_kept(st, objects, slots);
    if slots.len() == 0 {
        assert(slots =~= Seq::empty());
        assert forall|o: ObjectReference| #[trigger] times(after.worklist, o) == times(
            st.worklist,
            o,
        ) + refs(objects, slots, o) by {
            lemma_refs_empty(objects, o);
        }
    } else {
        let less = slots.drop_last();
        let slot = slots.last();
        lemma_fields_queued(st, objects, less);
        let before = fields_kept(st, objects, less);
        assert(after.m == slot_unlogged(before.m, slot.0.0 as int));
        lemma_unlogged_stay(before.m, after.m, less);
        assert forall|i: int| 0 <= i < slots.len() implies unlogged_in(after.m, #[trigger] slots[i]) by {
            if i < less.len() {
                assert(slots[i] == less[i]);
                assert(unlogged_in(after.m, less[i]));
            } else {
                assert(slots[i] == slot);
            }
        }
        assert(slots =~= less.push(slot));
        assert forall|o: ObjectReference| #[trigger] times(after.worklist, o) == times(
            st.worklist,
            o,
        ) + refs(objects, slots, o) by {
            lemma_refs_push(objects, less, slot, o);
            assert(times(before.worklist, o) == times(st.worklist, o) + refs(objects, less, o));
            if let Some(t) = objects.target(slot) {
                lemma_times_push(before.worklist, t, o);
            }
        }
        if let Some(t) = objects.target(slot) {
            assert(t.addr() % MIN_OBJECT_SIZE as int == 0);
        }
    }
}

/// One visit. It gives the object its first count iff that lies in a space and had none.
proof fn lemma_visit_effect(st: KeepState, objects: ObjectModel) -> (first: Seq<ObjectReference>)
    requires
        st.m.wf(),
        references_aligned(objects),
        objects.fits(st.m),
        st.worklist.len() > 0,
        all_aligned(st.worklist),
    ensures
        keep_effect(st, keep_step(st, objects), objects, first),
{
    let none = Seq::<ObjectReference>::empty();
    let o = st.worklist.last();
    let less = st.worklist.drop_last();
    let after = keep_step(st, objects);
    assert(o == st.worklist[st.worklist.len() - 1]);
    assert(st.worklist =~= less.push(o));
    assert forall|i: int| 0 <= i < less.len() implies (#[trigger] less[i]).addr()
        % MIN_OBJECT_SIZE as int == 0 by {
        assert(less[i] == st.worklist[i]);
    }
    lemma_keep_step(st, objects);
    lemma_fields_one(objects, o);
    let gets = st.m.in_spaces(o.addr()) && count_of(st.m, o.addr()) == 0;
    let first = if gets {
        seq![o]
    } else {
        none
    };
    assert forall|p: ObjectReference| #[trigger] first.contains(p) implies p == o && gets by {}
    let counted = KeepState { m: incremented(st.m, o.addr()), worklist: less, ..st };
    let size = objects.size(o.0.0) as int;
    let placed = if st.m.space_of(o.addr()) == SpaceKind::Immix {
        KeepState {
            m: promoted_tables(counted.m, o.addr(), size),
            s: promoted_space(counted.m, counted.s, o.addr()),
            ..counted
        }
    } else {
        KeepState { m: slot_unlogged(counted.m, o.addr()), ..counted }
    };
    if st.m.in_spaces(o.addr()) {
        lemma_aligned_cells(st.m, o.addr(), o.addr());
        assert(counted.m.wf());
        assert(objects.fits(counted.m));
        if gets {
            if st.m.space_of(o.addr()) == SpaceKind::Immix {
                lemma_promotion_grows(counted.m, objects, o);
            }
            assert(placed.m.wf());
            lemma_fields_queued(placed, objects, objects.field_slots(o.0.0));
        }
    }
    assert forall|a: usize|
        st.m.in_spaces(a as int) && own_count(st.m, objects, a) implies #[trigger] visits_counted(
        st,
        after,
        objects,
        first,
        a,
    ) by {
        let x = ObjectReference(Address(a));
        lemma_times_push(less, o, x);
        lemma_refs_empty(objects, x);
        if st.m.in_spaces(o.addr()) {
            lemma_aligned_cells(st.m, o.addr(), a as int);
            assert(own_count(counted.m, objects, a));
            if gets {
                if st.m.space_of(o.addr()) == SpaceKind::Immix {
                    lemma_promotion_counts_nothing(counted.m, objects, o, a);
                }
                assert(count_of(placed.m, a as int) == count_of(counted.m, a as int));
                assert(count_of(after.m, a as int) == count_of(placed.m, a as int));
                assert(times(after.worklist, x) == times(less, x) + refs(
                    objects,
                    objects.field_slots(o.0.0),
                    x,
                ));
            }
            if x == o {
                assert(gets ==> first[0] == o);
            }
        } else {
            assert(x != o);
        }
    }
    first
}

/// Some visits.
proof fn lemma_visits_effect(start: KeepState, objects: ObjectModel, n: nat) -> (first: Seq<
    ObjectReference,
>)
    requires
        start.m.wf(),
        references_aligned(objects),
        objects.fits(start.m),
        all_aligned(start.worklist),
        forall|k: nat| k < n ==> (#[trigger] keep_steps(start, objects, k)).worklist.len() > 0,
    ensures
        keep_effect(start, keep_steps(start, objects, n), objects, first),
    decreases n,
{
    let none = Seq::<ObjectReference>::empty();
    if n == 0 {
        lemma_fields_one(objects, ObjectReference(Address(0)));
        assert forall|a: usize|
            start.m.in_spaces(a as int) && own_count(
                start.m,
                objects,
                a,
            ) implies #[trigger] visits_counted(start, start, objects, none, a) by {
            lemma_refs_empty(objects, ObjectReference(Address(a)));
        }
        none
    } else {
        let p = (n - 1) as nat;
        let p1 = lemma_visits_effect(start, objects, p);
        let before = keep_steps(start, objects, p);
        assert(before.worklist.len() > 0);
        assert(objects.fits(before.m));
        let p2 = lemma_visit_effect(before, objects);
        lemma_keep_chain(start, before, keep_steps(start, objects, n), objects, p1, p2);
        p1 + p2
    }
}

/// When an object and what it reaches were kept alive, the count of each object is greater by the
/// number of fields of objects with a new first count that refer to it, and that of the object
/// itself by one more; only a count at its maximum may be short of that. The fields of all objects
/// with a new first count are unlogged.
pub proof fn law_keeping_alive_counts_every_reference(
    start: KeepState,
    end: KeepState,
    objects: ObjectModel,
)
    requires
        start.m.wf(),
        references_aligned(objects),
        objects.fits(start.m),
        all_aligned(start.worklist),
        kept_alive(start, end, objects),
    ensures
        end.worklist.len() == 0,
        exists|first: Seq<ObjectReference>| #[trigger] keep_effect(start, end, objects, first),
{
    let n = choose|n: nat|
        #![trigger keep_steps(start, objects, n)]
        end == keep_steps(start, objects, n) && forall|k: nat|
            k < n ==> (#[trigger] keep_steps(start, objects, k)).worklist.len() > 0;
    let first = lemma_visits_effect(start, objects, n);
    assert(keep_effect(start, end, objects, first));
}

/// A promoted object of more than a line takes every line that it covers after its first: the line
/// is marked, and its first entry has a count, so that nothing is allocated there. Other lines keep
/// their marks.
pub proof fn law_promotion_takes_the_lines(m: MetadataView, address: int, size: int, l: int)
    requires
        m.wf(),
        m.in_heap(address),
        size >= 0,
        address + size <= m.end(),
        0 <= l < m.straddle.len(),
    ensures
        ({
            let after = promoted_tables(m, address, size);
            let covered = size > BYTES_IN_LINE && m.line(address) < l < m.line(address + size);
            &&& covered ==> after.straddle[l] == 1 && count_of(after, m.start + l * BYTES_IN_LINE)
                == 1
            &&& !covered ==> after.straddle[l] == m.straddle[l]
            &&& after.mark == m.mark
            &&& after.line_mark == m.line_mark
            &&& after.field_unlog == m.field_unlog
        }),
{
}

} // verus!
