//! What increments do to counts as a whole: every reference that is processed, and every field of
//! every object that is promoted, counts once.

use crate::plan::lxr::laws::{
    counted_closed, lemma_line_start, lemma_promotion_blocks, promoted_are_allocated,
};
use crate::plan::lxr::rc::{
    drained, field_scanned, fields_scanned, grows, lemma_grows_chain, lemma_object_promoted,
    lemma_slot_processed, object_promoted, object_scanned, promoted_space, promoted_tables, rounds,
    slot_processed, slot_unlogged, slots_processed, IncState, EDGE_KIND_MATURE, EDGE_KIND_ROOT,
};
use crate::util::address::{Address, ObjectReference};
use crate::util::constants::{BYTES_IN_LINE, MIN_OBJECT_SIZE};
use crate::util::metadata::{MetadataView, SpaceKind, MAX_REF_COUNT};
use crate::util::occurrences::{
    lemma_times_add, lemma_times_empty, lemma_times_positive, lemma_times_push, times,
};
use crate::util::rc::{count_of, incremented};
use crate::util::vm::{ObjectModel, Slot};
use vstd::prelude::*;
use vstd::seq_lib::lemma_flatten_concat;

verus! {

/// How many of the slots refer to the object.
pub open spec fn refs(objects: ObjectModel, slots: Seq<Slot>, o: ObjectReference) -> nat {
    times(slots.map_values(|slot: Slot| objects.target(slot)), Some(o))
}

/// The pointer fields of the given objects, one object after the other.
pub open spec fn fields_of(objects: ObjectModel, list: Seq<ObjectReference>) -> Seq<Slot> {
    list.map_values(|o: ObjectReference| objects.field_slots(o.0.0)).flatten()
}

/// The entry of the count table for `a` counts references to `a` alone: `a` is aligned, and not the
/// start of a line that an object covers after its first.
pub open spec fn own_count(m: MetadataView, objects: ObjectModel, a: usize) -> bool {
    &&& m.in_heap(a as int)
    &&& a as int % MIN_OBJECT_SIZE as int == 0
    &&& forall|b: usize|
        #![trigger objects.size(b)]
        !(m.in_heap(b as int) && objects.size(b) > BYTES_IN_LINE && a as int % BYTES_IN_LINE as int
            == 0 && m.line(b as int) < m.line(a as int) < m.line(b + objects.size(b)))
}

/// Every reference is aligned.
pub open spec fn references_aligned(objects: ObjectModel) -> bool {
    forall|slot: Slot|
        (#[trigger] objects.target(slot)) matches Some(t) ==> t.addr() % MIN_OBJECT_SIZE as int
            == 0
}

/// The slots through which increments are still to be performed, here or in packets that were
/// handed on.
pub open spec fn pending_incs(st: IncState) -> Seq<Slot> {
    st.scheduled.flatten() + st.new_incs
}

/// The field is unlogged, if it lies in a space.
pub open spec fn unlogged_in(m: MetadataView, slot: Slot) -> bool {
    m.in_spaces(slot.0.0 as int) ==> m.field_unlog[m.cell(slot.0.0 as int)] == 1
}

/// All of the fields are unlogged.
pub open spec fn all_unlogged(m: MetadataView, slots: Seq<Slot>) -> bool {
    forall|i: int| 0 <= i < slots.len() ==> unlogged_in(m, #[trigger] slots[i])
}

/// The count of `a` after increments: what it was, and one for each processed slot and each field of
/// a promoted object that refers to `a`, except those that are left for later. Only a count that
/// reached its maximum may be short of that.
pub open spec fn count_effect(
    st: IncState,
    after: IncState,
    objects: ObjectModel,
    slots: Seq<Slot>,
    promoted: Seq<ObjectReference>,
    a: usize,
) -> bool {
    let o = ObjectReference(Address(a));
    let owed = count_of(st.m, a as int) + refs(objects, pending_incs(st), o) + refs(
        objects,
        slots,
        o,
    ) + refs(objects, fields_of(objects, promoted), o);
    &&& count_of(st.m, a as int) <= count_of(after.m, a as int)
    &&& count_of(after.m, a as int) + refs(objects, pending_incs(after), o) <= owed
    &&& count_of(after.m, a as int) < MAX_REF_COUNT ==> count_of(after.m, a as int) + refs(
        objects,
        pending_incs(after),
        o,
    ) == owed
    &&& count_of(st.m, a as int) == 0 && count_of(after.m, a as int) > 0 ==> promoted.contains(o)
}

/// What increments through `slots` do, when they promote exactly the objects in `promoted`: these
/// get their first count, their fields are unlogged, and those of the Immix space are taken out of
/// the nursery.
pub open spec fn inc_effect(
    st: IncState,
    after: IncState,
    kind: u8,
    objects: ObjectModel,
    slots: Seq<Slot>,
    promoted: Seq<ObjectReference>,
) -> bool {
    &&& grows(st.m, after.m)
    &&& promoted.no_duplicates()
    &&& forall|p: ObjectReference| #[trigger]
        promoted.contains(p) ==> st.m.in_spaces(p.addr()) && count_of(st.m, p.addr()) == 0
            && count_of(after.m, p.addr()) > 0
    &&& forall|a: usize|
        st.m.in_spaces(a as int) && own_count(st.m, objects, a) ==> #[trigger] count_effect(
            st,
            after,
            objects,
            slots,
            promoted,
            a,
        )
    &&& all_unlogged(after.m, fields_of(objects, promoted))
    &&& kind == EDGE_KIND_MATURE ==> all_unlogged(after.m, slots)
    &&& forall|c: int|
        0 <= c < st.m.field_unlog.len() && st.m.field_unlog[c] == 1
            ==> #[trigger] after.m.field_unlog[c] == 1
    &&& promoted_are_allocated(st.m) ==> {
        &&& promoted_are_allocated(after.m)
        &&& forall|p: ObjectReference| #[trigger]
            promoted.contains(p) && st.m.space_of(p.addr()) == SpaceKind::Immix
                ==> after.m.block_mark[st.m.block(p.addr())] != 0
        &&& forall|i: int|
            0 <= i < st.m.block_mark.len() && st.m.block_mark[i] != 0
                ==> #[trigger] after.m.block_mark[i] != 0
    }
}

/// References through two runs of slots.
pub proof fn lemma_refs_add(
    objects: ObjectModel,
    first: Seq<Slot>,
    second: Seq<Slot>,
    o: ObjectReference,
)
    ensures
        refs(objects, first + second, o) == refs(objects, first, o) + refs(objects, second, o),
{
    let f = |slot: Slot| objects.target(slot);
    assert((first + second).map_values(f) =~= first.map_values(f) + second.map_values(f));
    lemma_times_add(first.map_values(f), second.map_values(f), Some(o));
}

/// References through one slot more.
pub proof fn lemma_refs_push(objects: ObjectModel, slots: Seq<Slot>, slot: Slot, o: ObjectReference)
    ensures
        refs(objects, slots.push(slot), o) == refs(objects, slots, o) + (if objects.target(slot)
            == Some(o) {
            1nat
        } else {
            0nat
        }),
{
    let f = |slot: Slot| objects.target(slot);
    assert(slots.push(slot).map_values(f) =~= slots.map_values(f).push(objects.target(slot)));
    lemma_times_push(slots.map_values(f), objects.target(slot), Some(o));
}

/// No references through no slots.
pub proof fn lemma_refs_empty(objects: ObjectModel, o: ObjectReference)
    ensures
        refs(objects, Seq::empty(), o) == 0,
{
    let f = |slot: Slot| objects.target(slot);
    assert(Seq::<Slot>::empty().map_values(f) =~= Seq::empty());
    lemma_times_empty::<Option<ObjectReference>>(Some(o));
}

/// A slot among others that refers to the object is counted.
pub proof fn lemma_refs_positive(
    objects: ObjectModel,
    slots: Seq<Slot>,
    i: int,
    o: ObjectReference,
)
    requires
        0 <= i < slots.len(),
        objects.target(slots[i]) == Some(o),
    ensures
        refs(objects, slots, o) > 0,
{
    let f = |slot: Slot| objects.target(slot);
    let targets = slots.map_values(f);
    assert(targets[i] == Some(o));
    lemma_times_positive(targets, Some(o));
}

/// The fields of two lists of objects.
pub proof fn lemma_fields_add(
    objects: ObjectModel,
    first: Seq<ObjectReference>,
    second: Seq<ObjectReference>,
)
    ensures
        fields_of(objects, first + second) == fields_of(objects, first) + fields_of(
            objects,
            second,
        ),
{
    let f = |o: ObjectReference| objects.field_slots(o.0.0);
    assert((first + second).map_values(f) =~= first.map_values(f) + second.map_values(f));
    lemma_flatten_concat(first.map_values(f), second.map_values(f));
}

/// The fields of one object, and of none.
pub proof fn lemma_fields_one(objects: ObjectModel, o: ObjectReference)
    ensures
        fields_of(objects, seq![o]) == objects.field_slots(o.0.0),
        fields_of(objects, Seq::empty()) == Seq::<Slot>::empty(),
{
    let f = |o: ObjectReference| objects.field_slots(o.0.0);
    let one = seq![o].map_values(f);
    assert(one =~= seq![objects.field_slots(o.0.0)]);
    one.lemma_flatten_one_element();
    assert(Seq::<ObjectReference>::empty().map_values(f) =~= Seq::empty());
}

/// Two aligned addresses of the heap have entries of their own.
pub proof fn lemma_aligned_cells(m: MetadataView, a: int, b: int)
    requires
        m.wf(),
        m.in_heap(a),
        m.in_heap(b),
        a % MIN_OBJECT_SIZE as int == 0,
        b % MIN_OBJECT_SIZE as int == 0,
    ensures
        0 <= m.cell(a) < m.rc.len(),
        0 <= m.cell(b) < m.rc.len(),
        m.cell(a) == m.cell(b) ==> a == b,
{
    lemma_line_start(m, a);
    lemma_line_start(m, b);
    assert(a == m.start + m.cell(a) * MIN_OBJECT_SIZE);
    assert(b == m.start + m.cell(b) * MIN_OBJECT_SIZE);
}

/// What a run of increments does, after one that came before.
proof fn lemma_effect_chain(
    x: IncState,
    y: IncState,
    z: IncState,
    kind: u8,
    objects: ObjectModel,
    s1: Seq<Slot>,
    p1: Seq<ObjectReference>,
    s2: Seq<Slot>,
    p2: Seq<ObjectReference>,
)
    requires
        x.m.wf(),
        inc_effect(x, y, kind, objects, s1, p1),
        inc_effect(y, z, kind, objects, s2, p2),
    ensures
        inc_effect(x, z, kind, objects, s1 + s2, p1 + p2),
{
    let s = s1 + s2;
    let p = p1 + p2;
    lemma_grows_chain(x.m, y.m, z.m);
    lemma_fields_add(objects, p1, p2);
    let f1 = fields_of(objects, p1);
    let f2 = fields_of(objects, p2);
    assert forall|q: ObjectReference| #[trigger] p.contains(q) implies p1.contains(q)
        || p2.contains(q) by {
        let k = choose|k: int| 0 <= k < p.len() && p[k] == q;
        if k < p1.len() {
            assert(p1[k] == q);
        } else {
            assert(p2[k - p1.len()] == q);
        }
    }
    assert forall|q: ObjectReference| p1.contains(q) || p2.contains(q) implies p.contains(q) by {
        if p1.contains(q) {
            let k = choose|k: int| 0 <= k < p1.len() && p1[k] == q;
            assert(p[k] == q);
        } else {
            let k = choose|k: int| 0 <= k < p2.len() && p2[k] == q;
            assert(p[k + p1.len()] == q);
        }
    }
    assert forall|q: ObjectReference| #[trigger] p.contains(q) implies x.m.in_spaces(q.addr())
        && count_of(x.m, q.addr()) == 0 && count_of(z.m, q.addr()) > 0 by {
        let c = x.m.cell(q.addr());
        if p1.contains(q) {
            assert(y.m.rc[c] != 0);
            assert(z.m.rc[c] != 0);
        } else {
            assert(p2.contains(q));
            assert(x.m.rc[c] != 0 ==> y.m.rc[c] != 0);
        }
    }
    assert(p.no_duplicates()) by {
        assert forall|i: int, j: int| 0 <= i < j < p.len() implies p[i] != p[j] by {
            if i < p1.len() && j >= p1.len() {
                assert(p1.contains(p1[i]));
                assert(p2.contains(p2[j - p1.len()]));
            } else if j < p1.len() {
                assert(p1[i] != p1[j]);
            } else {
                assert(p2[i - p1.len()] != p2[j - p1.len()]);
            }
        }
    }
    assert forall|a: usize|
        x.m.in_spaces(a as int) && own_count(x.m, objects, a) implies #[trigger] count_effect(
        x,
        z,
        objects,
        s,
        p,
        a,
    ) by {
        let o = ObjectReference(Address(a));
        assert(own_count(y.m, objects, a));
        assert(count_effect(x, y, objects, s1, p1, a));
        assert(count_effect(y, z, objects, s2, p2, a));
        lemma_refs_add(objects, s1, s2, o);
        lemma_refs_add(objects, f1, f2, o);
    }
    lemma_unlogged_stay(y.m, z.m, f1);
    assert(all_unlogged(z.m, f1 + f2));
    if kind == EDGE_KIND_MATURE {
        lemma_unlogged_stay(y.m, z.m, s1);
        assert(all_unlogged(z.m, s));
    }
    assert forall|c: int|
        0 <= c < x.m.field_unlog.len() && x.m.field_unlog[c]
            == 1 implies #[trigger] z.m.field_unlog[c] == 1 by {
        assert(y.m.field_unlog[c] == 1);
    }
    if promoted_are_allocated(x.m) {
        assert forall|i: int|
            0 <= i < x.m.block_mark.len() && x.m.block_mark[i]
                != 0 implies #[trigger] z.m.block_mark[i] != 0 by {
            assert(y.m.block_mark[i] != 0);
        }
        assert forall|q: ObjectReference| #[trigger]
            p.contains(q) && x.m.space_of(q.addr()) == SpaceKind::Immix implies z.m.block_mark[
            x.m.block(q.addr())] != 0 by {
            if p1.contains(q) {
                assert(y.m.block_mark[x.m.block(q.addr())] != 0);
            } else {
                assert(p2.contains(q));
            }
        }
    }
}

/// Fields that are unlogged stay so.
pub proof fn lemma_unlogged_stay(m: MetadataView, after: MetadataView, slots: Seq<Slot>)
    requires
        m.wf(),
        after.wf(),
        after.start == m.start,
        after.chunks == m.chunks,
        after.spaces == m.spaces,
        forall|c: int|
            0 <= c < m.field_unlog.len() && m.field_unlog[c] == 1
                ==> #[trigger] after.field_unlog[c] == 1,
        all_unlogged(m, slots),
    ensures
        all_unlogged(after, slots),
{
    assert forall|i: int| 0 <= i < slots.len() implies unlogged_in(after, #[trigger] slots[i]) by {
        let address = slots[i].0.0 as int;
        assert(unlogged_in(m, slots[i]));
        if m.in_spaces(address) {
            assert(0 <= m.cell(address) < m.field_unlog.len());
            assert(after.field_unlog[m.cell(address)] == 1);
        }
    }
}

/// A step that changes no count of its own, and only takes logs away.
proof fn lemma_quiet_step(x: IncState, y: IncState, kind: u8, objects: ObjectModel)
    requires
        x.m.wf(),
        grows(x.m, y.m),
        pending_incs(y) == pending_incs(x),
        forall|a: usize|
            #![trigger own_count(x.m, objects, a)]
            own_count(x.m, objects, a) ==> count_of(y.m, a as int) == count_of(x.m, a as int),
        forall|c: int|
            0 <= c < x.m.field_unlog.len() && x.m.field_unlog[c] == 1
                ==> #[trigger] y.m.field_unlog[c] == 1,
        promoted_are_allocated(x.m) ==> {
            &&& promoted_are_allocated(y.m)
            &&& forall|i: int|
                0 <= i < x.m.block_mark.len() && x.m.block_mark[i] != 0
                    ==> #[trigger] y.m.block_mark[i] != 0
        },
    ensures
        inc_effect(x, y, kind, objects, Seq::empty(), Seq::empty()),
{
    let none = Seq::<ObjectReference>::empty();
    lemma_fields_one(objects, ObjectReference(Address(0)));
    assert forall|a: usize|
        x.m.in_spaces(a as int) && own_count(x.m, objects, a) implies #[trigger] count_effect(
        x,
        y,
        objects,
        Seq::empty(),
        none,
        a,
    ) by {
        lemma_refs_empty(objects, ObjectReference(Address(a)));
    }
}

/// The field of a promoted object.
proof fn lemma_field_effect(st: IncState, kind: u8, objects: ObjectModel, slot: Slot)
    requires
        st.m.wf(),
        references_aligned(objects),
        objects.target(slot) matches Some(t) ==> st.m.in_heap(t.addr()),
    ensures
        inc_effect(
            st,
            field_scanned(st, objects, slot),
            kind,
            objects,
            seq![slot],
            Seq::empty(),
        ),
{
    let after = field_scanned(st, objects, slot);
    let none = Seq::<ObjectReference>::empty();
    let unlogged = slot_unlogged(st.m, slot.0.0 as int);
    lemma_fields_one(objects, ObjectReference(Address(0)));
    assert(unlogged.rc == st.m.rc);
    if let Some(t) = objects.target(slot) {
        lemma_aligned_cells(st.m, t.addr(), t.addr());
    }
    assert(grows(st.m, after.m));
    assert(after.m.field_unlog == unlogged.field_unlog);
    assert(unlogged_in(after.m, slot));
    assert forall|a: usize|
        st.m.in_spaces(a as int) && own_count(st.m, objects, a) implies #[trigger] count_effect(
        st,
        after,
        objects,
        seq![slot],
        none,
        a,
    ) by {
        let o = ObjectReference(Address(a));
        lemma_refs_empty(objects, o);
        lemma_refs_push(objects, Seq::empty(), slot, o);
        assert(Seq::<Slot>::empty().push(slot) =~= seq![slot]);
        lemma_refs_push(objects, pending_incs(st), slot, o);
        if let Some(t) = objects.target(slot) {
            lemma_aligned_cells(st.m, t.addr(), a as int);
            if count_of(unlogged, t.addr()) == 0 {
                assert(pending_incs(after) =~= pending_incs(st).push(slot));
            } else {
                assert(pending_incs(after) == pending_incs(st));
                if t == o {
                } else {
                    assert(t.addr() != a as int);
                }
            }
        }
    }
}

/// The fields of a promoted object.
proof fn lemma_fields_effect(st: IncState, kind: u8, objects: ObjectModel, slots: Seq<Slot>)
    requires
        st.m.wf(),
        references_aligned(objects),
        forall|i: int|
            0 <= i < slots.len() ==> (objects.target(#[trigger] slots[i]) matches Some(t)
                ==> st.m.in_heap(t.addr())),
    ensures
        inc_effect(
            st,
            fields_scanned(st, objects, slots),
            kind,
            objects,
            slots,
            Seq::empty(),
        ),
        all_unlogged(fields_scanned(st, objects, slots).m, slots),
    decreases slots.len(),
{
    if slots.len() == 0 {
        lemma_quiet_step(st, st, kind, objects);
        assert(slots =~= Seq::empty());
    } else {
        let less = slots.drop_last();
        let slot = slots.last();
        assert forall|i: int| 0 <= i < less.len() implies (objects.target(
            #[trigger] less[i],
        ) matches Some(t) ==> st.m.in_heap(t.addr())) by {
            assert(less[i] == slots[i]);
        }
        lemma_fields_effect(st, kind, objects, less);
        let before = fields_scanned(st, objects, less);
        let after = fields_scanned(st, objects, slots);
        assert(slot == slots[slots.len() - 1]);
        lemma_field_effect(before, kind, objects, slot);
        let none = Seq::<ObjectReference>::empty();
        lemma_effect_chain(st, before, after, kind, objects, less, none, seq![slot], none);
        assert(less + seq![slot] =~= slots);
        assert(none + none =~= none);
        lemma_unlogged_stay(before.m, after.m, less);
        assert forall|i: int| 0 <= i < slots.len() implies unlogged_in(
            after.m,
            #[trigger] slots[i],
        ) by {
            if i < less.len() {
                assert(less[i] == slots[i]);
            } else {
                assert(after.m.field_unlog == slot_unlogged(
                    before.m,
                    slot.0.0 as int,
                ).field_unlog);
            }
        }
    }
}

/// Promoting an object of the Immix space changes no count of its own.
pub proof fn lemma_promotion_counts_nothing(
    m: MetadataView,
    objects: ObjectModel,
    o: ObjectReference,
    a: usize,
)
    requires
        m.wf(),
        m.in_heap(o.addr()),
        own_count(m, objects, a),
    ensures
        count_of(promoted_tables(m, o.addr(), objects.size(o.0.0) as int), a as int) == count_of(
            m,
            a as int,
        ),
{
    lemma_line_start(m, a as int);
    let size = objects.size(o.0.0);
    assert(!(size > BYTES_IN_LINE && a as int % BYTES_IN_LINE as int == 0 && m.line(o.addr())
        < m.line(a as int) < m.line(o.addr() + size)));
}

/// Promoting and scanning an object processes each of its fields.
proof fn lemma_promoted_effect(st: IncState, kind: u8, objects: ObjectModel, o: ObjectReference)
    requires
        st.m.wf(),
        references_aligned(objects),
        objects.fits(st.m),
        objects.fields_valid(st.m),
        st.m.in_spaces(o.addr()),
    ensures
        ({
            let after = object_promoted(st, objects, o);
            &&& inc_effect(
                st,
                after,
                kind,
                objects,
                objects.field_slots(o.0.0),
                Seq::empty(),
            )
            &&& all_unlogged(after.m, objects.field_slots(o.0.0))
            &&& promoted_are_allocated(st.m) && st.m.space_of(o.addr()) == SpaceKind::Immix
                ==> after.m.block_mark[st.m.block(o.addr())] != 0
        }),
{
    let none = Seq::<ObjectReference>::empty();
    let no_slots = Seq::<Slot>::empty();
    let size = objects.size(o.0.0) as int;
    let slots = objects.field_slots(o.0.0);
    let placed = if st.m.space_of(o.addr()) == SpaceKind::Immix {
        IncState {
            m: promoted_tables(st.m, o.addr(), size),
            s: promoted_space(st.m, st.s, o.addr()),
            ..st
        }
    } else {
        st
    };
    assert(size > 0 ==> o.addr() + size <= st.m.end());
    assert forall|a: usize|
        #![trigger own_count(st.m, objects, a)]
        own_count(st.m, objects, a) implies count_of(placed.m, a as int) == count_of(
        st.m,
        a as int,
    ) by {
        lemma_promotion_counts_nothing(st.m, objects, o, a);
    }
    if st.m.space_of(o.addr()) == SpaceKind::Immix {
        lemma_promotion_grows(st.m, objects, o);
        if promoted_are_allocated(st.m) {
            lemma_promotion_blocks(st.m, objects, o);
        }
    }
    lemma_quiet_step(st, placed, kind, objects);
    let unlogged = if placed.m.space_of(o.addr()) == SpaceKind::Immix {
        placed
    } else {
        IncState { m: slot_unlogged(placed.m, o.addr()), ..placed }
    };
    lemma_quiet_step(placed, unlogged, kind, objects);
    lemma_effect_chain(st, placed, unlogged, kind, objects, no_slots, none, no_slots, none);
    assert(no_slots + no_slots =~= no_slots);
    assert(none + none =~= none);
    assert forall|i: int| 0 <= i < slots.len() implies (objects.target(
        #[trigger] slots[i],
    ) matches Some(t) ==> unlogged.m.in_heap(t.addr())) by {
        assert(objects.field_slots(o.0.0)[i] == slots[i]);
    }
    lemma_fields_effect(unlogged, kind, objects, slots);
    let scanned = fields_scanned(unlogged, objects, slots);
    lemma_effect_chain(st, unlogged, scanned, kind, objects, no_slots, none, slots, none);
    assert(no_slots + slots =~= slots);
    let after = object_promoted(st, objects, o);
    assert(after == object_scanned(placed, objects, o));
    assert(after.m == scanned.m);
    assert(pending_incs(after) =~= pending_incs(scanned)) by {
        scanned.scheduled.lemma_flatten_push(scanned.new_incs);
        assert(scanned.scheduled.push(scanned.new_incs).flatten() =~= scanned.scheduled.flatten()
            + scanned.new_incs);
    }
    lemma_quiet_step(scanned, after, kind, objects);
    lemma_effect_chain(st, scanned, after, kind, objects, slots, none, no_slots, none);
    assert(slots + no_slots =~= slots);
}

/// Promoting an object of the Immix space takes no count away, and logs no field.
pub proof fn lemma_promotion_grows(m: MetadataView, objects: ObjectModel, o: ObjectReference)
    requires
        m.wf(),
        m.space_of(o.addr()) == SpaceKind::Immix,
        objects.fits(m),
    ensures
        grows(m, promoted_tables(m, o.addr(), objects.size(o.0.0) as int)),
        promoted_tables(m, o.addr(), objects.size(o.0.0) as int).field_unlog == m.field_unlog,
{
    let size = objects.size(o.0.0) as int;
    assert(size > 0 ==> o.addr() + size <= m.end());
}

/// The increment through one slot. It promotes the target iff that lies in a space and had no count.
proof fn lemma_slot_effect(st: IncState, kind: u8, objects: ObjectModel, slot: Slot) -> (promoted: Seq<
    ObjectReference,
>)
    requires
        st.m.wf(),
        references_aligned(objects),
        objects.fits(st.m),
        objects.fields_valid(st.m),
    ensures
        inc_effect(
            st,
            slot_processed(st, kind, objects, slot),
            kind,
            objects,
            seq![slot],
            promoted,
        ),
{
    let none = Seq::<ObjectReference>::empty();
    let no_slots = Seq::<Slot>::empty();
    let one = seq![slot];
    let after = slot_processed(st, kind, objects, slot);
    lemma_slot_processed(st, kind, objects, slot);
    let unlogged = if kind == EDGE_KIND_MATURE {
        IncState { m: slot_unlogged(st.m, slot.0.0 as int), ..st }
    } else {
        st
    };
    lemma_fields_one(objects, ObjectReference(Address(0)));
    assert(kind == EDGE_KIND_MATURE ==> unlogged_in(unlogged.m, slot));
    let counts = objects.target(slot) matches Some(o) && st.m.in_spaces(o.addr());
    if !counts {
        assert forall|a: usize|
            st.m.in_spaces(a as int) && own_count(st.m, objects, a) implies #[trigger] count_effect(
            st,
            after,
            objects,
            one,
            none,
            a,
        ) by {
            let o = ObjectReference(Address(a));
            lemma_refs_empty(objects, o);
            lemma_refs_push(objects, no_slots, slot, o);
            assert(no_slots.push(slot) =~= one);
        }
        assert(after.m == unlogged.m);
        none
    } else {
        let o = objects.target(slot)->0;
        let start = IncState { m: incremented(unlogged.m, o.addr()), roots: after.roots, ..st };
        lemma_aligned_cells(st.m, o.addr(), o.addr());
        let first = count_of(st.m, o.addr()) == 0;
        let promoted = if first {
            seq![o]
        } else {
            none
        };
        let fields = fields_of(objects, promoted);
        lemma_fields_one(objects, o);
        assert(objects.fits(start.m));
        assert(objects.fields_valid(start.m));
        if first {
            let rooted = if kind == EDGE_KIND_ROOT {
                IncState { roots: unlogged.roots.push(o.0.0), ..unlogged }
            } else {
                unlogged
            };
            let begun = IncState { m: incremented(rooted.m, o.addr()), ..rooted };
            assert(after == object_promoted(begun, objects, o));
            lemma_promoted_effect(begun, kind, objects, o);
            lemma_object_promoted(begun, objects, o);
            assert(start =~= begun);
        } else {
            lemma_quiet_step(start, after, kind, objects);
        }
        assert(inc_effect(start, after, kind, objects, fields, none));
        lemma_first_count(st, start, after, kind, objects, slot, o);
        promoted
    }
}

/// The count of the target of a slot, followed by what its promotion does.
proof fn lemma_first_count(
    st: IncState,
    start: IncState,
    after: IncState,
    kind: u8,
    objects: ObjectModel,
    slot: Slot,
    o: ObjectReference,
)
    requires
        st.m.wf(),
        references_aligned(objects),
        objects.target(slot) == Some(o),
        st.m.in_spaces(o.addr()),
        start.m == incremented(
            if kind == EDGE_KIND_MATURE {
                slot_unlogged(st.m, slot.0.0 as int)
            } else {
                st.m
            },
            o.addr(),
        ),
        start.new_incs == st.new_incs,
        start.scheduled == st.scheduled,
        ({
            let promoted = if count_of(st.m, o.addr()) == 0 {
                seq![o]
            } else {
                Seq::empty()
            };
            &&& inc_effect(
                start,
                after,
                kind,
                objects,
                fields_of(objects, promoted),
                Seq::empty(),
            )
            &&& all_unlogged(after.m, fields_of(objects, promoted))
            &&& count_of(st.m, o.addr()) == 0 && promoted_are_allocated(st.m) && st.m.space_of(
                o.addr(),
            ) == SpaceKind::Immix ==> after.m.block_mark[st.m.block(o.addr())] != 0
        }),
    ensures
        inc_effect(
            st,
            after,
            kind,
            objects,
            seq![slot],
            if count_of(st.m, o.addr()) == 0 {
                seq![o]
            } else {
                Seq::empty()
            },
        ),
{
    let one = seq![slot];
    let none = Seq::<ObjectReference>::empty();
    let promoted = if count_of(st.m, o.addr()) == 0 {
        seq![o]
    } else {
        none
    };
    let fields = fields_of(objects, promoted);
    let cell = st.m.cell(o.addr());
    lemma_aligned_cells(st.m, o.addr(), o.addr());
    assert(grows(st.m, start.m));
    lemma_grows_chain(st.m, start.m, after.m);
    assert(start.m.rc[cell] != 0);
    assert(after.m.rc[cell] != 0);
    assert forall|p: ObjectReference| #[trigger] promoted.contains(p) implies p == o by {}
    assert forall|a: usize|
        st.m.in_spaces(a as int) && own_count(st.m, objects, a) implies #[trigger] count_effect(
        st,
        after,
        objects,
        one,
        promoted,
        a,
    ) by {
        let x = ObjectReference(Address(a));
        lemma_refs_empty(objects, x);
        lemma_refs_push(objects, Seq::empty(), slot, x);
        assert(Seq::<Slot>::empty().push(slot) =~= one);
        lemma_aligned_cells(st.m, o.addr(), a as int);
        assert(own_count(start.m, objects, a));
        assert(count_effect(start, after, objects, fields, none, a));
        lemma_fields_one(objects, o);
        if x == o {
            assert(count_of(st.m, a as int) == 0 ==> promoted[0] == o);
        } else {
            assert(a as int != o.addr());
            assert(count_of(start.m, a as int) == count_of(st.m, a as int));
        }
    }
    if kind == EDGE_KIND_MATURE {
        assert(unlogged_in(start.m, slot));
        assert(all_unlogged(start.m, one));
        lemma_unlogged_stay(start.m, after.m, one);
    }
    assert forall|c: int|
        0 <= c < st.m.field_unlog.len() && st.m.field_unlog[c]
            == 1 implies #[trigger] after.m.field_unlog[c] == 1 by {
        assert(start.m.field_unlog[c] == 1);
    }
}

/// The increments through a run of slots.
proof fn lemma_slots_effect(st: IncState, kind: u8, objects: ObjectModel, slots: Seq<Slot>) -> (promoted:
    Seq<ObjectReference>)
    requires
        st.m.wf(),
        references_aligned(objects),
        objects.fits(st.m),
        objects.fields_valid(st.m),
    ensures
        inc_effect(
            st,
            slots_processed(st, kind, objects, slots),
            kind,
            objects,
            slots,
            promoted,
        ),
    decreases slots.len(),
{
    if slots.len() == 0 {
        lemma_quiet_step(st, st, kind, objects);
        assert(slots =~= Seq::empty());
        Seq::empty()
    } else {
        let less = slots.drop_last();
        let slot = slots.last();
        let p1 = lemma_slots_effect(st, kind, objects, less);
        let before = slots_processed(st, kind, objects, less);
        assert(objects.fits(before.m));
        assert(objects.fields_valid(before.m));
        let p2 = lemma_slot_effect(before, kind, objects, slot);
        lemma_effect_chain(
            st,
            before,
            slots_processed(st, kind, objects, slots),
            kind,
            objects,
            less,
            p1,
            seq![slot],
            p2,
        );
        assert(less + seq![slot] =~= slots);
        p1 + p2
    }
}

/// Rounds of increments.
proof fn lemma_rounds_effect(st: IncState, kind: u8, objects: ObjectModel, n: nat) -> (promoted: Seq<
    ObjectReference,
>)
    requires
        st.m.wf(),
        references_aligned(objects),
        objects.fits(st.m),
        objects.fields_valid(st.m),
    ensures
        inc_effect(st, rounds(st, kind, objects, n), kind, objects, Seq::empty(), promoted),
    decreases n,
{
    let no_slots = Seq::<Slot>::empty();
    if n == 0 {
        lemma_quiet_step(st, st, kind, objects);
        Seq::empty()
    } else {
        let p1 = lemma_rounds_effect(st, kind, objects, (n - 1) as nat);
        let before = rounds(st, kind, objects, (n - 1) as nat);
        let emptied = IncState { new_incs: Seq::empty(), ..before };
        let after = rounds(st, kind, objects, n);
        assert(objects.fits(emptied.m));
        assert(objects.fields_valid(emptied.m));
        let p2 = lemma_slots_effect(emptied, kind, objects, before.new_incs);
        assert(inc_effect(before, after, kind, objects, no_slots, p2)) by {
            assert forall|a: usize|
                before.m.in_spaces(a as int) && own_count(
                    before.m,
                    objects,
                    a,
                ) implies #[trigger] count_effect(before, after, objects, no_slots, p2, a) by {
                let o = ObjectReference(Address(a));
                assert(count_effect(emptied, after, objects, before.new_incs, p2, a));
                lemma_refs_empty(objects, o);
                lemma_refs_add(objects, before.scheduled.flatten(), before.new_incs, o);
                assert(pending_incs(emptied) =~= before.scheduled.flatten());
            }
        }
        lemma_effect_chain(st, before, after, kind, objects, no_slots, p1, no_slots, p2);
        assert(no_slots + no_slots =~= no_slots);
        p1 + p2
    }
}

/// When the increments of a packet are done, the count of each object has grown by the number of
/// slots of the packet, and of fields of objects that got their first count on the way, which refer
/// to it; only what packets that were handed on will count is not counted yet. A count may only be
/// short of that at its maximum. `roots` are the targets of roots that are not stashed yet.
pub proof fn law_every_reference_is_counted(
    st: IncState,
    after: IncState,
    kind: u8,
    objects: ObjectModel,
    slots: Seq<Slot>,
    roots: Seq<usize>,
)
    requires
        st.m.wf(),
        references_aligned(objects),
        objects.fits(st.m),
        objects.fields_valid(st.m),
        drained(
            IncState { roots, ..slots_processed(st, kind, objects, slots) },
            after,
            kind,
            objects,
        ),
    ensures
        after.new_incs.len() == 0,
        exists|promoted: Seq<ObjectReference>| #[trigger]
            inc_effect(st, after, kind, objects, slots, promoted),
{
    let first = slots_processed(st, kind, objects, slots);
    let begun = IncState { roots, ..first };
    let p1 = lemma_slots_effect(st, kind, objects, slots);
    assert(objects.fits(begun.m));
    assert(objects.fields_valid(begun.m));
    let n = choose|n: nat|
        #![trigger rounds(begun, kind, objects, n)]
        after == rounds(begun, kind, objects, n) && forall|k: nat|
            k < n ==> (#[trigger] rounds(begun, kind, objects, k)).new_incs.len() > 0;
    let p2 = lemma_rounds_effect(begun, kind, objects, n);
    assert(inc_effect(st, begun, kind, objects, slots, p1)) by {
        assert forall|a: usize|
            st.m.in_spaces(a as int) && own_count(st.m, objects, a) implies #[trigger] count_effect(
            st,
            begun,
            objects,
            slots,
            p1,
            a,
        ) by {
            assert(count_effect(st, first, objects, slots, p1, a));
            assert(pending_incs(begun) == pending_incs(first));
        }
    }
    lemma_effect_chain(st, begun, after, kind, objects, slots, p1, Seq::empty(), p2);
    assert(slots + Seq::empty() =~= slots);
    assert(inc_effect(st, after, kind, objects, slots, p1 + p2));
}

/// Every reference into the heap is to an object that is described.
pub open spec fn references_described(m: MetadataView, objects: ObjectModel) -> bool {
    forall|slot: Slot|
        (#[trigger] objects.target(slot)) matches Some(t) ==> (m.in_heap(t.addr())
            ==> !objects.absent(t.0.0))
}

/// What is described has a count of its own.
pub proof fn lemma_described_counts(m: MetadataView, objects: ObjectModel, a: usize)
    requires
        m.wf(),
        objects.separate(m),
        m.in_heap(a as int),
        !objects.absent(a),
    ensures
        own_count(m, objects, a),
{
    assert forall|b: usize|
        #![trigger objects.size(b)]
        !(m.in_heap(b as int) && objects.size(b) > BYTES_IN_LINE && a as int % BYTES_IN_LINE as int
            == 0 && m.line(b as int) < m.line(a as int) < m.line(b + objects.size(b))) by {
        if m.in_heap(b as int) && objects.size(b) > BYTES_IN_LINE && a as int % BYTES_IN_LINE as int
            == 0 && m.line(b as int) < m.line(a as int) && m.line(a as int) < m.line(
            b + objects.size(b),
        ) {
            assert(objects.absent(a));
        }
    }
}

/// When the increments of a packet are done and none was handed on, everything in the spaces that
/// the slots of the packet refer to has a count. Where every object with a count refers to objects
/// with a count before, that also holds after: so whatever is reached from the slots has a count.
/// And each object of the Immix space that gets its first count is taken out of the nursery.
pub proof fn law_increments_reach_every_object(
    st: IncState,
    after: IncState,
    kind: u8,
    objects: ObjectModel,
    slots: Seq<Slot>,
    roots: Seq<usize>,
)
    requires
        st.m.wf(),
        references_aligned(objects),
        references_described(st.m, objects),
        objects.fits(st.m),
        objects.separate(st.m),
        objects.fields_valid(st.m),
        promoted_are_allocated(st.m),
        counted_closed(st.m, objects),
        drained(
            IncState { roots, ..slots_processed(st, kind, objects, slots) },
            after,
            kind,
            objects,
        ),
        pending_incs(after).len() == 0,
    ensures
        counted_closed(after.m, objects),
        promoted_are_allocated(after.m),
        forall|i: int|
            0 <= i < slots.len() ==> (objects.target(#[trigger] slots[i]) matches Some(t)
                ==> st.m.in_spaces(t.addr()) ==> count_of(after.m, t.addr()) > 0),
        forall|a: usize|
            #![trigger objects.absent(a)]
            st.m.space_of(a as int) == SpaceKind::Immix && !objects.absent(a) && count_of(
                st.m,
                a as int,
            ) == 0 && count_of(after.m, a as int) > 0 ==> after.m.block_mark[st.m.block(
                a as int,
            )] != 0,
{
    law_every_reference_is_counted(st, after, kind, objects, slots, roots);
    let promoted = choose|promoted: Seq<ObjectReference>| #[trigger]
        inc_effect(st, after, kind, objects, slots, promoted);
    let fields = fields_of(objects, promoted);
    assert(pending_incs(after) =~= Seq::empty());
    assert forall|a: usize, t: ObjectReference|
        after.m.in_spaces(a as int) && count_of(after.m, a as int) > 0 && #[trigger] objects.refers(
            a,
            t,
        ) && after.m.in_spaces(t.addr()) implies count_of(after.m, t.addr()) > 0 by {
        let i = choose|i: int|
            0 <= i < objects.field_slots(a).len() && objects.target(
                #[trigger] objects.field_slots(a)[i],
            ) == Some(t);
        assert(!objects.absent(a));
        assert(!objects.absent(t.0.0)) by {
            assert(objects.target(objects.field_slots(a)[i]) == Some(t));
        }
        lemma_described_counts(st.m, objects, a);
        lemma_described_counts(st.m, objects, t.0.0);
        assert(count_effect(st, after, objects, slots, promoted, a));
        assert(count_effect(st, after, objects, slots, promoted, t.0.0));
        if count_of(st.m, a as int) > 0 {
            assert(count_of(st.m, t.addr()) > 0);
        } else {
            let o = ObjectReference(Address(a));
            assert(promoted.contains(o));
            lemma_field_listed(objects, promoted, o, i, t);
            assert(t == ObjectReference(Address(t.0.0)));
            lemma_refs_empty(objects, t);
        }
    }
    assert forall|i: int| 0 <= i < slots.len() implies (objects.target(
        #[trigger] slots[i],
    ) matches Some(t) ==> st.m.in_spaces(t.addr()) ==> count_of(after.m, t.addr()) > 0) by {
        if let Some(t) = objects.target(slots[i]) {
            if st.m.in_spaces(t.addr()) {
                assert(!objects.absent(t.0.0));
                lemma_described_counts(st.m, objects, t.0.0);
                assert(count_effect(st, after, objects, slots, promoted, t.0.0));
                lemma_refs_positive(objects, slots, i, t);
                lemma_refs_empty(objects, t);
                assert(t == ObjectReference(Address(t.0.0)));
            }
        }
    }
    assert forall|a: usize|
        #![trigger objects.absent(a)]
        st.m.space_of(a as int) == SpaceKind::Immix && !objects.absent(a) && count_of(
            st.m,
            a as int,
        ) == 0 && count_of(after.m, a as int) > 0 implies after.m.block_mark[st.m.block(a as int)]
        != 0 by {
        lemma_described_counts(st.m, objects, a);
        assert(count_effect(st, after, objects, slots, promoted, a));
        assert(promoted.contains(ObjectReference(Address(a))));
    }
}

/// A field of one of the objects is among the fields of all of them.
pub proof fn lemma_field_listed(
    objects: ObjectModel,
    list: Seq<ObjectReference>,
    o: ObjectReference,
    i: int,
    t: ObjectReference,
)
    requires
        list.contains(o),
        0 <= i < objects.field_slots(o.0.0).len(),
        objects.target(objects.field_slots(o.0.0)[i]) == Some(t),
    ensures
        refs(objects, fields_of(objects, list), t) > 0,
    decreases list.len(),
{
    let less = list.drop_last();
    let last = list.last();
    assert(less + seq![last] =~= list);
    lemma_fields_add(objects, less, seq![last]);
    lemma_fields_one(objects, last);
    lemma_refs_add(objects, fields_of(objects, less), objects.field_slots(last.0.0), t);
    if last == o {
        lemma_refs_positive(objects, objects.field_slots(o.0.0), i, t);
    } else {
        assert(less.contains(o)) by {
            let k = choose|k: int| 0 <= k < list.len() && list[k] == o;
            assert(less[k] == o);
        }
        lemma_field_listed(objects, less, o, i, t);
    }
}

} // verus!
