//! What decrements do to counts as a whole: every reference that is taken back, and every field of
//! every object that dies, counts once.

use crate::plan::lxr::increments::{
    fields_of, lemma_aligned_cells, lemma_fields_add, lemma_fields_one, lemma_refs_add,
    lemma_refs_empty, lemma_refs_push, own_count, references_aligned, refs,
};
use crate::plan::lxr::laws::lemma_line_start;
use crate::plan::lxr::rc::{
    all_in_heap, block_of, children_deferred, dead_processed, dec_deferred, dec_processed,
    dec_rounds, decs_drained, decs_processed, lemma_dec_processed, lemma_shrinks_chain, shrinks,
    DecState,
};
use crate::plan::vector_queue::VECTOR_QUEUE_CAPACITY;
use crate::policy::immix::block::{lemma_block_positions, BlockState};
use crate::util::address::{Address, ObjectReference};
use crate::util::constants::{BYTES_IN_LINE, MIN_OBJECT_SIZE};
use crate::util::metadata::{MetadataView, SpaceKind, MAX_REF_COUNT};
use crate::util::occurrences::{lemma_times_add, lemma_times_empty, lemma_times_push, times};
use crate::util::rc::{count_of, decremented, object_straddle};
use crate::util::vm::{ObjectModel, Slot};
use vstd::prelude::*;

verus! {

/// The objects that are still to be decremented, here or in packets that were handed on.
pub open spec fn pending_decs(st: DecState) -> Seq<ObjectReference> {
    st.scheduled.map_values(|packet: (Seq<ObjectReference>, bool)| packet.0).flatten()
        + st.new_decs
}

/// The objects of the list are aligned.
pub open spec fn all_aligned(list: Seq<ObjectReference>) -> bool {
    forall|i: int|
        0 <= i < list.len() ==> (#[trigger] list[i]).addr() % MIN_OBJECT_SIZE as int == 0
}

/// The count of `a` after decrements: what it was, less one for each decrement that was asked for
/// and each field of a dead object that refers to `a`, except those that are left for later. A
/// count that is used up may have been asked for more; one at its maximum stays there.
pub open spec fn uncount_effect(
    st: DecState,
    after: DecState,
    objects: ObjectModel,
    decs: Seq<ObjectReference>,
    dead: Seq<ObjectReference>,
    a: usize,
) -> bool {
    let o = ObjectReference(Address(a));
    let before = count_of(st.m, a as int);
    let now = count_of(after.m, a as int);
    let owed = times(pending_decs(st), o) + times(decs, o) + refs(
        objects,
        fields_of(objects, dead),
        o,
    );
    &&& now <= before
    &&& before == MAX_REF_COUNT ==> now == MAX_REF_COUNT
    &&& before < MAX_REF_COUNT ==> before - now + times(pending_decs(after), o) <= owed
    &&& 0 < now && before < MAX_REF_COUNT ==> before - now + times(pending_decs(after), o) == owed
    &&& before > 0 && now == 0 ==> dead.contains(o)
}

/// What decrements of `decs` do, when exactly the objects in `dead` lose their last count. The block
/// of each one in the Immix space waits for a sweep, unless it is not allocated.
pub open spec fn dec_effect(
    st: DecState,
    after: DecState,
    objects: ObjectModel,
    decs: Seq<ObjectReference>,
    dead: Seq<ObjectReference>,
) -> bool {
    &&& shrinks(st.m, after.m)
    &&& after.m.block_mark == st.m.block_mark
    &&& all_in_heap(after.m, after.new_decs)
    &&& all_aligned(st.new_decs) ==> all_aligned(after.new_decs)
    &&& dead.no_duplicates()
    &&& forall|p: ObjectReference| #[trigger]
        dead.contains(p) ==> st.m.in_heap(p.addr()) && count_of(st.m, p.addr()) > 0 && count_of(
            after.m,
            p.addr(),
        ) == 0
    &&& forall|a: usize|
        own_count(st.m, objects, a) ==> #[trigger] uncount_effect(
            st,
            after,
            objects,
            decs,
            dead,
            a,
        )
    &&& forall|p: ObjectReference| #[trigger]
        dead.contains(p) && st.m.space_of(p.addr()) == SpaceKind::Immix
            ==> st.m.block_mark[st.m.block(p.addr())] == 0 || after.m.block_log[st.m.block(
            p.addr(),
        )] == 1
    &&& forall|i: int|
        0 <= i < st.m.block_log.len() && st.m.block_log[i] == 1
            ==> #[trigger] after.m.block_log[i] == 1
}

/// What a run of decrements does, after one that came before.
proof fn lemma_effect_chain(
    x: DecState,
    y: DecState,
    z: DecState,
    objects: ObjectModel,
    d1: Seq<ObjectReference>,
    p1: Seq<ObjectReference>,
    d2: Seq<ObjectReference>,
    p2: Seq<ObjectReference>,
)
    requires
        x.m.wf(),
        dec_effect(x, y, objects, d1, p1),
        dec_effect(y, z, objects, d2, p2),
    ensures
        dec_effect(x, z, objects, d1 + d2, p1 + p2),
{
    let p = p1 + p2;
    lemma_shrinks_chain(x.m, y.m, z.m);
    lemma_fields_add(objects, p1, p2);
    assert forall|q: ObjectReference| #[trigger] p.contains(q) implies p1.contains(q)
        || p2.contains(q) by {
        let k = choose|k: int| 0 <= k < p.len() && p[k] == q;
        if k < p1.len() {
            assert(p1[k] == q);
        } else {
            assert(p2[k - p1.len()] == q);
        }
    }
    assert forall|q: ObjectReference| p1.contains(q) || p2.contains(q) implies p.contains(q) by {
        if p1.contains(q) {
            let k = choose|k: int| 0 <= k < p1.len() && p1[k] == q;
            assert(p[k] == q);
        } else {
            let k = choose|k: int| 0 <= k < p2.len() && p2[k] == q;
            assert(p[k + p1.len()] == q);
        }
    }
    assert forall|q: ObjectReference| #[trigger] p.contains(q) implies x.m.in_heap(q.addr())
        && count_of(x.m, q.addr()) > 0 && count_of(z.m, q.addr()) == 0 by {
        let c = x.m.cell(q.addr());
        if p1.contains(q) {
            assert(z.m.rc[c] != 0 ==> y.m.rc[c] != 0);
        } else {
            assert(p2.contains(q));
            assert(y.m.rc[c] != 0 ==> x.m.rc[c] != 0);
        }
    }
    assert(p.no_duplicates()) by {
        assert forall|i: int, j: int| 0 <= i < j < p.len() implies p[i] != p[j] by {
            if i < p1.len() && j >= p1.len() {
                assert(p1.contains(p1[i]));
                assert(p2.contains(p2[j - p1.len()]));
            } else if j < p1.len() {
                assert(p1[i] != p1[j]);
            } else {
                assert(p2[i - p1.len()] != p2[j - p1.len()]);
            }
        }
    }
    assert forall|a: usize| own_count(x.m, objects, a) implies #[trigger] uncount_effect(
        x,
        z,
        objects,
        d1 + d2,
        p,
        a,
    ) by {
        let o = ObjectReference(Address(a));
        assert(own_count(y.m, objects, a));
        assert(uncount_effect(x, y, objects, d1, p1, a));
        assert(uncount_effect(y, z, objects, d2, p2, a));
        lemma_times_add(d1, d2, o);
        lemma_refs_add(objects, fields_of(objects, p1), fields_of(objects, p2), o);
    }
    assert forall|i: int|
        0 <= i < x.m.block_log.len() && x.m.block_log[i] == 1 implies #[trigger] z.m.block_log[i]
        == 1 by {
        assert(y.m.block_log[i] == 1);
    }
    assert forall|q: ObjectReference| #[trigger]
        p.contains(q) && x.m.space_of(q.addr()) == SpaceKind::Immix implies x.m.block_mark[x.m.block(
        q.addr(),
    )] == 0 || z.m.block_log[x.m.block(q.addr())] == 1 by {
        let i = x.m.block(q.addr());
        if p1.contains(q) {
            if x.m.block_mark[i] != 0 {
                assert(y.m.block_log[i] == 1);
                assert(0 <= i < x.m.block_log.len());
                assert(z.m.block_log[i] == 1);
            }
        } else {
            assert(p2.contains(q));
        }
    }
}

/// The packets after one more was handed on, and what is still to be decremented.
proof fn lemma_deferred(st: DecState, o: ObjectReference, in_pause: bool)
    ensures
        pending_decs(dec_deferred(st, o, in_pause)) == pending_decs(st).push(o),
{
    let f = |packet: (Seq<ObjectReference>, bool)| packet.0;
    let pushed = st.new_decs.push(o);
    let after = dec_deferred(st, o, in_pause);
    if pushed.len() >= VECTOR_QUEUE_CAPACITY {
        assert(after.scheduled.map_values(f) =~= st.scheduled.map_values(f).push(pushed));
        st.scheduled.map_values(f).lemma_flatten_push(pushed);
        assert(pending_decs(after) =~= st.scheduled.map_values(f).flatten() + pushed);
    }
    assert(pending_decs(after) =~= pending_decs(st).push(o));
}

/// What a field of a dead object refers to, if it has a count that can be taken back.
pub open spec fn live_child(m: MetadataView, objects: ObjectModel) -> spec_fn(Slot) -> Option<
    ObjectReference,
> {
    |slot: Slot|
        match objects.target(slot) {
            Some(x) => if count_of(m, x.addr()) == 0 || count_of(m, x.addr()) == MAX_REF_COUNT {
                None
            } else {
                Some(x)
            },
            None => None,
        }
}

/// The fields of a dead object.
proof fn lemma_children(st: DecState, objects: ObjectModel, slots: Seq<Slot>, in_pause: bool)
    ensures
        ({
            let after = children_deferred(st, objects, slots, in_pause);
            &&& pending_decs(after) == pending_decs(st) + slots.filter_map(
                live_child(st.m, objects),
            )
            &&& after.m == st.m
            &&& after.s == st.s
        }),
    decreases slots.len(),
{
    let f = live_child(st.m, objects);
    if slots.len() == 0 {
        assert(pending_decs(st) + slots.filter_map(f) =~= pending_decs(st));
    } else {
        let less = slots.drop_last();
        lemma_children(st, objects, less, in_pause);
        let before = children_deferred(st, objects, less, in_pause);
        let after = children_deferred(st, objects, slots, in_pause);
        if let Some(x) = objects.target(slots.last()) {
            lemma_deferred(before, x, in_pause);
        }
        assert(pending_decs(after) =~= pending_decs(st) + slots.filter_map(f));
    }
}

/// When an object loses its last count, one decrement is left for later, or handed on in a packet,
/// for each of its fields that refers to an object with a count that can be taken back, in order;
/// whatever was left before still is.
pub proof fn law_dead_object_passes_every_reference_on(
    st: DecState,
    objects: ObjectModel,
    o: ObjectReference,
    in_pause: bool,
)
    requires
        st.m.wf(),
        st.m.in_heap(o.addr()),
    ensures
        count_of(st.m, o.addr()) == 1 ==> pending_decs(dec_processed(st, objects, o, in_pause))
            == pending_decs(st) + objects.field_slots(o.0.0).filter_map(
            live_child(decremented(st.m, o.addr()), objects),
        ),
        count_of(st.m, o.addr()) != 1 ==> pending_decs(dec_processed(st, objects, o, in_pause))
            == pending_decs(st),
{
    let counted = DecState { m: decremented(st.m, o.addr()), ..st };
    lemma_children(counted, objects, objects.field_slots(o.0.0), in_pause);
    assert(pending_decs(counted) =~= pending_decs(st));
    let deferred = children_deferred(counted, objects, objects.field_slots(o.0.0), in_pause);
    let after = dec_processed(st, objects, o, in_pause);
    if count_of(st.m, o.addr()) == 1 {
        assert(after.scheduled == deferred.scheduled);
        assert(after.new_decs == deferred.new_decs);
    }
}

/// How often an object is among the children that can be taken back.
proof fn lemma_child_times(
    m: MetadataView,
    objects: ObjectModel,
    slots: Seq<Slot>,
    a: ObjectReference,
)
    ensures
        ({
            let listed = times(slots.filter_map(live_child(m, objects)), a);
            &&& listed <= refs(objects, slots, a)
            &&& 0 < count_of(m, a.addr()) && count_of(m, a.addr()) != MAX_REF_COUNT ==> listed
                == refs(objects, slots, a)
        }),
    decreases slots.len(),
{
    let f = live_child(m, objects);
    if slots.len() == 0 {
        assert(slots =~= Seq::empty());
        assert(slots.filter_map(f) =~= Seq::empty());
        lemma_refs_empty(objects, a);
        lemma_times_empty::<ObjectReference>(a);
    } else {
        let less = slots.drop_last();
        let slot = slots.last();
        lemma_child_times(m, objects, less, a);
        assert(less.push(slot) =~= slots);
        lemma_refs_push(objects, less, slot, a);
        match f(slot) {
            Some(x) => {
                assert(slots.filter_map(f) =~= less.filter_map(f).push(x));
                lemma_times_push(less.filter_map(f), x, a);
            },
            None => {
                assert(slots.filter_map(f) =~= less.filter_map(f));
            },
        }
    }
}

/// The children of a dead object are aligned, as references are.
proof fn lemma_children_aligned(
    st: DecState,
    objects: ObjectModel,
    slots: Seq<Slot>,
    in_pause: bool,
)
    requires
        references_aligned(objects),
        all_aligned(st.new_decs),
    ensures
        all_aligned(children_deferred(st, objects, slots, in_pause).new_decs),
    decreases slots.len(),
{
    if slots.len() > 0 {
        lemma_children_aligned(st, objects, slots.drop_last(), in_pause);
        if let Some(x) = objects.target(slots.last()) {
            assert(x.addr() % MIN_OBJECT_SIZE as int == 0);
        }
    }
}

/// Removing the marks of the lines of an object changes no count of its own.
proof fn lemma_unmark_counts_nothing(
    m: MetadataView,
    objects: ObjectModel,
    o: ObjectReference,
    a: usize,
)
    requires
        m.wf(),
        m.in_heap(o.addr()),
        own_count(m, objects, a),
    ensures
        count_of(object_straddle(m, o.addr(), objects.size(o.0.0) as int, 0), a as int)
            == count_of(m, a as int),
{
    lemma_line_start(m, a as int);
    let size = objects.size(o.0.0);
    assert(!(size > BYTES_IN_LINE && a as int % BYTES_IN_LINE as int == 0 && m.line(o.addr())
        < m.line(a as int) < m.line(o.addr() + size)));
}

/// The tables after an object died: no other count changes, the block states stay, and the block of
/// the object waits for a sweep.
proof fn lemma_dead_tables(st: DecState, objects: ObjectModel, o: ObjectReference, in_pause: bool)
    requires
        st.m.wf(),
        objects.fits(st.m),
        st.m.in_heap(o.addr()),
    ensures
        ({
            let after = dead_processed(st, objects, o, in_pause);
            let i = st.m.block(o.addr());
            &&& forall|a: usize|
                #![trigger own_count(st.m, objects, a)]
                own_count(st.m, objects, a) ==> count_of(after.m, a as int) == count_of(
                    st.m,
                    a as int,
                )
            &&& after.m.block_mark == st.m.block_mark
            &&& 0 <= i < st.m.block_log.len()
            &&& st.m.space_of(o.addr()) == SpaceKind::Immix ==> st.m.block_mark[i] == 0
                || after.m.block_log[i] == 1
            &&& forall|k: int|
                0 <= k < st.m.block_log.len() && st.m.block_log[k] == 1
                    ==> #[trigger] after.m.block_log[k] == 1
        }),
{
    let slots = objects.field_slots(o.0.0);
    let block = block_of(o.addr());
    lemma_children(st, objects, slots, in_pause);
    lemma_block_positions(st.m, block);
    assert(block.index(st.m) == st.m.block(o.addr()));
    let size = objects.size(o.0.0) as int;
    assert(size > 0 ==> o.addr() + size <= st.m.end());
    let unmarked = object_straddle(st.m, o.addr(), size, 0);
    assert forall|a: usize|
        #![trigger own_count(st.m, objects, a)]
        own_count(st.m, objects, a) implies count_of(unmarked, a as int) == count_of(
        st.m,
        a as int,
    ) by {
        lemma_unmark_counts_nothing(st.m, objects, o, a);
    }
    assert(unmarked.block_log == st.m.block_log);
    assert(unmarked.block_mark == st.m.block_mark);
    assert(block.state(unmarked) == BlockState::Unallocated ==> st.m.block_mark[block.index(st.m)]
        == 0);
}

/// One decrement.
proof fn lemma_dec_effect(st: DecState, objects: ObjectModel, o: ObjectReference, in_pause: bool)
    requires
        st.m.wf(),
        references_aligned(objects),
        objects.fits(st.m),
        objects.fields_valid(st.m),
        st.m.in_heap(o.addr()),
        o.addr() % MIN_OBJECT_SIZE as int == 0,
        all_in_heap(st.m, st.new_decs),
    ensures
        dec_effect(
            st,
            dec_processed(st, objects, o, in_pause),
            objects,
            seq![o],
            if count_of(st.m, o.addr()) == 1 {
                seq![o]
            } else {
                Seq::empty()
            },
        ),
{
    let after = dec_processed(st, objects, o, in_pause);
    let counted = DecState { m: decremented(st.m, o.addr()), ..st };
    let none = Seq::<ObjectReference>::empty();
    let dies = count_of(st.m, o.addr()) == 1;
    let dead = if dies {
        seq![o]
    } else {
        none
    };
    let slots = objects.field_slots(o.0.0);
    let one = seq![o];
    lemma_dec_processed(st, objects, o, in_pause);
    lemma_aligned_cells(st.m, o.addr(), o.addr());
    law_dead_object_passes_every_reference_on(st, objects, o, in_pause);
    assert(counted.m.wf());
    assert(objects.fits(counted.m));
    lemma_dead_tables(counted, objects, o, in_pause);
    lemma_fields_one(objects, o);
    if all_aligned(st.new_decs) {
        lemma_children_aligned(counted, objects, slots, in_pause);
    }
    assert forall|p: ObjectReference| #[trigger] dead.contains(p) implies p == o && dies by {}
    let cell = st.m.cell(o.addr());
    assert(dies ==> counted.m.rc[cell] == 0);
    if dies {
        let deferred = children_deferred(counted, objects, slots, in_pause);
        lemma_children(counted, objects, slots, in_pause);
        assert(after.m.rc[cell] == 0);
    }
    assert forall|a: usize| own_count(st.m, objects, a) implies #[trigger] uncount_effect(
        st,
        after,
        objects,
        one,
        dead,
        a,
    ) by {
        let x = ObjectReference(Address(a));
        lemma_aligned_cells(st.m, o.addr(), a as int);
        assert(own_count(counted.m, objects, a));
        lemma_times_empty::<ObjectReference>(x);
        lemma_times_push(none, o, x);
        assert(none.push(o) =~= one);
        lemma_refs_empty(objects, x);
        let listed = slots.filter_map(live_child(counted.m, objects));
        lemma_times_add(pending_decs(st), listed, x);
        lemma_child_times(counted.m, objects, slots, x);
        assert(count_of(after.m, a as int) == count_of(counted.m, a as int));
        if x == o {
            assert(dies ==> dead[0] == o);
        } else {
            assert(a as int != o.addr());
            assert(count_of(counted.m, a as int) == count_of(st.m, a as int));
        }
    }
}

/// The decrements of a run of objects.
proof fn lemma_decs_effect(
    st: DecState,
    objects: ObjectModel,
    decs: Seq<ObjectReference>,
    in_pause: bool,
) -> (dead: Seq<ObjectReference>)
    requires
        st.m.wf(),
        references_aligned(objects),
        objects.fits(st.m),
        objects.fields_valid(st.m),
        all_in_heap(st.m, decs),
        all_aligned(decs),
        all_in_heap(st.m, st.new_decs),
    ensures
        dec_effect(st, decs_processed(st, objects, decs, in_pause), objects, decs, dead),
    decreases decs.len(),
{
    let none = Seq::<ObjectReference>::empty();
    if decs.len() == 0 {
        assert(decs =~= none);
        lemma_no_effect(st, objects);
        none
    } else {
        let less = decs.drop_last();
        let o = decs.last();
        assert forall|i: int| 0 <= i < less.len() implies st.m.in_heap((#[trigger] less[i]).addr())
            && less[i].addr() % MIN_OBJECT_SIZE as int == 0 by {
            assert(less[i] == decs[i]);
        }
        let p1 = lemma_decs_effect(st, objects, less, in_pause);
        let before = decs_processed(st, objects, less, in_pause);
        assert(o == decs[decs.len() - 1]);
        assert(objects.fits(before.m));
        assert(objects.fields_valid(before.m));
        lemma_dec_effect(before, objects, o, in_pause);
        let p2 = if count_of(before.m, o.addr()) == 1 {
            seq![o]
        } else {
            none
        };
        lemma_effect_chain(
            st,
            before,
            decs_processed(st, objects, decs, in_pause),
            objects,
            less,
            p1,
            seq![o],
            p2,
        );
        assert(less + seq![o] =~= decs);
        p1 + p2
    }
}

/// Nothing happens without a decrement.
proof fn lemma_no_effect(st: DecState, objects: ObjectModel)
    requires
        st.m.wf(),
        all_in_heap(st.m, st.new_decs),
    ensures
        dec_effect(st, st, objects, Seq::empty(), Seq::empty()),
{
    let none = Seq::<ObjectReference>::empty();
    lemma_fields_one(objects, ObjectReference(Address(0)));
    assert forall|a: usize| own_count(st.m, objects, a) implies #[trigger] uncount_effect(
        st,
        st,
        objects,
        none,
        none,
        a,
    ) by {
        lemma_refs_empty(objects, ObjectReference(Address(a)));
        lemma_times_empty::<ObjectReference>(ObjectReference(Address(a)));
    }
}

/// Rounds of decrements.
proof fn lemma_rounds_effect(st: DecState, objects: ObjectModel, in_pause: bool, n: nat) -> (dead: Seq<
    ObjectReference,
>)
    requires
        st.m.wf(),
        references_aligned(objects),
        objects.fits(st.m),
        objects.fields_valid(st.m),
        all_in_heap(st.m, st.new_decs),
        all_aligned(st.new_decs),
    ensures
        dec_effect(st, dec_rounds(st, objects, in_pause, n), objects, Seq::empty(), dead),
    decreases n,
{
    let none = Seq::<ObjectReference>::empty();
    if n == 0 {
        lemma_no_effect(st, objects);
        none
    } else {
        let p1 = lemma_rounds_effect(st, objects, in_pause, (n - 1) as nat);
        let before = dec_rounds(st, objects, in_pause, (n - 1) as nat);
        let emptied = DecState { new_decs: none, ..before };
        let after = dec_rounds(st, objects, in_pause, n);
        assert(objects.fits(emptied.m));
        assert(objects.fields_valid(emptied.m));
        let p2 = lemma_decs_effect(emptied, objects, before.new_decs, in_pause);
        assert(dec_effect(before, after, objects, none, p2)) by {
            assert forall|a: usize|
                own_count(before.m, objects, a) implies #[trigger] uncount_effect(
                before,
                after,
                objects,
                none,
                p2,
                a,
            ) by {
                let o = ObjectReference(Address(a));
                assert(uncount_effect(emptied, after, objects, before.new_decs, p2, a));
                lemma_times_empty::<ObjectReference>(o);
                let handed = before.scheduled.map_values(
                    |packet: (Seq<ObjectReference>, bool)| packet.0,
                ).flatten();
                lemma_times_add(handed, before.new_decs, o);
                assert(pending_decs(emptied) =~= handed);
            }
        }
        lemma_effect_chain(st, before, after, objects, none, p1, none, p2);
        assert(none + none =~= none);
        p1 + p2
    }
}

/// When the decrements of a packet are done, the count of each object is less by the number of
/// decrements of the packet, and of fields of objects that died on the way, which refer to it; only
/// what packets that were handed on will take back is not taken back yet. A count that is used up
/// may have been asked for more, and one at its maximum stays.
pub proof fn law_every_reference_is_taken_back(
    st: DecState,
    after: DecState,
    objects: ObjectModel,
    decs: Seq<ObjectReference>,
    in_pause: bool,
)
    requires
        st.m.wf(),
        references_aligned(objects),
        objects.fits(st.m),
        objects.fields_valid(st.m),
        all_in_heap(st.m, decs),
        all_aligned(decs),
        all_in_heap(st.m, st.new_decs),
        all_aligned(st.new_decs),
        decs_drained(decs_processed(st, objects, decs, in_pause), after, objects, in_pause),
    ensures
        after.new_decs.len() == 0,
        exists|dead: Seq<ObjectReference>| #[trigger]
            dec_effect(st, after, objects, decs, dead),
{
    let first = decs_processed(st, objects, decs, in_pause);
    let p1 = lemma_decs_effect(st, objects, decs, in_pause);
    assert(objects.fits(first.m));
    assert(objects.fields_valid(first.m));
    let n = choose|n: nat|
        #![trigger dec_rounds(first, objects, in_pause, n)]
        after == dec_rounds(first, objects, in_pause, n) && forall|k: nat|
            k < n ==> (#[trigger] dec_rounds(first, objects, in_pause, k)).new_decs.len() > 0;
    let p2 = lemma_rounds_effect(first, objects, in_pause, n);
    let none = Seq::<ObjectReference>::empty();
    lemma_effect_chain(st, first, after, objects, decs, p1, none, p2);
    assert(decs + none =~= decs);
    assert(dec_effect(st, after, objects, decs, p1 + p2));
}

/// When the decrements of a packet are done and none was handed on, an object whose count is left
/// over lost exactly one for each decrement of the packet and each field of a dead object that
/// refers to it. So what only dead objects referred to is dead, too.
pub proof fn law_death_reaches_every_object(
    st: DecState,
    after: DecState,
    objects: ObjectModel,
    decs: Seq<ObjectReference>,
    dead: Seq<ObjectReference>,
    a: usize,
)
    requires
        dec_effect(st, after, objects, decs, dead),
        pending_decs(after).len() == 0,
        own_count(st.m, objects, a),
        count_of(st.m, a as int) < MAX_REF_COUNT,
        count_of(st.m, a as int) <= times(decs, ObjectReference(Address(a))) + refs(
            objects,
            fields_of(objects, dead),
            ObjectReference(Address(a)),
        ),
    ensures
        count_of(after.m, a as int) == 0,
{
    let o = ObjectReference(Address(a));
    assert(uncount_effect(st, after, objects, decs, dead, a));
    assert(pending_decs(after) =~= Seq::empty());
    lemma_times_empty::<ObjectReference>(o);
}

} // verus!
