//! What holds of the write barrier of the LXR plan as a whole: nothing that it has to hand on is
//! lost, and every field is logged.

use crate::plan::lxr::barrier::{
    decs_flushed, incs_flushed, node_enqueued, nodes_enqueued, targets_incremented, BarrierState,
};
use crate::plan::lxr::increments::{
    lemma_aligned_cells, lemma_refs_empty, lemma_refs_push, references_aligned, refs,
};
use crate::util::address::{Address, ObjectReference};
use crate::util::constants::MIN_OBJECT_SIZE;
use crate::util::log_bit::LOGGED_VALUE;
use crate::util::metadata::{MetadataView, MAX_REF_COUNT};
use crate::util::rc::count_of;
use crate::util::vm::{ObjectModel, Slot};
use vstd::prelude::*;

verus! {

/// The fields to increment through, in the packets that were handed on and in the buffer.
pub open spec fn all_incs(st: BarrierState) -> Seq<Slot> {
    st.inc_packets.flatten() + st.incs
}

/// The objects to decrement, in the packets that were handed on and in the buffer.
pub open spec fn all_decs(st: BarrierState) -> Seq<ObjectReference> {
    st.dec_packets.flatten() + st.decs
}

/// The log bit of a field.
pub open spec fn log_bit(m: MetadataView, slot: Slot) -> u8 {
    m.field_unlog[m.cell(slot.0.0 as int)]
}

/// The fields that no barrier has seen yet.
pub open spec fn unseen(m: MetadataView) -> spec_fn(Slot) -> bool {
    |slot: Slot| log_bit(m, slot) != LOGGED_VALUE
}

/// Handing increments on, and then decrements, loses none and adds none; nothing is left in the
/// buffers, no packet is empty that was not, and the tables change in the number of increments to
/// expect alone.
pub proof fn law_flush_hands_all_on(st: BarrierState)
    ensures
        all_incs(incs_flushed(st)) == all_incs(st),
        all_decs(incs_flushed(st)) == all_decs(st),
        incs_flushed(st).incs.len() == 0,
        incs_flushed(st).decs == st.decs,
        incs_flushed(st).inc_packets.len() == st.inc_packets.len() + (if st.incs.len() == 0 {
            0int
        } else {
            1int
        }),
        incs_flushed(st).m == (MetadataView {
            inc_buffer_size: incs_flushed(st).m.inc_buffer_size,
            ..st.m
        }),
        st.m.inc_buffer_size + st.incs.len() <= usize::MAX
            ==> incs_flushed(st).m.inc_buffer_size == st.m.inc_buffer_size + st.incs.len(),
        all_incs(decs_flushed(st)) == all_incs(st),
        all_decs(decs_flushed(st)) == all_decs(st),
        decs_flushed(st).decs.len() == 0,
        decs_flushed(st).incs == st.incs,
        decs_flushed(st).dec_packets.len() == st.dec_packets.len() + (if st.decs.len() == 0 {
            0int
        } else {
            1int
        }),
        decs_flushed(st).m == st.m,
{
    st.inc_packets.lemma_flatten_push(st.incs);
    st.dec_packets.lemma_flatten_push(st.decs);
    assert(all_incs(incs_flushed(st)) =~= all_incs(st));
    assert(all_decs(decs_flushed(st)) =~= all_decs(st));
}

/// The first write to a field hands on the field, and what the field referred to before; a later one
/// hands on nothing. Either way the field is logged afterwards, and no other log bit changes.
pub proof fn law_write_is_logged(st: BarrierState, objects: ObjectModel, slot: Slot)
    requires
        st.m.wf(),
        st.m.in_heap(slot.0.0 as int),
    ensures
        ({
            let after = node_enqueued(st, objects, slot);
            &&& log_bit(after.m, slot) == LOGGED_VALUE
            &&& forall|c: int|
                0 <= c < st.m.field_unlog.len() && c != st.m.cell(slot.0.0 as int)
                    ==> #[trigger] after.m.field_unlog[c] == st.m.field_unlog[c]
            &&& log_bit(st.m, slot) == LOGGED_VALUE ==> after == st
            &&& log_bit(st.m, slot) != LOGGED_VALUE ==> all_incs(after) == all_incs(st).push(slot)
            &&& log_bit(st.m, slot) != LOGGED_VALUE ==> (objects.target(slot) matches Some(old)
                ==> all_decs(after) == all_decs(st).push(old))
            &&& objects.target(slot) is None ==> all_decs(after) == all_decs(st)
            &&& after.m == (MetadataView {
                field_unlog: after.m.field_unlog,
                inc_buffer_size: after.m.inc_buffer_size,
                ..st.m
            })
            &&& after.m.field_unlog.len() == st.m.field_unlog.len()
            &&& after.m.inc_buffer_size < usize::MAX ==> after.m.inc_buffer_size + after.incs.len()
                == st.m.inc_buffer_size + all_incs(after).len() - all_incs(st).len()
                + st.incs.len()
        }),
{
    let after = node_enqueued(st, objects, slot);
    if log_bit(st.m, slot) != LOGGED_VALUE {
        let middle = match objects.target(slot) {
            Some(old) => BarrierState { decs: st.decs.push(old), ..st },
            None => st,
        };
        law_flush_hands_all_on(middle);
        let pushed = BarrierState { incs: st.incs.push(slot), ..st };
        law_flush_hands_all_on(pushed);
        st.inc_packets.lemma_flatten_push(pushed.incs);
        assert(all_incs(pushed) =~= all_incs(st).push(slot));
        if let Some(old) = objects.target(slot) {
            assert(all_decs(middle) =~= all_decs(st).push(old));
        }
        assert(all_incs(after) =~= all_incs(st).push(slot));
        if let Some(old) = objects.target(slot) {
            assert(all_decs(after) =~= all_decs(st).push(old));
        } else {
            assert(all_decs(after) =~= all_decs(st));
        }
    }
}

/// A write to a run of fields logs every one of them, and no other.
pub proof fn law_region_write_logs_every_field(
    st: BarrierState,
    objects: ObjectModel,
    slots: Seq<Slot>,
)
    requires
        st.m.wf(),
        forall|i: int| 0 <= i < slots.len() ==> st.m.in_heap((#[trigger] slots[i]).0.0 as int),
    ensures
        ({
            let after = nodes_enqueued(st, objects, slots);
            &&& after.m.wf()
            &&& after.m == (MetadataView {
                field_unlog: after.m.field_unlog,
                inc_buffer_size: after.m.inc_buffer_size,
                ..st.m
            })
            &&& forall|i: int|
                0 <= i < slots.len() ==> log_bit(after.m, #[trigger] slots[i]) == LOGGED_VALUE
            &&& forall|c: int|
                #![trigger after.m.field_unlog[c]]
                0 <= c < st.m.field_unlog.len() && after.m.field_unlog[c] != st.m.field_unlog[c]
                    ==> exists|i: int|
                    0 <= i < slots.len() && st.m.cell((#[trigger] slots[i]).0.0 as int) == c
        }),
    decreases slots.len(),
{
    if slots.len() > 0 {
        let less = slots.drop_last();
        let slot = slots.last();
        assert forall|i: int| 0 <= i < less.len() implies st.m.in_heap(
            (#[trigger] less[i]).0.0 as int,
        ) by {
            assert(less[i] == slots[i]);
        }
        law_region_write_logs_every_field(st, objects, less);
        let before = nodes_enqueued(st, objects, less);
        let after = nodes_enqueued(st, objects, slots);
        assert(slots[slots.len() - 1] == slot);
        law_write_is_logged(before, objects, slot);
        assert(after == node_enqueued(before, objects, slot));
        assert forall|i: int| 0 <= i < slots.len() implies log_bit(after.m, #[trigger] slots[i])
            == LOGGED_VALUE by {
            if i < less.len() {
                assert(less[i] == slots[i]);
                let c = st.m.cell(slots[i].0.0 as int);
                assert(before.m.field_unlog[c] == LOGGED_VALUE);
            }
        }
        assert forall|c: int|
            #![trigger after.m.field_unlog[c]]
            0 <= c < st.m.field_unlog.len() && after.m.field_unlog[c]
                != st.m.field_unlog[c] implies exists|i: int|
            0 <= i < slots.len() && st.m.cell((#[trigger] slots[i]).0.0 as int) == c by {
            if c == st.m.cell(slot.0.0 as int) {
                assert(st.m.cell(slots[slots.len() - 1].0.0 as int) == c);
            } else {
                assert(before.m.field_unlog[c] != st.m.field_unlog[c]);
                let i = choose|i: int|
                    0 <= i < less.len() && st.m.cell((#[trigger] less[i]).0.0 as int) == c;
                assert(slots[i] == less[i]);
            }
        }
    }
}

/// A write to a run of different fields hands on, in order, every field that no barrier has seen
/// yet, and what each of them referred to before.
pub proof fn law_region_write_loses_no_field(
    st: BarrierState,
    objects: ObjectModel,
    slots: Seq<Slot>,
)
    requires
        st.m.wf(),
        forall|i: int| 0 <= i < slots.len() ==> st.m.in_heap((#[trigger] slots[i]).0.0 as int),
        forall|i: int, j: int|
            0 <= i < j < slots.len() ==> st.m.cell((#[trigger] slots[i]).0.0 as int) != st.m.cell(
                (#[trigger] slots[j]).0.0 as int,
            ),
    ensures
        all_incs(nodes_enqueued(st, objects, slots)) == all_incs(st) + slots.filter(unseen(st.m)),
        all_decs(nodes_enqueued(st, objects, slots)) == all_decs(st) + slots.filter(
            unseen(st.m),
        ).filter_map(|slot: Slot| objects.target(slot)),
    decreases slots.len(),
{
    reveal(Seq::filter);
    reveal(Seq::filter_map);
    let f = |slot: Slot| objects.target(slot);
    if slots.len() == 0 {
        assert(all_incs(st) =~= all_incs(st) + slots.filter(unseen(st.m)));
        assert(slots.filter(unseen(st.m)).filter_map(f) =~= Seq::empty());
        assert(all_decs(st) =~= all_decs(st) + slots.filter(unseen(st.m)).filter_map(f));
    } else {
        let less = slots.drop_last();
        let slot = slots.last();
        assert forall|i: int| 0 <= i < less.len() implies st.m.in_heap(
            (#[trigger] less[i]).0.0 as int,
        ) by {
            assert(less[i] == slots[i]);
        }
        assert forall|i: int, j: int| 0 <= i < j < less.len() implies st.m.cell(
            (#[trigger] less[i]).0.0 as int,
        ) != st.m.cell((#[trigger] less[j]).0.0 as int) by {
            assert(less[i] == slots[i]);
            assert(less[j] == slots[j]);
        }
        law_region_write_loses_no_field(st, objects, less);
        law_region_write_logs_every_field(st, objects, less);
        let before = nodes_enqueued(st, objects, less);
        let after = nodes_enqueued(st, objects, slots);
        let c = st.m.cell(slot.0.0 as int);
        assert(slots[slots.len() - 1] == slot);
        assert(before.m.field_unlog[c] == st.m.field_unlog[c]) by {
            if before.m.field_unlog[c] != st.m.field_unlog[c] {
                let i = choose|i: int|
                    0 <= i < less.len() && st.m.cell((#[trigger] less[i]).0.0 as int) == c;
                assert(slots[i] == less[i]);
                assert(st.m.cell(slots[i].0.0 as int) != st.m.cell(
                    slots[slots.len() - 1].0.0 as int,
                ));
            }
        }
        law_write_is_logged(before, objects, slot);
        assert(after == node_enqueued(before, objects, slot));
        let seen = less.filter(unseen(st.m));
        let all = slots.filter(unseen(st.m));
        if log_bit(st.m, slot) == LOGGED_VALUE {
            assert(all == seen);
        } else {
            assert(all == seen.push(slot));
            assert(all.drop_last() =~= seen);
            assert(all_incs(after) =~= all_incs(st) + all);
            assert(all_decs(after) =~= all_decs(st) + all.filter_map(f));
        }
    }
}

/// When a mutator ends, the count of each object grows by the number of buffered fields that refer
/// to it, up to the maximum, and nothing else in the tables changes.
pub proof fn law_terminating_flush_counts_every_field(
    m: MetadataView,
    objects: ObjectModel,
    slots: Seq<Slot>,
    a: usize,
)
    requires
        m.wf(),
        references_aligned(objects),
        forall|i: int|
            0 <= i < slots.len() ==> (objects.target(#[trigger] slots[i]) matches Some(o)
                ==> m.in_heap(o.addr())),
        m.in_heap(a as int),
        a as int % MIN_OBJECT_SIZE as int == 0,
    ensures
        ({
            let after = targets_incremented(m, objects, slots);
            let owed = count_of(m, a as int) + refs(objects, slots, ObjectReference(Address(a)));
            &&& after.wf()
            &&& after == (MetadataView { rc: after.rc, ..m })
            &&& count_of(after, a as int) == if owed <= MAX_REF_COUNT {
                owed
            } else {
                MAX_REF_COUNT as int
            }
        }),
    decreases slots.len(),
{
    let o = ObjectReference(Address(a));
    if slots.len() == 0 {
        assert(slots =~= Seq::empty());
        lemma_refs_empty(objects, o);
    } else {
        let less = slots.drop_last();
        let slot = slots.last();
        assert forall|i: int| 0 <= i < less.len() implies (objects.target(
            #[trigger] less[i],
        ) matches Some(o) ==> m.in_heap(o.addr())) by {
            assert(less[i] == slots[i]);
        }
        law_terminating_flush_counts_every_field(m, objects, less, a);
        assert(slots =~= less.push(slot));
        lemma_refs_push(objects, less, slot, o);
        assert(slots[slots.len() - 1] == slot);
        let before = targets_incremented(m, objects, less);
        if let Some(t) = objects.target(slot) {
            lemma_aligned_cells(before, t.addr(), a as int);
        }
    }
}

} // verus!
