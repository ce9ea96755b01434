//! What holds of the write barrier as a whole: nothing that it has to keep is lost.

use crate::plan::concurrent::bactrian::barrier::{
    dispatched, modbuf_flushed, object_addresses, object_remembered, refs_flushed,
    region_remembered, regions_flushed, satb_flushed, slot_kept, slots_kept, weak_loaded,
    MemorySlice, RememberState, SnapshotState,
};
use crate::plan::concurrent::bactrian::global::BactrianView;
use crate::plan::concurrent::Pause;
use crate::util::address::{Address, ObjectReference};
use crate::util::metadata::{MetadataView, SpaceKind};
use crate::util::occurrences::{
    lemma_times_empty, lemma_times_flatten_push, lemma_times_push, times,
};
use crate::util::vm::{ObjectModel, Slot};
use vstd::prelude::*;

verus! {

/// The packets that are parked, without where they came from.
pub open spec fn parked_values(st: SnapshotState) -> Seq<Seq<usize>> {
    st.parked.map_values(|packet: (bool, Seq<usize>)| packet.1)
}

/// How often the barrier holds the address `a` for the marker, or has handed it on.
pub open spec fn kept_times(st: SnapshotState, a: usize) -> nat {
    times(object_addresses(st.satb), a) + times(object_addresses(st.refs), a) + times(
        parked_values(st).flatten(),
        a,
    ) + times(st.concurrent.flatten(), a) + times(st.closure.flatten(), a)
}

/// The addresses of what the slots refer to, in order, without young objects.
pub open spec fn mature_targets(
    v: BactrianView,
    m: MetadataView,
    objects: ObjectModel,
    slots: Seq<Slot>,
) -> Seq<usize> {
    slots.filter_map(
        |slot: Slot|
            match objects.target(slot) {
                Some(old) => if v.young(m, old.0.0) {
                    None
                } else {
                    Some(old.0.0)
                },
                None => None,
            },
    )
}

/// What packets of one channel or another hold after a packet was handed on.
proof fn lemma_dispatched(
    st: SnapshotState,
    v: BactrianView,
    objects: Seq<ObjectReference>,
    a: usize,
)
    ensures
        kept_times(dispatched(st, v, objects), a) == kept_times(st, a) + times(
            object_addresses(objects),
            a,
        ),
        dispatched(st, v, objects).satb == st.satb,
        dispatched(st, v, objects).refs == st.refs,
{
    let packet = object_addresses(objects);
    let after = dispatched(st, v, objects);
    lemma_times_flatten_push(parked_values(st), packet, a);
    lemma_times_flatten_push(st.concurrent, packet, a);
    lemma_times_flatten_push(st.closure, packet, a);
    if v.concurrent_marking_active && v.sliced_marking {
        assert(parked_values(after) =~= parked_values(st).push(packet));
    } else {
        assert(parked_values(after) =~= parked_values(st));
    }
}

/// While the marker wants to know of overwritten values, handing them on loses none and adds none,
/// and the buffer is empty afterwards.
pub proof fn law_flush_loses_no_value(st: SnapshotState, v: BactrianView, a: usize)
    requires
        v.concurrent_marking_active || v.current_pause == Some(Pause::FinalMark),
    ensures
        kept_times(satb_flushed(st, v), a) == kept_times(st, a),
        satb_flushed(st, v).satb.len() == 0,
        satb_flushed(st, v).refs == st.refs,
        kept_times(refs_flushed(st, v), a) == kept_times(st, a),
        refs_flushed(st, v).refs.len() == 0,
        refs_flushed(st, v).satb == st.satb,
{
    lemma_times_empty::<usize>(a);
    assert(object_addresses(Seq::empty()) =~= Seq::empty());
    if st.satb.len() == 0 {
        assert(object_addresses(st.satb) =~= Seq::empty());
    }
    if st.refs.len() == 0 {
        assert(object_addresses(st.refs) =~= Seq::empty());
    }
    assert(parked_values(SnapshotState { satb: Seq::empty(), ..st }) =~= parked_values(st));
    assert(parked_values(SnapshotState { refs: Seq::empty(), ..st }) =~= parked_values(st));
    lemma_dispatched(SnapshotState { satb: Seq::empty(), ..st }, v, st.satb, a);
    lemma_dispatched(SnapshotState { refs: Seq::empty(), ..st }, v, st.refs, a);
}

/// Where overwritten values go when they are handed on: to the packets that the plan parks, where
/// marking happens in slices; to the bucket beside the mutators, where it does not; and to the
/// closure of the pause, in the last pause of a cycle. Without a cycle they are dropped.
pub proof fn law_values_go_to_the_marker(st: SnapshotState, v: BactrianView)
    requires
        st.satb.len() > 0,
    ensures
        ({
            let after = satb_flushed(st, v);
            let packet = st.satb.map_values(|o: ObjectReference| o.0.0);
            &&& v.concurrent_marking_active && v.sliced_marking ==> after.parked == st.parked.push(
                (true, packet),
            ) && after.concurrent == st.concurrent && after.closure == st.closure
            &&& v.concurrent_marking_active && !v.sliced_marking ==> after.concurrent
                == st.concurrent.push(packet) && after.parked == st.parked && after.closure
                == st.closure
            &&& !v.concurrent_marking_active && v.current_pause == Some(Pause::FinalMark)
                ==> after.closure == st.closure.push(packet) && after.parked == st.parked
                && after.concurrent == st.concurrent
            &&& !v.concurrent_marking_active && v.current_pause != Some(Pause::FinalMark)
                ==> after.closure == st.closure && after.parked == st.parked && after.concurrent
                == st.concurrent
            &&& after.satb.len() == 0
            &&& after.enqueued == st.enqueued
            &&& after.dropped == st.dropped
        }),
{
    assert(object_addresses(st.satb) =~= st.satb.map_values(|o: ObjectReference| o.0.0));
}

/// The overwritten value of one slot.
proof fn lemma_slot_kept(
    st: SnapshotState,
    v: BactrianView,
    m: MetadataView,
    objects: ObjectModel,
    slot: Slot,
    a: usize,
)
    requires
        v.concurrent_marking_active || v.current_pause == Some(Pause::FinalMark),
    ensures
        ({
            let after = slot_kept(st, v, m, objects, slot);
            let kept = objects.target(slot) matches Some(old) && !v.young(m, old.0.0);
            let young = objects.target(slot) matches Some(old) && v.young(m, old.0.0);
            &&& kept_times(after, a) == kept_times(st, a) + (if kept && objects.target(
                slot,
            ) == Some(ObjectReference(Address(a))) {
                1nat
            } else {
                0nat
            })
            &&& after.refs == st.refs
            &&& after.enqueued == if kept {
                st.enqueued.wrapping_add(1)
            } else {
                st.enqueued
            }
            &&& after.dropped == if young {
                st.dropped.wrapping_add(1)
            } else {
                st.dropped
            }
        }),
{
    if let Some(old) = objects.target(slot) {
        if v.young(m, old.0.0) {
            let after = slot_kept(st, v, m, objects, slot);
            assert(parked_values(after) =~= parked_values(st));
        } else {
            let kept = SnapshotState {
                satb: st.satb.push(old),
                enqueued: st.enqueued.wrapping_add(1),
                ..st
            };
            assert(object_addresses(kept.satb) =~= object_addresses(st.satb).push(old.0.0));
            lemma_times_push(object_addresses(st.satb), old.0.0, a);
            assert(parked_values(kept) =~= parked_values(st));
            law_flush_loses_no_value(kept, v, a);
        }
    }
}

/// While a cycle is in progress, each mature object that the written slots refer to is kept for the
/// marker or handed on to it, once for each slot, whatever else is kept; what was kept before
/// still is, and nothing else is added. As many values are counted.
pub proof fn law_every_overwritten_value_is_kept(
    st: SnapshotState,
    v: BactrianView,
    m: MetadataView,
    objects: ObjectModel,
    slots: Seq<Slot>,
    a: usize,
)
    requires
        v.concurrent_marking_active || v.current_pause == Some(Pause::FinalMark),
    ensures
        ({
            let after = slots_kept(st, v, m, objects, slots);
            let added = mature_targets(v, m, objects, slots);
            &&& kept_times(after, a) == kept_times(st, a) + times(added, a)
            &&& after.refs == st.refs
            &&& st.enqueued + added.len() <= usize::MAX ==> after.enqueued == st.enqueued
                + added.len()
            &&& forall|i: int|
                0 <= i < slots.len() && (objects.target(#[trigger] slots[i]) matches Some(old)
                    && !v.young(m, old.0.0) && old.0.0 == a) ==> kept_times(after, a) > kept_times(
                    st,
                    a,
                )
        }),
    decreases slots.len(),
{
    let added = mature_targets(v, m, objects, slots);
    if slots.len() == 0 {
        lemma_times_empty::<usize>(a);
        assert(added =~= Seq::empty());
    } else {
        let less = slots.drop_last();
        let slot = slots.last();
        law_every_overwritten_value_is_kept(st, v, m, objects, less, a);
        let before = slots_kept(st, v, m, objects, less);
        lemma_slot_kept(before, v, m, objects, slot, a);
        let added_before = mature_targets(v, m, objects, less);
        match objects.target(slot) {
            Some(old) => {
                if !v.young(m, old.0.0) {
                    assert(added =~= added_before.push(old.0.0));
                    lemma_times_push(added_before, old.0.0, a);
                } else {
                    assert(added =~= added_before);
                }
            },
            None => {
                assert(added =~= added_before);
            },
        }
        assert forall|i: int|
            0 <= i < slots.len() && (objects.target(#[trigger] slots[i]) matches Some(old)
                && !v.young(m, old.0.0) && old.0.0 == a) implies kept_times(
            slots_kept(st, v, m, objects, slots),
            a,
        ) > kept_times(st, a) by {
            if i < less.len() {
                assert(less[i] == slots[i]);
            }
        }
    }
}

/// An object that is loaded from a weak reference while a cycle is in progress is kept for the
/// marker, unless it is young; otherwise nothing changes.
pub proof fn law_weak_load_is_kept(
    enabled: bool,
    st: SnapshotState,
    v: BactrianView,
    m: MetadataView,
    object: ObjectReference,
    a: usize,
)
    ensures
        ({
            let after = weak_loaded(enabled, st, v, m, object);
            let keeps = enabled && v.concurrent_marking_active && !v.young(m, object.0.0);
            &&& keeps ==> kept_times(after, a) == kept_times(st, a) + (if object.0.0 == a {
                1nat
            } else {
                0nat
            })
            &&& keeps ==> after.satb == st.satb && after.enqueued == st.enqueued
            &&& !keeps ==> after == st
        }),
{
    if enabled && v.concurrent_marking_active && !v.young(m, object.0.0) {
        let kept = SnapshotState { refs: st.refs.push(object), ..st };
        assert(object_addresses(kept.refs) =~= object_addresses(st.refs).push(object.0.0));
        lemma_times_push(object_addresses(st.refs), object.0.0, a);
        assert(parked_values(kept) =~= parked_values(st));
        law_flush_loses_no_value(kept, v, a);
    }
}

/// An object is young while it is in the nursery or in a space of aged objects, or as a large object
/// that has not survived a collection. Everything else is mature.
pub proof fn law_young_objects(v: BactrianView, m: MetadataView, address: usize)
    ensures
        v.young(m, address) == match m.space_of(address as int) {
            SpaceKind::Nursery | SpaceKind::Aged0 | SpaceKind::Aged1 => true,
            SpaceKind::LargeObject => v.common.young.contains(address),
            _ => false,
        },
{
}

/// How often the barrier remembers a write to an object, or has handed it on.
pub open spec fn remembered_times(st: RememberState, object: ObjectReference) -> nat {
    times(st.modbuf, object) + times(st.object_packets.flatten(), object)
}

/// How often the barrier remembers a write to a region, or has handed it on.
pub open spec fn region_times(st: RememberState, region: MemorySlice) -> nat {
    times(st.regions, region) + times(st.region_packets.flatten(), region)
}

/// Handing remembered writes on loses none, and leaves the buffers empty.
pub proof fn law_flush_loses_no_write(
    st: RememberState,
    object: ObjectReference,
    region: MemorySlice,
)
    ensures
        remembered_times(modbuf_flushed(st), object) == remembered_times(st, object),
        region_times(modbuf_flushed(st), region) == region_times(st, region),
        modbuf_flushed(st).modbuf.len() == 0,
        modbuf_flushed(st).m == st.m,
        remembered_times(regions_flushed(st), object) == remembered_times(st, object),
        region_times(regions_flushed(st), region) == region_times(st, region),
        regions_flushed(st).regions.len() == 0,
        regions_flushed(st).m == st.m,
{
    lemma_times_empty::<ObjectReference>(object);
    lemma_times_empty::<MemorySlice>(region);
    lemma_times_flatten_push(st.object_packets, st.modbuf, object);
    lemma_times_flatten_push(st.region_packets, st.regions, region);
    if st.modbuf.len() == 0 {
        assert(st.modbuf =~= Seq::empty());
    }
    if st.regions.len() == 0 {
        assert(st.regions =~= Seq::empty());
    }
}

/// The first write to an unlogged object is remembered, exactly once, and logs the object and no
/// other; a write to a logged one changes nothing.
pub proof fn law_write_is_remembered(st: RememberState, src: ObjectReference, object: ObjectReference)
    requires
        st.m.wf(),
        st.m.in_heap(src.addr()),
    ensures
        ({
            let after = object_remembered(st, src);
            let cell = st.m.cell(src.addr());
            let unlogged = st.m.log_bit[cell] != 0;
            &&& remembered_times(after, object) == remembered_times(st, object) + (if unlogged
                && object == src {
                1nat
            } else {
                0nat
            })
            &&& after.m.log_bit == st.m.log_bit.update(cell, 0)
            &&& after.m == (MetadataView { log_bit: after.m.log_bit, ..st.m })
            &&& after.regions == st.regions
            &&& after.region_packets == st.region_packets
        }),
{
    let cell = st.m.cell(src.addr());
    if st.m.log_bit[cell] != 0 {
        let logged = RememberState {
            m: MetadataView { log_bit: st.m.log_bit.update(cell, 0), ..st.m },
            modbuf: st.modbuf.push(src),
            ..st
        };
        lemma_times_push(st.modbuf, src, object);
        lemma_times_empty::<ObjectReference>(object);
        lemma_times_flatten_push(logged.object_packets, logged.modbuf, object);
    } else {
        assert(st.m.log_bit.update(cell, 0) =~= st.m.log_bit);
    }
}

/// A write to a region is remembered, unless the object that it belongs to is young, or the region
/// itself lies in a space that is emptied.
pub proof fn law_region_write_is_remembered(
    st: RememberState,
    v: BactrianView,
    m: MetadataView,
    dst: MemorySlice,
    region: MemorySlice,
)
    ensures
        ({
            let after = region_remembered(st, v, m, dst);
            let young = match dst.object {
                Some(object) => v.young(m, object.0.0),
                None => match m.space_of(dst.start.0 as int) {
                    SpaceKind::Nursery | SpaceKind::Aged0 | SpaceKind::Aged1 => true,
                    _ => false,
                },
            };
            &&& region_times(after, region) == region_times(st, region) + (if !young && region
                == dst {
                1nat
            } else {
                0nat
            })
            &&& after.m == st.m
            &&& after.modbuf == st.modbuf
            &&& after.object_packets == st.object_packets
        }),
{
    let pushed = RememberState { regions: st.regions.push(dst), ..st };
    lemma_times_push(st.regions, dst, region);
    lemma_times_empty::<MemorySlice>(region);
    lemma_times_flatten_push(pushed.region_packets, pushed.regions, region);
}

} // verus!
