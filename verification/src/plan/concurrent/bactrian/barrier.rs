//! The write barrier of the plan.
//!
//! It has two halves. Before a write, while a cycle is in progress, the snapshot half keeps the
//! value that is overwritten, so that the marker sees it. Young values are left out: they are
//! younger than the snapshot, and move in every pause. After a write, the generational half
//! remembers the mature object or the region that was written to, so that the next pause finds
//! references into the nursery.

use crate::plan::concurrent::bactrian::global::{copied_young, Bactrian, BactrianView};
use crate::plan::concurrent::global::ConcurrentPlan;
use crate::plan::concurrent::Pause;
use crate::plan::vector_queue::{VectorQueue, VECTOR_QUEUE_CAPACITY};
use crate::util::address::{Address, ObjectReference};
use crate::util::log_bit::{LOGGED_VALUE, UNLOGGED_VALUE};
use crate::util::metadata::{HeapMetadata, MetadataView};
use crate::util::vm::{ObjectModel, Slot};
use vstd::prelude::*;

verus! {

/// A run of slots.
pub struct MemorySlice {
    /// The object that they belong to, if it is known.
    pub object: Option<ObjectReference>,
    /// The first address.
    pub start: Address,
    /// The slots.
    pub slots: Vec<Slot>,
}

/// The addresses of objects.
pub open spec fn object_addresses(objects: Seq<ObjectReference>) -> Seq<usize> {
    objects.map_values(|o: ObjectReference| o.0.0)
}

/// The addresses of objects.
pub fn addresses(objects: &Vec<ObjectReference>) -> (result: Vec<usize>)
    ensures
        result@ == object_addresses(objects@),
{
    let mut result: Vec<usize> = Vec::new();
    let mut i: usize = 0;
    while i < objects.len()
        invariant
            i <= objects@.len(),
            result@ == object_addresses(objects@.subrange(0, i as int)),
        decreases objects@.len() - i,
    {
        result.push(objects[i].0.0);
        assert(objects@.subrange(0, i + 1) =~= objects@.subrange(0, i as int).push(
            objects@[i as int],
        ));
        i += 1;
        assert(result@ =~= object_addresses(objects@.subrange(0, i as int)));
    }
    assert(objects@.subrange(0, objects@.len() as int) =~= objects@);
    result
}

/// What the snapshot half works on.
#[verifier::ext_equal]
pub ghost struct SnapshotState {
    /// Overwritten values.
    pub satb: Seq<ObjectReference>,
    /// Objects that were loaded from weak references.
    pub refs: Seq<ObjectReference>,
    /// The marking packets that the plan has parked.
    pub parked: Seq<(bool, Seq<usize>)>,
    /// The packets for the bucket of work beside the mutators.
    pub concurrent: Seq<Seq<usize>>,
    /// The packets for the closure of the pause in progress.
    pub closure: Seq<Seq<usize>>,
    /// How many values were kept.
    pub enqueued: usize,
    /// How many values were left out as young.
    pub dropped: usize,
}

/// A packet of objects for the marker was handed on.
pub open spec fn dispatched(
    st: SnapshotState,
    v: BactrianView,
    objects: Seq<ObjectReference>,
) -> SnapshotState {
    let packet = object_addresses(objects);
    SnapshotState {
        parked: if v.concurrent_marking_active && v.sliced_marking {
            st.parked.push((true, packet))
        } else {
            st.parked
        },
        concurrent: if v.concurrent_marking_active && !v.sliced_marking {
            st.concurrent.push(packet)
        } else {
            st.concurrent
        },
        closure: if v.concurrent_marking_active {
            st.closure
        } else {
            st.closure.push(packet)
        },
        ..st
    }
}

/// The marker wants to know of overwritten values: a cycle is in progress, or in its last pause.
pub open spec fn snapshot_wanted(v: BactrianView) -> bool {
    v.concurrent_marking_active || v.current_pause == Some(Pause::FinalMark)
}

/// After the overwritten values were handed on, or dropped if the marker does not want them.
pub open spec fn satb_flushed(st: SnapshotState, v: BactrianView) -> SnapshotState {
    if st.satb.len() > 0 && snapshot_wanted(v) {
        dispatched(SnapshotState { satb: Seq::empty(), ..st }, v, st.satb)
    } else {
        SnapshotState { satb: Seq::empty(), ..st }
    }
}

/// After the objects that were loaded from weak references were handed on, or dropped if the
/// marker does not want them.
pub open spec fn refs_flushed(st: SnapshotState, v: BactrianView) -> SnapshotState {
    if st.refs.len() > 0 && snapshot_wanted(v) {
        dispatched(SnapshotState { refs: Seq::empty(), ..st }, v, st.refs)
    } else {
        SnapshotState { refs: Seq::empty(), ..st }
    }
}

/// After an overwritten value was added.
pub open spec fn satb_pushed(st: SnapshotState, v: BactrianView, old: ObjectReference) -> SnapshotState {
    let kept = SnapshotState {
        satb: st.satb.push(old),
        enqueued: st.enqueued.wrapping_add(1),
        ..st
    };
    if kept.satb.len() >= VECTOR_QUEUE_CAPACITY {
        satb_flushed(kept, v)
    } else {
        kept
    }
}

/// After an overwritten value was kept, unless it is young.
pub open spec fn satb_enqueued(
    st: SnapshotState,
    v: BactrianView,
    m: MetadataView,
    old: ObjectReference,
) -> SnapshotState {
    if v.young(m, old.0.0) {
        SnapshotState { dropped: st.dropped.wrapping_add(1), ..st }
    } else {
        satb_pushed(st, v, old)
    }
}

/// After what a slot refers to was kept, if it refers to anything.
pub open spec fn slot_kept(
    st: SnapshotState,
    v: BactrianView,
    m: MetadataView,
    objects: ObjectModel,
    slot: Slot,
) -> SnapshotState {
    match objects.target(slot) {
        Some(old) => satb_enqueued(st, v, m, old),
        None => st,
    }
}

/// After what the given slots refer to was kept.
pub open spec fn slots_kept(
    st: SnapshotState,
    v: BactrianView,
    m: MetadataView,
    objects: ObjectModel,
    slots: Seq<Slot>,
) -> SnapshotState
    decreases slots.len(),
{
    if slots.len() == 0 {
        st
    } else {
        slot_kept(slots_kept(st, v, m, objects, slots.drop_last()), v, m, objects, slots.last())
    }
}

/// What the generational half works on.
#[verifier::ext_equal]
pub ghost struct RememberState {
    /// The tables.
    pub m: MetadataView,
    /// The remembered objects.
    pub modbuf: Seq<ObjectReference>,
    /// The remembered regions.
    pub regions: Seq<MemorySlice>,
    /// The packets of objects for the closure of the next pause.
    pub object_packets: Seq<Seq<ObjectReference>>,
    /// The packets of regions for the closure of the next pause.
    pub region_packets: Seq<Seq<MemorySlice>>,
}

/// After the remembered objects were handed on.
pub open spec fn modbuf_flushed(st: RememberState) -> RememberState {
    RememberState {
        modbuf: Seq::empty(),
        object_packets: if st.modbuf.len() > 0 {
            st.object_packets.push(st.modbuf)
        } else {
            st.object_packets
        },
        ..st
    }
}

/// After the remembered regions were handed on.
pub open spec fn regions_flushed(st: RememberState) -> RememberState {
    RememberState {
        regions: Seq::empty(),
        region_packets: if st.regions.len() > 0 {
            st.region_packets.push(st.regions)
        } else {
            st.region_packets
        },
        ..st
    }
}

/// The object is unlogged: a write to it must be remembered.
pub open spec fn is_unlogged(m: MetadataView, object: ObjectReference) -> bool {
    m.log_bit[m.cell(object.addr())] != LOGGED_VALUE
}

/// The tables after an object was logged.
pub open spec fn object_logged(m: MetadataView, object: ObjectReference) -> MetadataView {
    MetadataView { log_bit: m.log_bit.update(m.cell(object.addr()), LOGGED_VALUE), ..m }
}

/// After a write to an object was remembered, if the object was unlogged.
pub open spec fn object_remembered(st: RememberState, object: ObjectReference) -> RememberState {
    if is_unlogged(st.m, object) {
        let logged = RememberState {
            m: object_logged(st.m, object),
            modbuf: st.modbuf.push(object),
            ..st
        };
        if logged.modbuf.len() >= VECTOR_QUEUE_CAPACITY {
            modbuf_flushed(logged)
        } else {
            logged
        }
    } else {
        st
    }
}

/// The region is part of the nursery.
pub open spec fn region_young(v: BactrianView, m: MetadataView, region: MemorySlice) -> bool {
    match region.object {
        Some(object) => v.young(m, object.0.0),
        None => copied_young(m.space_of(region.start.0 as int)),
    }
}

/// After a write to a region was remembered, unless the region is part of the nursery.
pub open spec fn region_remembered(
    st: RememberState,
    v: BactrianView,
    m: MetadataView,
    region: MemorySlice,
) -> RememberState {
    if region_young(v, m, region) {
        st
    } else {
        let pushed = RememberState { regions: st.regions.push(region), ..st };
        if pushed.regions.len() >= VECTOR_QUEUE_CAPACITY {
            regions_flushed(pushed)
        } else {
            pushed
        }
    }
}

/// No young object is kept.
pub open spec fn keeps_no_young(st: SnapshotState, v: BactrianView, m: MetadataView) -> bool {
    &&& forall|i: int| 0 <= i < st.satb.len() ==> !v.young(m, (#[trigger] st.satb[i]).0.0)
    &&& forall|i: int| 0 <= i < st.refs.len() ==> !v.young(m, (#[trigger] st.refs[i]).0.0)
    &&& forall|i: int| 0 <= i < st.parked.len() ==> mature_packet(v, m, (#[trigger] st.parked[i]).1)
    &&& forall|i: int|
        0 <= i < st.concurrent.len() ==> mature_packet(v, m, #[trigger] st.concurrent[i])
    &&& forall|i: int| 0 <= i < st.closure.len() ==> mature_packet(v, m, #[trigger] st.closure[i])
}

/// No object of a packet is young.
pub open spec fn mature_packet(v: BactrianView, m: MetadataView, packet: Seq<usize>) -> bool {
    forall|i: int| 0 <= i < packet.len() ==> !v.young(m, #[trigger] packet[i])
}

/// The marker never gets to see a young object: neither a value that is kept, nor a packet that is
/// handed on, holds one.
pub proof fn law_marker_sees_no_young_object(
    st: SnapshotState,
    v: BactrianView,
    m: MetadataView,
    objects: ObjectModel,
    slots: Seq<Slot>,
)
    requires
        keeps_no_young(st, v, m),
    ensures
        keeps_no_young(slots_kept(st, v, m, objects, slots), v, m),
        keeps_no_young(satb_flushed(st, v), v, m),
        keeps_no_young(refs_flushed(st, v), v, m),
    decreases slots.len(),
{
    if slots.len() > 0 {
        law_marker_sees_no_young_object(st, v, m, objects, slots.drop_last());
        let before = slots_kept(st, v, m, objects, slots.drop_last());
        if let Some(old) = objects.target(slots.last()) {
            let kept = SnapshotState {
                satb: before.satb.push(old),
                enqueued: before.enqueued.wrapping_add(1),
                ..before
            };
            if !v.young(m, old.0.0) {
                assert(keeps_no_young(kept, v, m));
                lemma_flush_keeps_no_young(kept, v, m);
            }
        }
    }
    lemma_flush_keeps_no_young(st, v, m);
}

/// Handing on what is kept shows no young object to the marker.
proof fn lemma_flush_keeps_no_young(st: SnapshotState, v: BactrianView, m: MetadataView)
    requires
        keeps_no_young(st, v, m),
    ensures
        keeps_no_young(satb_flushed(st, v), v, m),
        keeps_no_young(refs_flushed(st, v), v, m),
{
    assert(mature_packet(v, m, object_addresses(st.satb)));
    assert(mature_packet(v, m, object_addresses(st.refs)));
}

/// The object is kept, or was handed on in a packet.
pub open spec fn is_kept(st: SnapshotState, object: ObjectReference) -> bool {
    ||| st.satb.contains(object)
    ||| exists|i: int| 0 <= i < st.parked.len() && (#[trigger] st.parked[i]).1.contains(object.0.0)
    ||| exists|i: int|
        0 <= i < st.concurrent.len() && (#[trigger] st.concurrent[i]).contains(object.0.0)
    ||| exists|i: int|
        0 <= i < st.closure.len() && (#[trigger] st.closure[i]).contains(object.0.0)
}

/// While a cycle is in progress, the mature value that a write overwrites is kept for the marker,
/// or handed on to it.
pub proof fn law_overwritten_value_is_kept(
    st: SnapshotState,
    v: BactrianView,
    m: MetadataView,
    objects: ObjectModel,
    slot: Slot,
)
    requires
        snapshot_wanted(v),
        objects.target(slot) matches Some(old) && !v.young(m, old.0.0),
    ensures
        is_kept(slot_kept(st, v, m, objects, slot), objects.target(slot)->0),
{
    let old = objects.target(slot)->0;
    let kept = SnapshotState {
        satb: st.satb.push(old),
        enqueued: st.enqueued.wrapping_add(1),
        ..st
    };
    let n = kept.satb.len() - 1;
    assert(kept.satb[n] == old);
    let packet = object_addresses(kept.satb);
    assert(packet[n] == old.0.0);
    assert(packet.contains(old.0.0));
    let flushed = satb_flushed(kept, v);
    if kept.satb.len() >= VECTOR_QUEUE_CAPACITY {
        if v.concurrent_marking_active && v.sliced_marking {
            assert(flushed.parked[flushed.parked.len() - 1].1 == packet);
        } else if v.concurrent_marking_active {
            assert(flushed.concurrent[flushed.concurrent.len() - 1] == packet);
        } else {
            assert(flushed.closure[flushed.closure.len() - 1] == packet);
        }
    }
}

/// A write to an object is remembered once until the object is unlogged again.
pub proof fn law_object_is_remembered_once(st: RememberState, object: ObjectReference)
    requires
        st.m.wf(),
        st.m.in_heap(object.addr()),
    ensures
        object_remembered(object_remembered(st, object), object) == object_remembered(st, object),
{
    assert(!is_unlogged(object_remembered(st, object).m, object));
}

/// Packets of addresses as the contracts speak of them.
pub open spec fn address_packets(packets: Seq<Vec<usize>>) -> Seq<Seq<usize>> {
    packets.map_values(|packet: Vec<usize>| packet@)
}

/// Packets of objects as the contracts speak of them.
pub open spec fn object_packets(packets: Seq<Vec<ObjectReference>>) -> Seq<Seq<ObjectReference>> {
    packets.map_values(|packet: Vec<ObjectReference>| packet@)
}

/// Packets of regions as the contracts speak of them.
pub open spec fn region_packets(packets: Seq<Vec<MemorySlice>>) -> Seq<Seq<MemorySlice>> {
    packets.map_values(|packet: Vec<MemorySlice>| packet@)
}

/// The plan with other parked marking packets.
pub open spec fn with_parked(v: BactrianView, parked: Seq<(bool, Seq<usize>)>) -> BactrianView {
    BactrianView { parked_marking: parked, ..v }
}

/// The packets that a barrier has handed on.
pub struct BarrierPackets {
    /// For the closure of the next pause: objects that were written to.
    pub objects: Vec<Vec<ObjectReference>>,
    /// For the closure of the next pause: regions that were written to.
    pub regions: Vec<Vec<MemorySlice>>,
    /// For the bucket of work beside the mutators: addresses of objects to mark.
    pub concurrent: Vec<Vec<usize>>,
    /// For the closure of the pause in progress: addresses of objects to mark.
    pub closure: Vec<Vec<usize>>,
}

/// The write barrier of a mutator.
pub struct BactrianBarrier {
    satb_enabled: bool,
    modbuf: VectorQueue<ObjectReference>,
    region_modbuf: VectorQueue<MemorySlice>,
    satb: VectorQueue<ObjectReference>,
    refs: VectorQueue<ObjectReference>,
    packets: BarrierPackets,
    enqueued: usize,
    dropped: usize,
}

impl BactrianBarrier {
    /// The snapshot half is on.
    pub closed spec fn enabled(self) -> bool {
        self.satb_enabled
    }

    /// The state of the snapshot half.
    pub closed spec fn snapshot(self, parked: Seq<(bool, Seq<usize>)>) -> SnapshotState {
        SnapshotState {
            satb: self.satb@,
            refs: self.refs@,
            parked,
            concurrent: address_packets(self.packets.concurrent@),
            closure: address_packets(self.packets.closure@),
            enqueued: self.enqueued,
            dropped: self.dropped,
        }
    }

    /// The state of the generational half.
    pub closed spec fn remembers(self, m: MetadataView) -> RememberState {
        RememberState {
            m,
            modbuf: self.modbuf@,
            regions: self.region_modbuf@,
            object_packets: object_packets(self.packets.objects@),
            region_packets: region_packets(self.packets.regions@),
        }
    }

    /// The generational half is as in `other`, and the snapshot half is on iff it is there.
    pub open spec fn same_generational(self, other: BactrianBarrier) -> bool {
        &&& self.enabled() == other.enabled()
        &&& forall|m: MetadataView| #[trigger] self.remembers(m) == other.remembers(m)
    }

    /// The snapshot half is as in `other`.
    pub open spec fn same_snapshot(self, other: BactrianBarrier) -> bool {
        &&& self.enabled() == other.enabled()
        &&& forall|parked: Seq<(bool, Seq<usize>)>| #[trigger]
            self.snapshot(parked) == other.snapshot(parked)
    }

    /// A barrier with empty buffers. The snapshot half is off.
    pub fn new() -> (barrier: Self)
        ensures
            !barrier.enabled(),
            forall|parked: Seq<(bool, Seq<usize>)>| #[trigger]
                barrier.snapshot(parked) == (SnapshotState {
                    satb: Seq::empty(),
                    refs: Seq::empty(),
                    parked,
                    concurrent: Seq::empty(),
                    closure: Seq::empty(),
                    enqueued: 0,
                    dropped: 0,
                }),
            forall|m: MetadataView| #[trigger]
                barrier.remembers(m) == (RememberState {
                    m,
                    modbuf: Seq::empty(),
                    regions: Seq::empty(),
                    object_packets: Seq::empty(),
                    region_packets: Seq::empty(),
                }),
    {
        let barrier = BactrianBarrier {
            satb_enabled: false,
            modbuf: VectorQueue::new(),
            region_modbuf: VectorQueue::new(),
            satb: VectorQueue::new(),
            refs: VectorQueue::new(),
            packets: BarrierPackets {
                objects: Vec::new(),
                regions: Vec::new(),
                concurrent: Vec::new(),
                closure: Vec::new(),
            },
            enqueued: 0,
            dropped: 0,
        };
        assert(address_packets(barrier.packets.concurrent@) =~= Seq::empty());
        assert(address_packets(barrier.packets.closure@) =~= Seq::empty());
        assert(object_packets(barrier.packets.objects@) =~= Seq::empty());
        assert(region_packets(barrier.packets.regions@) =~= Seq::empty());
        barrier
    }

    /// Switches the snapshot half on or off.
    pub fn set_satb_enabled(&mut self, value: bool)
        ensures
            final(self).enabled() == value,
            forall|parked: Seq<(bool, Seq<usize>)>| #[trigger]
                final(self).snapshot(parked) == old(self).snapshot(parked),
            forall|m: MetadataView| #[trigger] final(self).remembers(m) == old(self).remembers(m),
    {
        self.satb_enabled = value;
    }

    /// How many overwritten values were kept.
    pub fn satb_count(&self) -> (count: usize)
        ensures
            forall|parked: Seq<(bool, Seq<usize>)>|
                count == (#[trigger] self.snapshot(parked)).enqueued,
    {
        self.enqueued
    }

    /// Takes the packets that were handed on.
    pub fn take_packets(&mut self) -> (packets: BarrierPackets)
        ensures
            final(self).enabled() == old(self).enabled(),
            forall|parked: Seq<(bool, Seq<usize>)>| #[trigger]
                final(self).snapshot(parked) == (SnapshotState {
                    concurrent: Seq::empty(),
                    closure: Seq::empty(),
                    ..old(self).snapshot(parked)
                }),
            forall|m: MetadataView| #[trigger]
                final(self).remembers(m) == (RememberState {
                    object_packets: Seq::empty(),
                    region_packets: Seq::empty(),
                    ..old(self).remembers(m)
                }),
            forall|parked: Seq<(bool, Seq<usize>)>|
                address_packets(packets.concurrent@) == (#[trigger] old(self).snapshot(
                    parked,
                )).concurrent && address_packets(packets.closure@) == old(self).snapshot(
                    parked,
                ).closure,
            forall|m: MetadataView|
                object_packets(packets.objects@) == (#[trigger] old(self).remembers(
                    m,
                )).object_packets && region_packets(packets.regions@) == old(self).remembers(
                    m,
                ).region_packets,
    {
        let mut packets: BarrierPackets = BarrierPackets {
            objects: Vec::new(),
            regions: Vec::new(),
            concurrent: Vec::new(),
            closure: Vec::new(),
        };
        std::mem::swap(&mut packets, &mut self.packets);
        assert(address_packets(self.packets.concurrent@) =~= Seq::empty());
        assert(address_packets(self.packets.closure@) =~= Seq::empty());
        assert(object_packets(self.packets.objects@) =~= Seq::empty());
        assert(region_packets(self.packets.regions@) =~= Seq::empty());
        packets
    }

    /// Hands the remembered objects on.
    fn flush_modbuf(&mut self)
        ensures
            final(self).same_snapshot(*old(self)),
            forall|m: MetadataView| #[trigger]
                final(self).remembers(m) == modbuf_flushed(old(self).remembers(m)),
    {
        let ghost before: Seq<Seq<ObjectReference>> = object_packets(self.packets.objects@);
        let buf: Vec<ObjectReference> = self.modbuf.take();
        if buf.len() > 0 {
            let ghost items: Seq<ObjectReference> = buf@;
            self.packets.objects.push(buf);
            assert(object_packets(self.packets.objects@) =~= before.push(items));
        }
    }

    /// Hands the remembered regions on.
    fn flush_region_modbuf(&mut self)
        ensures
            final(self).same_snapshot(*old(self)),
            forall|m: MetadataView| #[trigger]
                final(self).remembers(m) == regions_flushed(old(self).remembers(m)),
    {
        let ghost before: Seq<Seq<MemorySlice>> = region_packets(self.packets.regions@);
        let buf: Vec<MemorySlice> = self.region_modbuf.take();
        if buf.len() > 0 {
            let ghost items: Seq<MemorySlice> = buf@;
            self.packets.regions.push(buf);
            assert(region_packets(self.packets.regions@) =~= before.push(items));
        }
    }

    /// Whether an object is unlogged.
    fn object_is_unlogged(&self, meta: &HeapMetadata, object: ObjectReference) -> (unlogged: bool)
        requires
            meta.wf(),
            meta@.in_heap(object.addr()),
        ensures
            unlogged == is_unlogged(meta@, object),
    {
        meta.log_bit.load(meta.cell(object.0)) != LOGGED_VALUE
    }

    /// Logs an object. Returns true iff it was unlogged before.
    fn log_object(&self, meta: &mut HeapMetadata, object: ObjectReference) -> (logged: bool)
        requires
            old(meta).wf(),
            old(meta)@.in_heap(object.addr()),
            old(meta)@.log_bit[old(meta)@.cell(object.addr())] <= 1,
        ensures
            final(meta).wf(),
            logged == is_unlogged(old(meta)@, object),
            final(meta)@ == if logged {
                object_logged(old(meta)@, object)
            } else {
                old(meta)@
            },
    {
        let index: usize = meta.cell(object.0);
        let old_value: u8 = meta.log_bit.load(index);
        if old_value == LOGGED_VALUE {
            return false;
        }
        meta.log_bit.compare_exchange(index, UNLOGGED_VALUE, LOGGED_VALUE).is_ok()
    }

    /// Remembers a write to an object, unless the object is logged.
    fn remember(&mut self, meta: &mut HeapMetadata, object: ObjectReference)
        requires
            old(meta).wf(),
            old(meta)@.in_heap(object.addr()),
            old(meta)@.log_bit[old(meta)@.cell(object.addr())] <= 1,
        ensures
            final(meta).wf(),
            final(self).same_snapshot(*old(self)),
            final(self).remembers(final(meta)@) == object_remembered(
                old(self).remembers(old(meta)@),
                object,
            ),
    {
        let ghost before: RememberState = self.remembers(meta@);
        if self.log_object(meta, object) {
            self.modbuf.push(object);
            let ghost logged: RememberState = RememberState {
                m: object_logged(before.m, object),
                modbuf: before.modbuf.push(object),
                ..before
            };
            assert(self.remembers(meta@) =~= logged);
            if self.modbuf.is_full() {
                self.flush_modbuf();
            }
        }
    }

    /// Whether the marker wants to know of overwritten values.
    fn should_create_satb_packets(&self, plan: &Bactrian) -> (wanted: bool)
        ensures
            wanted == snapshot_wanted(plan@),
    {
        plan.concurrent_work_in_progress() || match plan.current_pause() {
            Some(pause) => pause == Pause::FinalMark,
            None => false,
        }
    }

    /// Hands a packet of objects on to the marker.
    fn dispatch_satb_packet(&mut self, plan: &mut Bactrian, objects: &Vec<ObjectReference>)
        ensures
            final(self).same_generational(*old(self)),
            final(self).snapshot(final(plan)@.parked_marking) == dispatched(
                old(self).snapshot(old(plan)@.parked_marking),
                old(plan)@,
                objects@,
            ),
            final(plan)@ == with_parked(old(plan)@, final(plan)@.parked_marking),
    {
        let ghost concurrent: Seq<Seq<usize>> = address_packets(self.packets.concurrent@);
        let ghost closure: Seq<Seq<usize>> = address_packets(self.packets.closure@);
        let packet: Vec<usize> = addresses(objects);
        if plan.concurrent_work_in_progress() {
            if let Some(returned) = plan.schedule_marking_packet(true, packet) {
                let ghost items: Seq<usize> = returned.1@;
                self.packets.concurrent.push(returned.1);
                assert(address_packets(self.packets.concurrent@) =~= concurrent.push(items));
            }
        } else {
            let ghost items: Seq<usize> = packet@;
            self.packets.closure.push(packet);
            assert(address_packets(self.packets.closure@) =~= closure.push(items));
        }
    }

    /// Hands the overwritten values on, or drops them if the marker does not want them.
    fn flush_satb(&mut self, plan: &mut Bactrian)
        ensures
            final(self).same_generational(*old(self)),
            final(self).snapshot(final(plan)@.parked_marking) == satb_flushed(
                old(self).snapshot(old(plan)@.parked_marking),
                old(plan)@,
            ),
            final(plan)@ == with_parked(old(plan)@, final(plan)@.parked_marking),
    {
        let ghost before: SnapshotState = self.snapshot(plan@.parked_marking);
        let satb: Vec<ObjectReference> = self.satb.take();
        assert(self.snapshot(plan@.parked_marking) =~= (SnapshotState {
            satb: Seq::empty(),
            ..before
        }));
        if satb.len() > 0 && self.should_create_satb_packets(plan) {
            self.dispatch_satb_packet(plan, &satb);
        }
    }

    /// Hands the objects that were loaded from weak references on, or drops them if the marker
    /// does not want them.
    fn flush_weak_refs(&mut self, plan: &mut Bactrian)
        ensures
            final(self).same_generational(*old(self)),
            final(self).snapshot(final(plan)@.parked_marking) == refs_flushed(
                old(self).snapshot(old(plan)@.parked_marking),
                old(plan)@,
            ),
            final(plan)@ == with_parked(old(plan)@, final(plan)@.parked_marking),
    {
        let ghost before: SnapshotState = self.snapshot(plan@.parked_marking);
        let refs: Vec<ObjectReference> = self.refs.take();
        assert(self.snapshot(plan@.parked_marking) =~= (SnapshotState {
            refs: Seq::empty(),
            ..before
        }));
        if refs.len() > 0 && self.should_create_satb_packets(plan) {
            self.dispatch_satb_packet(plan, &refs);
        }
    }

    /// Adds an overwritten value.
    fn satb_push(&mut self, plan: &mut Bactrian, old_value: ObjectReference)
        ensures
            final(self).same_generational(*old(self)),
            final(self).snapshot(final(plan)@.parked_marking) == satb_pushed(
                old(self).snapshot(old(plan)@.parked_marking),
                old(plan)@,
                old_value,
            ),
            final(plan)@ == with_parked(old(plan)@, final(plan)@.parked_marking),
    {
        let ghost before: SnapshotState = self.snapshot(plan@.parked_marking);
        self.enqueued = self.enqueued.wrapping_add(1);
        self.satb.push(old_value);
        assert(self.snapshot(plan@.parked_marking) =~= (SnapshotState {
            satb: before.satb.push(old_value),
            enqueued: before.enqueued.wrapping_add(1),
            ..before
        }));
        if self.satb.is_full() {
            self.flush_satb(plan);
        }
    }

    /// Keeps an overwritten value, unless it is young.
    fn satb_enqueue(&mut self, plan: &mut Bactrian, meta: &HeapMetadata, old_value: ObjectReference)
        requires
            meta.wf(),
        ensures
            final(self).same_generational(*old(self)),
            final(self).snapshot(final(plan)@.parked_marking) == satb_enqueued(
                old(self).snapshot(old(plan)@.parked_marking),
                old(plan)@,
                meta@,
                old_value,
            ),
            final(plan)@ == with_parked(old(plan)@, final(plan)@.parked_marking),
    {
        if plan.is_object_in_nursery(meta, old_value) {
            self.dropped = self.dropped.wrapping_add(1);
        } else {
            self.satb_push(plan, old_value);
        }
    }

    /// Keeps what a slot refers to.
    fn keep_slot(
        &mut self,
        plan: &mut Bactrian,
        meta: &HeapMetadata,
        objects: &ObjectModel,
        slot: Slot,
    )
        requires
            meta.wf(),
        ensures
            final(self).same_generational(*old(self)),
            final(self).snapshot(final(plan)@.parked_marking) == slot_kept(
                old(self).snapshot(old(plan)@.parked_marking),
                old(plan)@,
                meta@,
                *objects,
                slot,
            ),
            final(plan)@ == with_parked(old(plan)@, final(plan)@.parked_marking),
    {
        if let Some(old_value) = objects.load(slot) {
            self.satb_enqueue(plan, meta, old_value);
        }
    }

    /// Keeps what slots refer to.
    fn keep_slots(
        &mut self,
        plan: &mut Bactrian,
        meta: &HeapMetadata,
        objects: &ObjectModel,
        slots: &Vec<Slot>,
    )
        requires
            meta.wf(),
        ensures
            final(self).same_generational(*old(self)),
            final(self).snapshot(final(plan)@.parked_marking) == slots_kept(
                old(self).snapshot(old(plan)@.parked_marking),
                old(plan)@,
                meta@,
                *objects,
                slots@,
            ),
            final(plan)@ == with_parked(old(plan)@, final(plan)@.parked_marking),
    {
        let ghost v: BactrianView = plan@;
        let ghost start: SnapshotState = self.snapshot(v.parked_marking);
        let mut i: usize = 0;
        assert(slots@.subrange(0, slots@.len() as int) =~= slots@);
        while i < slots.len()
            invariant
                i <= slots@.len(),
                meta.wf(),
                self.same_generational(*old(self)),
                self.snapshot(plan@.parked_marking) == slots_kept(
                    start,
                    v,
                    meta@,
                    *objects,
                    slots@.subrange(0, i as int),
                ),
                plan@ == with_parked(v, plan@.parked_marking),
            decreases slots@.len() - i,
        {
            let ghost next: Seq<Slot> = slots@.subrange(0, i + 1);
            assert(next.drop_last() =~= slots@.subrange(0, i as int));
            assert(next.last() == slots@[i as int]);
            proof {
                lemma_same_context(
                    self.snapshot(plan@.parked_marking),
                    v,
                    plan@,
                    meta@,
                    *objects,
                    slots@[i as int],
                );
            }
            self.keep_slot(plan, meta, objects, slots[i]);
            i += 1;
        }
    }

    /// Hands all that is buffered on.
    pub fn flush(&mut self, plan: &mut Bactrian)
        ensures
            final(self).enabled() == old(self).enabled(),
            forall|m: MetadataView| #[trigger]
                final(self).remembers(m) == regions_flushed(modbuf_flushed(old(self).remembers(m))),
            final(self).snapshot(final(plan)@.parked_marking) == refs_flushed(
                satb_flushed(old(self).snapshot(old(plan)@.parked_marking), old(plan)@),
                old(plan)@,
            ),
            final(plan)@ == with_parked(old(plan)@, final(plan)@.parked_marking),
    {
        self.flush_modbuf();
        self.flush_region_modbuf();
        self.flush_satb(plan);
        self.flush_weak_refs(plan);
    }

    /// The barrier of a load from a weak reference. While a cycle is in progress, the object is
    /// kept: it may not be part of the snapshot.
    pub fn load_weak_reference(
        &mut self,
        plan: &mut Bactrian,
        meta: &HeapMetadata,
        object: ObjectReference,
    )
        requires
            meta.wf(),
        ensures
            final(self).same_generational(*old(self)),
            final(self).snapshot(final(plan)@.parked_marking) == weak_loaded(
                old(self).enabled(),
                old(self).snapshot(old(plan)@.parked_marking),
                old(plan)@,
                meta@,
                object,
            ),
            final(plan)@ == with_parked(old(plan)@, final(plan)@.parked_marking),
    {
        let ghost before: SnapshotState = self.snapshot(plan@.parked_marking);
        if !self.satb_enabled || !plan.concurrent_work_in_progress() {
            return;
        }
        if plan.is_object_in_nursery(meta, object) {
            return;
        }
        self.refs.push(object);
        assert(self.snapshot(plan@.parked_marking) =~= (SnapshotState {
            refs: before.refs.push(object),
            ..before
        }));
        if self.refs.is_full() {
            self.flush_weak_refs(plan);
        }
    }

    /// The barrier before a write to a slot.
    pub fn object_reference_write_pre(
        &mut self,
        plan: &mut Bactrian,
        meta: &HeapMetadata,
        objects: &ObjectModel,
        slot: Slot,
    )
        requires
            meta.wf(),
        ensures
            final(self).same_generational(*old(self)),
            final(self).snapshot(final(plan)@.parked_marking) == if old(self).enabled() {
                slot_kept(
                    old(self).snapshot(old(plan)@.parked_marking),
                    old(plan)@,
                    meta@,
                    *objects,
                    slot,
                )
            } else {
                old(self).snapshot(old(plan)@.parked_marking)
            },
            final(plan)@ == with_parked(old(plan)@, final(plan)@.parked_marking),
    {
        if self.satb_enabled {
            self.keep_slot(plan, meta, objects, slot);
        }
    }

    /// The barrier after a write to an object.
    pub fn object_reference_write_post(&mut self, meta: &mut HeapMetadata, src: ObjectReference)
        requires
            old(meta).wf(),
            old(meta)@.in_heap(src.addr()),
            old(meta)@.log_bit[old(meta)@.cell(src.addr())] <= 1,
        ensures
            final(meta).wf(),
            final(self).same_snapshot(*old(self)),
            final(self).remembers(final(meta)@) == object_remembered(
                old(self).remembers(old(meta)@),
                src,
            ),
    {
        if self.object_is_unlogged(meta, src) {
            self.object_reference_write_slow(meta, src);
        }
    }

    /// The barrier after a write to an object that is unlogged.
    pub fn object_reference_write_slow(&mut self, meta: &mut HeapMetadata, src: ObjectReference)
        requires
            old(meta).wf(),
            old(meta)@.in_heap(src.addr()),
            old(meta)@.log_bit[old(meta)@.cell(src.addr())] <= 1,
        ensures
            final(meta).wf(),
            final(self).same_snapshot(*old(self)),
            final(self).remembers(final(meta)@) == object_remembered(
                old(self).remembers(old(meta)@),
                src,
            ),
    {
        self.remember(meta, src);
    }

    /// The barrier before a copy onto a region.
    pub fn memory_region_copy_pre(
        &mut self,
        plan: &mut Bactrian,
        meta: &HeapMetadata,
        objects: &ObjectModel,
        dst: &MemorySlice,
    )
        requires
            meta.wf(),
        ensures
            final(self).same_generational(*old(self)),
            final(self).snapshot(final(plan)@.parked_marking) == if old(self).enabled() {
                slots_kept(
                    old(self).snapshot(old(plan)@.parked_marking),
                    old(plan)@,
                    meta@,
                    *objects,
                    dst.slots@,
                )
            } else {
                old(self).snapshot(old(plan)@.parked_marking)
            },
            final(plan)@ == with_parked(old(plan)@, final(plan)@.parked_marking),
    {
        if self.satb_enabled {
            self.keep_slots(plan, meta, objects, &dst.slots);
        }
    }

    /// The barrier after a copy onto a region.
    pub fn memory_region_copy_post(&mut self, plan: &Bactrian, meta: &HeapMetadata, dst: MemorySlice)
        requires
            meta.wf(),
        ensures
            final(self).same_snapshot(*old(self)),
            final(self).remembers(meta@) == region_remembered(
                old(self).remembers(meta@),
                plan@,
                meta@,
                dst,
            ),
    {
        let ghost before: RememberState = self.remembers(meta@);
        let young: bool = match dst.object {
            Some(object) => plan.is_object_in_nursery(meta, object),
            None => plan.is_address_in_nursery(meta, dst.start),
        };
        if !young {
            self.region_modbuf.push(dst);
            assert(self.remembers(meta@) =~= (RememberState {
                regions: before.regions.push(dst),
                ..before
            }));
            if self.region_modbuf.is_full() {
                self.flush_region_modbuf();
            }
        }
    }

    /// The barrier before a write somewhere in an object: both halves at once.
    pub fn object_probable_write(
        &mut self,
        plan: &mut Bactrian,
        meta: &mut HeapMetadata,
        objects: &ObjectModel,
        object: ObjectReference,
    )
        requires
            old(meta).wf(),
            old(meta)@.in_heap(object.addr()),
            old(meta)@.log_bit[old(meta)@.cell(object.addr())] <= 1,
        ensures
            final(meta).wf(),
            final(self).enabled() == old(self).enabled(),
            final(self).snapshot(final(plan)@.parked_marking) == if old(self).enabled() && !old(
                plan,
            )@.young(old(meta)@, object.0.0) {
                slots_kept(
                    old(self).snapshot(old(plan)@.parked_marking),
                    old(plan)@,
                    old(meta)@,
                    *objects,
                    objects.field_slots(object.0.0),
                )
            } else {
                old(self).snapshot(old(plan)@.parked_marking)
            },
            final(plan)@ == with_parked(old(plan)@, final(plan)@.parked_marking),
            final(self).remembers(final(meta)@) == object_remembered(
                old(self).remembers(old(meta)@),
                object,
            ),
    {
        if self.satb_enabled && !plan.is_object_in_nursery(meta, object) {
            let slots: Vec<Slot> = objects.iterate_fields(object);
            self.keep_slots(plan, meta, objects, &slots);
        }
        if self.object_is_unlogged(meta, object) {
            self.remember(meta, object);
        }
    }
}

/// After an object was loaded from a weak reference. It is kept while a cycle is in progress,
/// unless it is young.
pub open spec fn weak_loaded(
    enabled: bool,
    st: SnapshotState,
    v: BactrianView,
    m: MetadataView,
    object: ObjectReference,
) -> SnapshotState {
    if !enabled || !v.concurrent_marking_active || v.young(m, object.0.0) {
        st
    } else {
        let kept = SnapshotState { refs: st.refs.push(object), ..st };
        if kept.refs.len() >= VECTOR_QUEUE_CAPACITY {
            refs_flushed(kept, v)
        } else {
            kept
        }
    }
}

/// What is kept does not depend on what is parked.
proof fn lemma_same_context(
    st: SnapshotState,
    v: BactrianView,
    v2: BactrianView,
    m: MetadataView,
    objects: ObjectModel,
    slot: Slot,
)
    requires
        v2 == with_parked(v, v2.parked_marking),
    ensures
        slot_kept(st, v, m, objects, slot) == slot_kept(st, v2, m, objects, slot),
{
}

} // verus!
