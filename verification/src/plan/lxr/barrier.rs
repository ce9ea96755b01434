//! The write barrier of the LXR plan.
//!
//! The first write to a field logs the field: what the field referred to before is left to be
//! decremented, and the field itself is left for an increment of what it refers to at the next
//! pause. Later writes find the field logged and do nothing.

use crate::plan::vector_queue::{VectorQueue, VECTOR_QUEUE_CAPACITY};
use crate::util::address::ObjectReference;
use crate::util::log_bit::{LOGGED_VALUE, UNLOGGED_VALUE};
use crate::util::metadata::{HeapMetadata, MetadataView};
use crate::util::rc::{incremented, RefCountHelper};
use crate::util::vm::{ObjectModel, Slot};
use vstd::prelude::*;

verus! {

/// The barrier was not taken: the field was logged before.
#[derive(Debug, Clone, Copy, PartialEq, Eq, Structural)]
pub struct AlreadyLogged;

/// What the barrier works on: the tables, the buffers, and the packets that were handed on.
#[verifier::ext_equal]
pub ghost struct BarrierState {
    /// The tables.
    pub m: MetadataView,
    /// The fields to increment through.
    pub incs: Seq<Slot>,
    /// The objects to decrement.
    pub decs: Seq<ObjectReference>,
    /// The packets of increments. They go into the stage for increments.
    pub inc_packets: Seq<Seq<Slot>>,
    /// The packets of decrements. They go into the stage for decrements.
    pub dec_packets: Seq<Seq<ObjectReference>>,
}

/// The field is logged.
pub open spec fn is_logged(m: MetadataView, slot: Slot) -> bool {
    m.field_unlog[m.cell(slot.0.0 as int)] == LOGGED_VALUE
}

/// The tables after a field was logged.
pub open spec fn field_logged(m: MetadataView, slot: Slot) -> MetadataView {
    MetadataView {
        field_unlog: m.field_unlog.update(m.cell(slot.0.0 as int), LOGGED_VALUE),
        ..m
    }
}

/// `a + b`, but no more than the largest `usize`.
pub open spec fn saturating(a: usize, b: int) -> usize {
    if a + b > usize::MAX {
        usize::MAX
    } else {
        (a + b) as usize
    }
}

/// After the increments were handed on as a packet, if there are any.
pub open spec fn incs_flushed(st: BarrierState) -> BarrierState {
    if st.incs.len() == 0 {
        st
    } else {
        BarrierState {
            m: MetadataView {
                inc_buffer_size: saturating(st.m.inc_buffer_size, st.incs.len() as int),
                ..st.m
            },
            incs: Seq::empty(),
            inc_packets: st.inc_packets.push(st.incs),
            ..st
        }
    }
}

/// After the decrements were handed on as a packet, if there are any.
pub open spec fn decs_flushed(st: BarrierState) -> BarrierState {
    if st.decs.len() == 0 {
        st
    } else {
        BarrierState { decs: Seq::empty(), dec_packets: st.dec_packets.push(st.decs), ..st }
    }
}

/// After the decrement of an old target was buffered.
pub open spec fn dec_buffered(st: BarrierState, old: Option<ObjectReference>) -> BarrierState {
    match old {
        Some(o) => {
            let pushed = BarrierState { decs: st.decs.push(o), ..st };
            if pushed.decs.len() >= VECTOR_QUEUE_CAPACITY {
                decs_flushed(pushed)
            } else {
                pushed
            }
        },
        None => st,
    }
}

/// After the increment through a field was buffered.
pub open spec fn inc_buffered(st: BarrierState, slot: Slot) -> BarrierState {
    let pushed = BarrierState { incs: st.incs.push(slot), ..st };
    if pushed.incs.len() >= VECTOR_QUEUE_CAPACITY {
        incs_flushed(pushed)
    } else {
        pushed
    }
}

/// After the barrier of a field.
pub open spec fn node_enqueued(st: BarrierState, objects: ObjectModel, slot: Slot) -> BarrierState {
    if is_logged(st.m, slot) {
        st
    } else {
        inc_buffered(
            dec_buffered(
                BarrierState { m: field_logged(st.m, slot), ..st },
                objects.target(slot),
            ),
            slot,
        )
    }
}

/// After the barriers of the given fields.
pub open spec fn nodes_enqueued(st: BarrierState, objects: ObjectModel, slots: Seq<Slot>) -> BarrierState
    decreases slots.len(),
{
    if slots.len() == 0 {
        st
    } else {
        node_enqueued(nodes_enqueued(st, objects, slots.drop_last()), objects, slots.last())
    }
}

/// The tables after what the given fields refer to was incremented.
pub open spec fn targets_incremented(
    m: MetadataView,
    objects: ObjectModel,
    slots: Seq<Slot>,
) -> MetadataView
    decreases slots.len(),
{
    if slots.len() == 0 {
        m
    } else {
        let before = targets_incremented(m, objects, slots.drop_last());
        match objects.target(slots.last()) {
            Some(o) => incremented(before, o.addr()),
            None => before,
        }
    }
}

/// A field is buffered at most once between two pauses: a second barrier changes nothing, whatever
/// was written in between.
pub proof fn law_field_is_logged_once(
    st: BarrierState,
    objects: ObjectModel,
    later: ObjectModel,
    slot: Slot,
)
    requires
        st.m.wf(),
        st.m.in_heap(slot.0.0 as int),
    ensures
        node_enqueued(node_enqueued(st, objects, slot), later, slot) == node_enqueued(
            st,
            objects,
            slot,
        ),
{
    let once = node_enqueued(st, objects, slot);
    assert(is_logged(once.m, slot));
}

/// The barrier of a field leaves the log bits of all other fields alone.
pub proof fn law_barrier_keeps_other_fields(
    st: BarrierState,
    objects: ObjectModel,
    slot: Slot,
    other: Slot,
)
    requires
        st.m.wf(),
        st.m.in_heap(slot.0.0 as int),
        st.m.in_heap(other.0.0 as int),
        st.m.cell(slot.0.0 as int) != st.m.cell(other.0.0 as int),
    ensures
        is_logged(node_enqueued(st, objects, slot).m, other) == is_logged(st.m, other),
{
}

/// The packets as the contracts speak of them.
pub open spec fn slot_batches(packets: Seq<Vec<Slot>>) -> Seq<Seq<Slot>> {
    packets.map_values(|packet: Vec<Slot>| packet@)
}

/// The packets as the contracts speak of them.
pub open spec fn object_batches(packets: Seq<Vec<ObjectReference>>) -> Seq<Seq<ObjectReference>> {
    packets.map_values(|packet: Vec<ObjectReference>| packet@)
}

/// The write barrier of a mutator.
pub struct LXRFieldBarrierSemantics {
    incs: VectorQueue<Slot>,
    decs: VectorQueue<ObjectReference>,
    inc_packets: Vec<Vec<Slot>>,
    dec_packets: Vec<Vec<ObjectReference>>,
}

impl LXRFieldBarrierSemantics {
    /// The state of the barrier.
    pub closed spec fn state(self, m: MetadataView) -> BarrierState {
        BarrierState {
            m,
            incs: self.incs@,
            decs: self.decs@,
            inc_packets: slot_batches(self.inc_packets@),
            dec_packets: object_batches(self.dec_packets@),
        }
    }

    /// A barrier with empty buffers.
    pub fn new() -> (barrier: Self)
        ensures
            forall|m: MetadataView| #[trigger]
                barrier.state(m) == (BarrierState {
                    m,
                    incs: Seq::empty(),
                    decs: Seq::empty(),
                    inc_packets: Seq::empty(),
                    dec_packets: Seq::empty(),
                }),
    {
        let barrier = LXRFieldBarrierSemantics {
            incs: VectorQueue::new(),
            decs: VectorQueue::new(),
            inc_packets: Vec::new(),
            dec_packets: Vec::new(),
        };
        assert(slot_batches(barrier.inc_packets@) =~= Seq::empty());
        assert(object_batches(barrier.dec_packets@) =~= Seq::empty());
        barrier
    }

    /// Takes the packets that were handed on: those of increments and those of decrements.
    pub fn take_packets(&mut self) -> (packets: (Vec<Vec<Slot>>, Vec<Vec<ObjectReference>>))
        ensures
            forall|m: MetadataView| #[trigger]
                final(self).state(m) == (BarrierState {
                    inc_packets: Seq::empty(),
                    dec_packets: Seq::empty(),
                    ..old(self).state(m)
                }),
            forall|m: MetadataView|
                slot_batches(packets.0@) == (#[trigger] old(self).state(m)).inc_packets
                    && object_batches(packets.1@) == old(self).state(m).dec_packets,
    {
        let mut incs: Vec<Vec<Slot>> = Vec::new();
        let mut decs: Vec<Vec<ObjectReference>> = Vec::new();
        std::mem::swap(&mut incs, &mut self.inc_packets);
        std::mem::swap(&mut decs, &mut self.dec_packets);
        assert(slot_batches(self.inc_packets@) =~= Seq::empty());
        assert(object_batches(self.dec_packets@) =~= Seq::empty());
        (incs, decs)
    }

    /// The log bit of a field.
    fn get_slot_logging_state(&self, meta: &HeapMetadata, slot: Slot) -> (state: u8)
        requires
            meta.wf(),
            meta@.in_heap(slot.0.0 as int),
        ensures
            state == meta@.field_unlog[meta@.cell(slot.0.0 as int)],
    {
        meta.field_unlog.load(meta.cell(slot.0))
    }

    /// Logs a field. Returns true iff it was not logged before.
    fn attempt_to_log_field(&self, meta: &mut HeapMetadata, slot: Slot) -> (logged: bool)
        requires
            old(meta).wf(),
            old(meta)@.in_heap(slot.0.0 as int),
        ensures
            final(meta).wf(),
            logged == !is_logged(old(meta)@, slot),
            final(meta)@ == if logged {
                field_logged(old(meta)@, slot)
            } else {
                old(meta)@
            },
    {
        if self.get_slot_logging_state(meta, slot) == LOGGED_VALUE {
            return false;
        }
        let index: usize = meta.cell(slot.0);
        meta.field_unlog.compare_exchange(index, UNLOGGED_VALUE, LOGGED_VALUE).is_ok()
    }

    /// Logs a field and returns what it refers to, unless it was logged before.
    fn log_slot_and_get_old_target(
        &self,
        meta: &mut HeapMetadata,
        objects: &ObjectModel,
        slot: Slot,
    ) -> (result: Result<Option<ObjectReference>, AlreadyLogged>)
        requires
            old(meta).wf(),
            old(meta)@.in_heap(slot.0.0 as int),
        ensures
            final(meta).wf(),
            is_logged(old(meta)@, slot) ==> result is Err && final(meta)@ == old(meta)@,
            !is_logged(old(meta)@, slot) ==> result == Ok::<
                Option<ObjectReference>,
                AlreadyLogged,
            >(objects.target(slot)) && final(meta)@ == field_logged(old(meta)@, slot),
    {
        if self.get_slot_logging_state(meta, slot) == LOGGED_VALUE {
            return Err(AlreadyLogged);
        }
        let old_target: Option<ObjectReference> = objects.load(slot);
        if self.attempt_to_log_field(meta, slot) {
            Ok(old_target)
        } else {
            Err(AlreadyLogged)
        }
    }

    /// Buffers a decrement of the old target and an increment through the field.
    fn slow(&mut self, meta: &mut HeapMetadata, slot: Slot, old_target: Option<ObjectReference>)
        requires
            old(meta).wf(),
        ensures
            final(meta).wf(),
            final(self).state(final(meta)@) == inc_buffered(
                dec_buffered(old(self).state(old(meta)@), old_target),
                slot,
            ),
    {
        let ghost start: BarrierState = self.state(meta@);
        if let Some(o) = old_target {
            self.decs.push(o);
            assert(self.state(meta@) =~= (BarrierState { decs: start.decs.push(o), ..start }));
            if self.decs.is_full() {
                self.flush_decs();
            }
        }
        let ghost middle: BarrierState = self.state(meta@);
        assert(middle == dec_buffered(start, old_target));
        self.incs.push(slot);
        assert(self.state(meta@) =~= (BarrierState { incs: middle.incs.push(slot), ..middle }));
        if self.incs.is_full() {
            self.flush_incs(meta);
        }
    }

    /// The barrier of a field. Returns true iff the field was not logged before.
    fn enqueue_node(&mut self, meta: &mut HeapMetadata, objects: &ObjectModel, slot: Slot) -> (enqueued:
        bool)
        requires
            old(meta).wf(),
            old(meta)@.in_heap(slot.0.0 as int),
        ensures
            final(meta).wf(),
            enqueued == !is_logged(old(meta)@, slot),
            final(self).state(final(meta)@) == node_enqueued(
                old(self).state(old(meta)@),
                *objects,
                slot,
            ),
    {
        if let Ok(old_target) = self.log_slot_and_get_old_target(meta, objects, slot) {
            self.slow(meta, slot, old_target);
            true
        } else {
            false
        }
    }

    /// Hands the increments on as a packet.
    fn flush_incs(&mut self, meta: &mut HeapMetadata)
        requires
            old(meta).wf(),
        ensures
            final(meta).wf(),
            final(self).state(final(meta)@) == incs_flushed(old(self).state(old(meta)@)),
    {
        if !self.incs.is_empty() {
            let ghost before: Seq<Seq<Slot>> = slot_batches(self.inc_packets@);
            let incs: Vec<Slot> = self.incs.take();
            RefCountHelper.increase_inc_buffer_size(meta, incs.len());
            let ghost items: Seq<Slot> = incs@;
            self.inc_packets.push(incs);
            assert(slot_batches(self.inc_packets@) =~= before.push(items));
        }
    }

    /// Hands the decrements on as a packet.
    fn flush_decs(&mut self)
        ensures
            forall|m: MetadataView| #[trigger]
                final(self).state(m) == decs_flushed(old(self).state(m)),
    {
        if !self.decs.is_empty() {
            let ghost before: Seq<Seq<ObjectReference>> = object_batches(self.dec_packets@);
            let decs: Vec<ObjectReference> = self.decs.take();
            let ghost items: Seq<ObjectReference> = decs@;
            self.dec_packets.push(decs);
            assert(object_batches(self.dec_packets@) =~= before.push(items));
        }
    }

    /// Hands all that is buffered on.
    pub fn flush(&mut self, meta: &mut HeapMetadata)
        requires
            old(meta).wf(),
        ensures
            final(meta).wf(),
            final(self).state(final(meta)@) == decs_flushed(
                incs_flushed(old(self).state(old(meta)@)),
            ),
    {
        self.flush_incs(meta);
        self.flush_decs();
    }

    /// Performs the increments at once, and drops the decrements. This is for a mutator that ends
    /// outside a collection, when packets could not run. A lost increment would free an object too
    /// early; a lost decrement only keeps one longer.
    pub fn flush_terminating(&mut self, meta: &mut HeapMetadata, objects: &ObjectModel)
        requires
            old(meta).wf(),
            forall|i: int|
                0 <= i < old(self).state(old(meta)@).incs.len() ==> (objects.target(
                    #[trigger] old(self).state(old(meta)@).incs[i],
                ) matches Some(o) ==> old(meta)@.in_heap(o.addr())),
        ensures
            final(meta).wf(),
            final(self).state(final(meta)@) == (BarrierState {
                m: targets_incremented(
                    old(meta)@,
                    *objects,
                    old(self).state(old(meta)@).incs,
                ),
                incs: Seq::empty(),
                decs: Seq::empty(),
                ..old(self).state(old(meta)@)
            }),
    {
        self.drain_terminating(meta, objects);
    }

    /// Performs the increments at once, and drops the decrements.
    fn drain_terminating(&mut self, meta: &mut HeapMetadata, objects: &ObjectModel)
        requires
            old(meta).wf(),
            forall|i: int|
                0 <= i < old(self).state(old(meta)@).incs.len() ==> (objects.target(
                    #[trigger] old(self).state(old(meta)@).incs[i],
                ) matches Some(o) ==> old(meta)@.in_heap(o.addr())),
        ensures
            final(meta).wf(),
            final(self).state(final(meta)@) == (BarrierState {
                m: targets_incremented(
                    old(meta)@,
                    *objects,
                    old(self).state(old(meta)@).incs,
                ),
                incs: Seq::empty(),
                decs: Seq::empty(),
                ..old(self).state(old(meta)@)
            }),
    {
        let ghost m: MetadataView = meta@;
        let ghost start: BarrierState = self.state(m);
        let incs: Vec<Slot> = self.incs.take();
        assert(incs@ == start.incs);
        assert(incs@.subrange(0, incs@.len() as int) =~= incs@);
        let mut i: usize = 0;
        while i < incs.len()
            invariant
                i <= incs@.len(),
                meta.wf(),
                meta@.start == m.start,
                meta@.chunks == m.chunks,
                incs@ == start.incs,
                forall|j: int|
                    0 <= j < start.incs.len() ==> (objects.target(
                        #[trigger] start.incs[j],
                    ) matches Some(o) ==> m.in_heap(o.addr())),
                meta@ == targets_incremented(m, *objects, incs@.subrange(0, i as int)),
            decreases incs@.len() - i,
        {
            let slot: Slot = incs[i];
            proof {
                let next = incs@.subrange(0, i + 1);
                assert(next.drop_last() =~= incs@.subrange(0, i as int));
                assert(next.last() == slot);
                assert(slot == start.incs[i as int]);
            }
            if let Some(o) = objects.load(slot) {
                let _result: Result<u8, u8> = RefCountHelper.inc(meta, o);
            }
            i += 1;
        }
        let _dropped: Vec<ObjectReference> = self.decs.take();
    }

    /// The barrier of a write to a field.
    pub fn object_reference_write_slow(
        &mut self,
        meta: &mut HeapMetadata,
        objects: &ObjectModel,
        slot: Slot,
    )
        requires
            old(meta).wf(),
            old(meta)@.in_heap(slot.0.0 as int),
        ensures
            final(meta).wf(),
            final(self).state(final(meta)@) == node_enqueued(
                old(self).state(old(meta)@),
                *objects,
                slot,
            ),
    {
        let _enqueued: bool = self.enqueue_node(meta, objects, slot);
    }

    /// The barrier of a copy onto the given fields.
    pub fn memory_region_copy_slow(
        &mut self,
        meta: &mut HeapMetadata,
        objects: &ObjectModel,
        dst: &Vec<Slot>,
    )
        requires
            old(meta).wf(),
            forall|i: int| 0 <= i < dst@.len() ==> old(meta)@.in_heap((#[trigger] dst@[i]).0.0 as int),
        ensures
            final(meta).wf(),
            final(self).state(final(meta)@) == nodes_enqueued(
                old(self).state(old(meta)@),
                *objects,
                dst@,
            ),
    {
        let ghost m: MetadataView = meta@;
        let ghost start: BarrierState = self.state(m);
        assert(dst@.subrange(0, dst@.len() as int) =~= dst@);
        let mut i: usize = 0;
        while i < dst.len()
            invariant
                i <= dst@.len(),
                meta.wf(),
                meta@.start == m.start,
                meta@.chunks == m.chunks,
                forall|j: int| 0 <= j < dst@.len() ==> m.in_heap((#[trigger] dst@[j]).0.0 as int),
                self.state(meta@) == nodes_enqueued(
                    start,
                    *objects,
                    dst@.subrange(0, i as int),
                ),
            decreases dst@.len() - i,
        {
            proof {
                let next = dst@.subrange(0, i + 1);
                assert(next.drop_last() =~= dst@.subrange(0, i as int));
                assert(next.last() == dst@[i as int]);
            }
            let ghost before: BarrierState = self.state(meta@);
            let _enqueued: bool = self.enqueue_node(meta, objects, dst[i]);
            assert(self.state(meta@).m == meta@);
            i += 1;
        }
    }
}

} // verus!
