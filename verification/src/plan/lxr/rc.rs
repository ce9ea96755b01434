//! Increments and decrements of reference counts.

use crate::policy::immix::block::{Block, BlockState};
use crate::policy::immix::immixspace::{ImmixSpace, ImmixSpaceView};
use crate::args::BUFFER_SIZE;
use crate::plan::lxr::Pause;
use crate::plan::vector_queue::{VectorQueue, VECTOR_QUEUE_CAPACITY};
use crate::util::address::{Address, ObjectReference};
use crate::util::constants::BYTES_IN_BLOCK;
use crate::util::log_bit::UNLOGGED_VALUE;
use crate::util::metadata::{HeapMetadata, MetadataView, SpaceKind, MAX_REF_COUNT};
use crate::util::queue::{batches, push_batch};
use crate::util::rc::{count_of, decremented, incremented, object_straddle, RefCountHelper};
use crate::util::side_metadata::{lemma_zeros, lemma_zeros_bound, zeros};
use crate::util::vm::{ObjectModel, Slot};
use crate::LazySweepingJobsCounter;
use crossbeam::queue::SegQueue;
use std::sync::Arc;
use vstd::prelude::*;

verus! {

/// Where the slot of an increment comes from.
pub type EdgeKind = u8;

/// A root.
pub const EDGE_KIND_ROOT: u8 = 0;

/// A field of an object that was just promoted.
pub const EDGE_KIND_NURSERY: u8 = 1;

/// A field that the write barrier logged. It becomes unlogged when it is loaded.
pub const EDGE_KIND_MATURE: u8 = 2;

/// What increments work on: the tables and the space, the slots that are still to be processed,
/// the packets that were handed on, and the root targets.
#[verifier::ext_equal]
pub ghost struct IncState {
    /// The tables.
    pub m: MetadataView,
    /// The space.
    pub s: ImmixSpaceView,
    /// Slots of promoted objects that are still to be processed.
    pub new_incs: Seq<Slot>,
    /// The packets of slots that were handed on.
    pub scheduled: Seq<Seq<Slot>>,
    /// The addresses of the objects that roots refer to.
    pub roots: Seq<usize>,
}

/// The tables after the field at `address` became unlogged, if it lies in a space. The stack of a
/// fiber does not, and its slots are not logged.
pub open spec fn slot_unlogged(m: MetadataView, address: int) -> MetadataView {
    if m.in_spaces(address) {
        MetadataView { field_unlog: m.field_unlog.update(m.cell(address), UNLOGGED_VALUE), ..m }
    } else {
        m
    }
}

/// After a field of a promoted object: the field is unlogged; a target without a count is left
/// for a later increment through the field, and any other is incremented.
pub open spec fn field_scanned(st: IncState, objects: ObjectModel, slot: Slot) -> IncState {
    let m = slot_unlogged(st.m, slot.0.0 as int);
    match objects.target(slot) {
        None => IncState { m, ..st },
        Some(target) => if count_of(m, target.addr()) == 0 {
            IncState { m, new_incs: st.new_incs.push(slot), ..st }
        } else {
            IncState { m: incremented(m, target.addr()), ..st }
        },
    }
}

/// After the given fields of a promoted object.
pub open spec fn fields_scanned(st: IncState, objects: ObjectModel, slots: Seq<Slot>) -> IncState
    decreases slots.len(),
{
    if slots.len() == 0 {
        st
    } else {
        field_scanned(fields_scanned(st, objects, slots.drop_last()), objects, slots.last())
    }
}

/// After a promoted object was scanned. A full buffer is handed on as a packet. Outside the Immix
/// space the object itself becomes unlogged, too.
pub open spec fn object_scanned(st: IncState, objects: ObjectModel, o: ObjectReference) -> IncState {
    let unlogged = if st.m.space_of(o.addr()) == SpaceKind::Immix {
        st
    } else {
        IncState { m: slot_unlogged(st.m, o.addr()), ..st }
    };
    let scanned = fields_scanned(unlogged, objects, objects.field_slots(o.0.0));
    if scanned.new_incs.len() >= BUFFER_SIZE {
        IncState {
            scheduled: scanned.scheduled.push(scanned.new_incs),
            new_incs: Seq::empty(),
            ..scanned
        }
    } else {
        scanned
    }
}

/// The block that contains `address`.
pub open spec fn block_of(address: int) -> Block {
    Block(Address((address - address % BYTES_IN_BLOCK as int) as usize))
}

/// The tables after an object of the Immix space was promoted: its block is no longer a nursery
/// block, and the lines that it covers are marked.
pub open spec fn promoted_tables(m: MetadataView, address: int, size: int) -> MetadataView {
    let block = block_of(address);
    object_straddle(
        if block.state(m) == BlockState::Unallocated {
            block.promoted_in_place(m)
        } else {
            m
        },
        address,
        size,
        1,
    )
}

/// The space after an object of it was promoted.
pub open spec fn promoted_space(m: MetadataView, s: ImmixSpaceView, address: int) -> ImmixSpaceView {
    let block = block_of(address);
    if block.state(m) == BlockState::Unallocated {
        block.promotion_counted(m, s)
    } else {
        s
    }
}

/// After an object was promoted and scanned.
pub open spec fn object_promoted(st: IncState, objects: ObjectModel, o: ObjectReference) -> IncState {
    object_scanned(
        if st.m.space_of(o.addr()) == SpaceKind::Immix {
            IncState {
                m: promoted_tables(st.m, o.addr(), objects.size(o.0.0) as int),
                s: promoted_space(st.m, st.s, o.addr()),
                ..st
            }
        } else {
            st
        },
        objects,
        o,
    )
}

/// After an increment: an object whose count was zero is promoted. What is not in a space is left
/// alone.
pub open spec fn inc_processed(st: IncState, objects: ObjectModel, o: ObjectReference) -> IncState {
    if !st.m.in_spaces(o.addr()) {
        st
    } else {
        let counted = IncState { m: incremented(st.m, o.addr()), ..st };
        if count_of(st.m, o.addr()) == 0 {
            object_promoted(counted, objects, o)
        } else {
            counted
        }
    }
}

/// After the increment through a slot. The slot of a mature edge becomes unlogged, and the target
/// of a root is remembered.
pub open spec fn slot_processed(st: IncState, kind: u8, objects: ObjectModel, slot: Slot) -> IncState {
    let unlogged = if kind == EDGE_KIND_MATURE {
        IncState { m: slot_unlogged(st.m, slot.0.0 as int), ..st }
    } else {
        st
    };
    match objects.target(slot) {
        None => unlogged,
        Some(o) => if !unlogged.m.in_spaces(o.addr()) {
            unlogged
        } else if kind == EDGE_KIND_ROOT {
            inc_processed(
                IncState { roots: unlogged.roots.push(o.0.0), ..unlogged },
                objects,
                o,
            )
        } else {
            inc_processed(unlogged, objects, o)
        },
    }
}

/// After the increments through the given slots.
pub open spec fn slots_processed(
    st: IncState,
    kind: u8,
    objects: ObjectModel,
    slots: Seq<Slot>,
) -> IncState
    decreases slots.len(),
{
    if slots.len() == 0 {
        st
    } else {
        slot_processed(
            slots_processed(st, kind, objects, slots.drop_last()),
            kind,
            objects,
            slots.last(),
        )
    }
}

/// After `n` rounds in which the slots that the round before left were processed.
pub open spec fn rounds(st: IncState, kind: u8, objects: ObjectModel, n: nat) -> IncState
    decreases n,
{
    if n == 0 {
        st
    } else {
        let before = rounds(st, kind, objects, (n - 1) as nat);
        slots_processed(
            IncState { new_incs: Seq::empty(), ..before },
            kind,
            objects,
            before.new_incs,
        )
    }
}

/// Counts only grow from `a` to `b`: what has a count keeps one. The heap and its spaces are the
/// same.
pub open spec fn grows(a: MetadataView, b: MetadataView) -> bool {
    &&& b.wf()
    &&& b.start == a.start
    &&& b.chunks == a.chunks
    &&& b.spaces == a.spaces
    &&& forall|i: int| 0 <= i < a.rc.len() && a.rc[i] != 0 ==> #[trigger] b.rc[i] != 0
}

/// From `a` to `b` some object got its first count.
pub open spec fn gained(a: MetadataView, b: MetadataView) -> bool {
    exists|i: int| 0 <= i < a.rc.len() && a.rc[i] == 0 && #[trigger] b.rc[i] != 0
}

pub proof fn lemma_grows_chain(a: MetadataView, b: MetadataView, c: MetadataView)
    requires
        a.wf(),
        grows(a, b),
        grows(b, c),
    ensures
        grows(a, c),
        gained(a, b) ==> gained(a, c),
        gained(b, c) ==> gained(a, c),
{
    assert forall|i: int| 0 <= i < a.rc.len() && a.rc[i] != 0 implies #[trigger] c.rc[i] != 0 by {
        assert(b.rc[i] != 0);
    }
    if gained(a, b) {
        let i = choose|i: int| 0 <= i < a.rc.len() && a.rc[i] == 0 && #[trigger] b.rc[i] != 0;
        assert(c.rc[i] != 0);
    }
    if gained(b, c) {
        let i = choose|i: int| 0 <= i < b.rc.len() && b.rc[i] == 0 && #[trigger] c.rc[i] != 0;
        assert(a.rc[i] != 0 ==> b.rc[i] != 0);
        assert(a.rc[i] == 0);
    }
}

pub proof fn lemma_fields_scanned(st: IncState, objects: ObjectModel, slots: Seq<Slot>)
    requires
        st.m.wf(),
        forall|i: int|
            0 <= i < slots.len() ==> (objects.target(#[trigger] slots[i]) matches Some(t)
                ==> st.m.in_heap(t.addr())),
    ensures
        grows(st.m, fields_scanned(st, objects, slots).m),
        fields_scanned(st, objects, slots).s == st.s,
        fields_scanned(st, objects, slots).roots == st.roots,
        fields_scanned(st, objects, slots).scheduled == st.scheduled,
        fields_scanned(st, objects, slots).new_incs.len() <= st.new_incs.len() + slots.len(),
    decreases slots.len(),
{
    if slots.len() > 0 {
        let less = slots.drop_last();
        assert forall|i: int| 0 <= i < less.len() implies (objects.target(
            #[trigger] less[i],
        ) matches Some(t) ==> st.m.in_heap(t.addr())) by {
            assert(less[i] == slots[i]);
        }
        lemma_fields_scanned(st, objects, less);
        let before = fields_scanned(st, objects, less);
        let after = fields_scanned(st, objects, slots);
        assert(slots.last() == slots[slots.len() - 1]);
        assert(grows(before.m, after.m));
        lemma_grows_chain(st.m, before.m, after.m);
    }
}

pub proof fn lemma_object_promoted(st: IncState, objects: ObjectModel, o: ObjectReference)
    requires
        st.m.wf(),
        st.m.in_spaces(o.addr()),
        objects.fits(st.m),
        objects.fields_valid(st.m),
    ensures
        grows(st.m, object_promoted(st, objects, o).m),
        object_promoted(st, objects, o).roots == st.roots,
{
    let size = objects.size(o.0.0) as int;
    let placed = if st.m.space_of(o.addr()) == SpaceKind::Immix {
        IncState {
            m: promoted_tables(st.m, o.addr(), size),
            s: promoted_space(st.m, st.s, o.addr()),
            ..st
        }
    } else {
        st
    };
    assert(objects.size(o.0.0) > 0 ==> o.addr() + size <= st.m.end());
    assert(grows(st.m, placed.m));
    let unlogged = if placed.m.space_of(o.addr()) == SpaceKind::Immix {
        placed
    } else {
        IncState { m: slot_unlogged(placed.m, o.addr()), ..placed }
    };
    assert(grows(placed.m, unlogged.m));
    lemma_grows_chain(st.m, placed.m, unlogged.m);
    let slots = objects.field_slots(o.0.0);
    assert forall|i: int| 0 <= i < slots.len() implies (objects.target(
        #[trigger] slots[i],
    ) matches Some(t) ==> unlogged.m.in_heap(t.addr())) by {
        assert(objects.field_slots(o.0.0)[i] == slots[i]);
    }
    lemma_fields_scanned(unlogged, objects, slots);
    lemma_grows_chain(st.m, unlogged.m, fields_scanned(unlogged, objects, slots).m);
}

pub proof fn lemma_slot_processed(st: IncState, kind: u8, objects: ObjectModel, slot: Slot)
    requires
        st.m.wf(),
        objects.fits(st.m),
        objects.fields_valid(st.m),
    ensures
        grows(st.m, slot_processed(st, kind, objects, slot).m),
        slot_processed(st, kind, objects, slot).new_incs == st.new_incs || gained(
            st.m,
            slot_processed(st, kind, objects, slot).m,
        ),
{
    let unlogged = if kind == EDGE_KIND_MATURE {
        IncState { m: slot_unlogged(st.m, slot.0.0 as int), ..st }
    } else {
        st
    };
    assert(grows(st.m, unlogged.m));
    if let Some(o) = objects.target(slot) {
        if unlogged.m.in_spaces(o.addr()) {
            let rooted = if kind == EDGE_KIND_ROOT {
                IncState { roots: unlogged.roots.push(o.0.0), ..unlogged }
            } else {
                unlogged
            };
            let counted = IncState { m: incremented(rooted.m, o.addr()), ..rooted };
            assert(grows(unlogged.m, counted.m));
            lemma_grows_chain(st.m, unlogged.m, counted.m);
            if count_of(rooted.m, o.addr()) == 0 {
                let cell = rooted.m.cell(o.addr());
                assert(counted.m.rc[cell] != 0);
                assert(gained(unlogged.m, counted.m));
                lemma_object_promoted(counted, objects, o);
                lemma_grows_chain(st.m, counted.m, object_promoted(counted, objects, o).m);
            }
        }
    }
}

pub proof fn lemma_slots_processed(st: IncState, kind: u8, objects: ObjectModel, slots: Seq<Slot>)
    requires
        st.m.wf(),
        objects.fits(st.m),
        objects.fields_valid(st.m),
    ensures
        grows(st.m, slots_processed(st, kind, objects, slots).m),
        slots_processed(st, kind, objects, slots).new_incs == st.new_incs || gained(
            st.m,
            slots_processed(st, kind, objects, slots).m,
        ),
    decreases slots.len(),
{
    if slots.len() > 0 {
        lemma_slots_processed(st, kind, objects, slots.drop_last());
        let before = slots_processed(st, kind, objects, slots.drop_last());
        assert(objects.fits(before.m));
        assert(objects.fields_valid(before.m));
        lemma_slot_processed(before, kind, objects, slots.last());
        lemma_grows_chain(st.m, before.m, slots_processed(st, kind, objects, slots).m);
    }
}

/// The packets as the contracts speak of them.
pub open spec fn slot_packets(packets: Seq<Vec<Slot>>) -> Seq<Seq<Slot>> {
    packets.map_values(|packet: Vec<Slot>| packet@)
}

/// A packet of increments. The kind says where its slots come from.
pub struct ProcessIncs<const KIND: u8> {
    incs: Vec<Slot>,
    new_incs: VectorQueue<Slot>,
    scheduled: Vec<Vec<Slot>>,
    root_targets: Vec<usize>,
}

impl<const KIND: u8> ProcessIncs<KIND> {
    /// The slots to process.
    pub closed spec fn incs(self) -> Seq<Slot> {
        self.incs@
    }

    /// The packets of slots that were handed on.
    pub closed spec fn scheduled(self) -> Seq<Seq<Slot>> {
        slot_packets(self.scheduled@)
    }

    /// The state of the work.
    pub closed spec fn state(self, m: MetadataView, s: ImmixSpaceView) -> IncState {
        IncState {
            m,
            s,
            new_incs: self.new_incs@,
            scheduled: self.scheduled(),
            roots: self.root_targets@,
        }
    }

    /// A packet for the given slots.
    pub fn new(incs: Vec<Slot>) -> (packet: Self)
        ensures
            packet.incs() == incs@,
            forall|m: MetadataView, s: ImmixSpaceView| #[trigger]
                packet.state(m, s) == (IncState {
                    m,
                    s,
                    new_incs: Seq::empty(),
                    scheduled: Seq::empty(),
                    roots: Seq::empty(),
                }),
    {
        let packet = ProcessIncs {
            incs,
            new_incs: VectorQueue::new(),
            scheduled: Vec::new(),
            root_targets: Vec::new(),
        };
        assert(packet.scheduled() =~= Seq::empty());
        packet
    }

    /// Takes the packets that were handed on. They go into the bucket that is always open.
    pub fn take_scheduled(&mut self) -> (packets: Vec<Vec<Slot>>)
        ensures
            slot_packets(packets@) == old(self).scheduled(),
            final(self).scheduled() == Seq::<Seq<Slot>>::empty(),
            final(self).incs() == old(self).incs(),
            forall|m: MetadataView, s: ImmixSpaceView| #[trigger]
                final(self).state(m, s) == (IncState {
                    scheduled: Seq::empty(),
                    ..old(self).state(m, s)
                }),
    {
        let mut packets: Vec<Vec<Slot>> = Vec::new();
        std::mem::swap(&mut packets, &mut self.scheduled);
        assert(self.scheduled() =~= Seq::empty());
        packets
    }

    /// Increments the count of an object. Returns true iff it was zero.
    fn inc(&self, meta: &mut HeapMetadata, o: ObjectReference) -> (promoted: bool)
        requires
            old(meta).wf(),
            old(meta)@.in_heap(o.addr()),
        ensures
            final(meta).wf(),
            final(meta)@ == incremented(old(meta)@, o.addr()),
            promoted == (count_of(old(meta)@, o.addr()) == 0),
    {
        match RefCountHelper.inc(meta, o) {
            Ok(count) => count == 0,
            Err(_) => false,
        }
    }

    /// Makes the field at `address` unlogged, if it lies in a space.
    fn unlog_slot(meta: &mut HeapMetadata, address: Address)
        requires
            old(meta).wf(),
        ensures
            final(meta).wf(),
            final(meta)@ == slot_unlogged(old(meta)@, address.0 as int),
    {
        unlog_field_in_space(meta, address);
    }

    /// Hands the slots that are still to be processed on as a packet.
    fn flush(&mut self)
        ensures
            final(self).incs() == old(self).incs(),
            forall|m: MetadataView, s: ImmixSpaceView| #[trigger]
                final(self).state(m, s) == if old(self).state(m, s).new_incs.len() == 0 {
                    old(self).state(m, s)
                } else {
                    IncState {
                        scheduled: old(self).state(m, s).scheduled.push(
                            old(self).state(m, s).new_incs,
                        ),
                        new_incs: Seq::empty(),
                        ..old(self).state(m, s)
                    }
                },
    {
        if !self.new_incs.is_empty() {
            let ghost before: Seq<Seq<Slot>> = self.scheduled();
            let ghost slots: Seq<Slot> = self.new_incs@;
            let new_incs: Vec<Slot> = self.new_incs.take();
            self.scheduled.push(new_incs);
            assert(self.scheduled() =~= before.push(slots));
        }
    }

    /// Scans an object that was promoted.
    fn scan_nursery_object(
        &mut self,
        meta: &mut HeapMetadata,
        objects: &ObjectModel,
        o: ObjectReference,
        in_immix: bool,
        Ghost(s): Ghost<ImmixSpaceView>,
    )
        requires
            old(meta).wf(),
            old(meta)@.in_spaces(o.addr()),
            objects.fields_valid(old(meta)@),
            in_immix == (old(meta)@.space_of(o.addr()) == SpaceKind::Immix),
        ensures
            final(meta).wf(),
            final(self).incs() == old(self).incs(),
            final(self).state(final(meta)@, s) == object_scanned(
                old(self).state(old(meta)@, s),
                *objects,
                o,
            ),
    {
        if !in_immix {
            Self::unlog_slot(meta, o.0);
        }
        let ghost start: IncState = self.state(meta@, s);
        let slots: Vec<Slot> = objects.iterate_fields(o);
        assert(slots@.subrange(0, slots@.len() as int) =~= slots@);
        let mut i: usize = 0;
        while i < slots.len()
            invariant
                i <= slots@.len(),
                start.m.wf(),
                meta.wf(),
                slots@ == objects.field_slots(o.0.0),
                objects.fields_valid(start.m),
                self.incs() == old(self).incs(),
                self.state(meta@, s) == fields_scanned(
                    start,
                    *objects,
                    slots@.subrange(0, i as int),
                ),
            decreases slots@.len() - i,
        {
            let slot: Slot = slots[i];
            proof {
                let done = slots@.subrange(0, i as int);
                let next = slots@.subrange(0, i + 1);
                assert(next.drop_last() =~= done);
                assert(next.last() == slot);
                assert forall|j: int| 0 <= j < done.len() implies (objects.target(
                    #[trigger] done[j],
                ) matches Some(t) ==> start.m.in_heap(t.addr())) by {
                    assert(done[j] == objects.field_slots(o.0.0)[j]);
                }
                lemma_fields_scanned(start, *objects, done);
                assert(objects.target(objects.field_slots(o.0.0)[i as int]) matches Some(t)
                    ==> start.m.in_heap(t.addr()));
            }
            Self::unlog_slot(meta, slot.0);
            if let Some(target) = objects.load(slot) {
                let rc: u8 = RefCountHelper.count(meta, target);
                if rc == 0 {
                    self.new_incs.push(slot);
                } else if rc != MAX_REF_COUNT {
                    let _result: Result<u8, u8> = RefCountHelper.inc(meta, target);
                }
            }
            i += 1;
            assert(self.state(meta@, s) =~= field_scanned(
                fields_scanned(start, *objects, slots@.subrange(0, i - 1)),
                *objects,
                slot,
            ));
        }
        if self.new_incs.len() >= BUFFER_SIZE {
            self.flush();
        }
    }

    /// Promotes an object whose count is no longer zero, and scans it.
    fn promote(
        &mut self,
        meta: &mut HeapMetadata,
        objects: &ObjectModel,
        space: &mut ImmixSpace,
        o: ObjectReference,
        in_immix: bool,
    )
        requires
            old(meta).wf(),
            old(meta)@.in_spaces(o.addr()),
            objects.fits(old(meta)@),
            objects.fields_valid(old(meta)@),
            in_immix == (old(meta)@.space_of(o.addr()) == SpaceKind::Immix),
        ensures
            final(meta).wf(),
            final(self).incs() == old(self).incs(),
            final(self).state(final(meta)@, final(space)@) == object_promoted(
                old(self).state(old(meta)@, old(space)@),
                *objects,
                o,
            ),
    {
        promote_in_place(meta, objects, space, o, in_immix);
        self.scan_nursery_object(meta, objects, o, in_immix, Ghost(space@));
    }

    /// Increments the count of an object, and promotes it if the count was zero. What is not in a
    /// space is left alone.
    fn process_inc(
        &mut self,
        meta: &mut HeapMetadata,
        objects: &ObjectModel,
        space: &mut ImmixSpace,
        o: ObjectReference,
    )
        requires
            old(meta).wf(),
            objects.fits(old(meta)@),
            objects.fields_valid(old(meta)@),
        ensures
            final(meta).wf(),
            final(self).incs() == old(self).incs(),
            final(self).state(final(meta)@, final(space)@) == inc_processed(
                old(self).state(old(meta)@, old(space)@),
                *objects,
                o,
            ),
    {
        if !meta.is_in_mmtk_spaces(o) {
            return;
        }
        let in_immix: bool = meta.space_of(o.0) == SpaceKind::Immix;
        if self.inc(meta, o) {
            assert(objects.fits(meta@));
            assert(objects.fields_valid(meta@));
            self.promote(meta, objects, space, o, in_immix);
        }
    }

    /// Performs the increment through a slot.
    fn process_slot(
        &mut self,
        meta: &mut HeapMetadata,
        objects: &ObjectModel,
        space: &mut ImmixSpace,
        slot: Slot,
    )
        requires
            old(meta).wf(),
            objects.fits(old(meta)@),
            objects.fields_valid(old(meta)@),
        ensures
            final(meta).wf(),
            final(self).incs() == old(self).incs(),
            final(self).state(final(meta)@, final(space)@) == slot_processed(
                old(self).state(old(meta)@, old(space)@),
                KIND,
                *objects,
                slot,
            ),
    {
        if KIND == EDGE_KIND_MATURE {
            Self::unlog_slot(meta, slot.0);
        }
        if let Some(o) = objects.load(slot) {
            if !meta.is_in_mmtk_spaces(o) {
                return;
            }
            if KIND == EDGE_KIND_ROOT {
                self.root_targets.push(o.0.0);
            }
            assert(objects.fits(meta@));
            assert(objects.fields_valid(meta@));
            self.process_inc(meta, objects, space, o);
        }
    }

    /// Performs the increments through the given slots.
    fn process_incs(
        &mut self,
        meta: &mut HeapMetadata,
        objects: &ObjectModel,
        space: &mut ImmixSpace,
        incs: &Vec<Slot>,
    )
        requires
            old(meta).wf(),
            objects.fits(old(meta)@),
            objects.fields_valid(old(meta)@),
        ensures
            final(meta).wf(),
            final(self).incs() == old(self).incs(),
            final(self).state(final(meta)@, final(space)@) == slots_processed(
                old(self).state(old(meta)@, old(space)@),
                KIND,
                *objects,
                incs@,
            ),
    {
        let ghost start: IncState = self.state(meta@, space@);
        assert(incs@.subrange(0, incs@.len() as int) =~= incs@);
        let mut i: usize = 0;
        while i < incs.len()
            invariant
                i <= incs@.len(),
                start.m.wf(),
                meta.wf(),
                objects.fits(start.m),
                objects.fields_valid(start.m),
                self.incs() == old(self).incs(),
                self.state(meta@, space@) == slots_processed(
                    start,
                    KIND,
                    *objects,
                    incs@.subrange(0, i as int),
                ),
            decreases incs@.len() - i,
        {
            proof {
                let done = incs@.subrange(0, i as int);
                let next = incs@.subrange(0, i + 1);
                assert(next.drop_last() =~= done);
                assert(next.last() == incs@[i as int]);
                lemma_slots_processed(start, KIND, *objects, done);
                assert(objects.fits(meta@));
                assert(objects.fields_valid(meta@));
            }
            self.process_slot(meta, objects, space, incs[i]);
            i += 1;
        }
    }

    /// Performs the increments of the packet, and those that promotions lead to, until none is
    /// left. The targets of roots are put into `curr_roots`.
    pub fn do_work(
        &mut self,
        meta: &mut HeapMetadata,
        objects: &ObjectModel,
        space: &mut ImmixSpace,
        curr_roots: &mut SegQueue<Vec<usize>>,
    )
        requires
            old(meta).wf(),
            objects.fits(old(meta)@),
            objects.fields_valid(old(meta)@),
        ensures
            final(meta).wf(),
            final(self).incs() == Seq::<Slot>::empty(),
            ({
                let first = slots_processed(
                    old(self).state(old(meta)@, old(space)@),
                    KIND,
                    *objects,
                    old(self).incs(),
                );
                let stash = KIND == EDGE_KIND_ROOT && first.roots.len() > 0;
                &&& batches(*final(curr_roots)) == if stash {
                    batches(*old(curr_roots)).push(first.roots)
                } else {
                    batches(*old(curr_roots))
                }
                &&& drained(
                    if stash {
                        IncState { roots: Seq::empty(), ..first }
                    } else {
                        first
                    },
                    final(self).state(final(meta)@, final(space)@),
                    KIND,
                    *objects,
                )
            }),
    {
        let ghost start: IncState = self.state(meta@, space@);
        let ghost slots: Seq<Slot> = self.incs@;
        let mut incs: Vec<Slot> = Vec::new();
        std::mem::swap(&mut incs, &mut self.incs);
        assert(self.state(meta@, space@) == start);
        self.process_incs(meta, objects, space, &incs);
        let ghost first: IncState = self.state(meta@, space@);
        let ghost queue: Seq<Seq<usize>> = batches(*curr_roots);
        if KIND == EDGE_KIND_ROOT && self.root_targets.len() > 0 {
            let mut roots: Vec<usize> = Vec::new();
            std::mem::swap(&mut roots, &mut self.root_targets);
            push_batch(curr_roots, roots);
            assert(batches(*curr_roots) =~= queue.push(first.roots));
        }
        let ghost st: IncState = self.state(meta@, space@);
        let ghost mut n: nat = 0;
        proof {
            lemma_slots_processed(start, KIND, *objects, slots);
        }
        while !self.new_incs.is_empty()
            invariant
                meta.wf(),
                st.m.wf(),
                objects.fits(meta@),
                objects.fields_valid(meta@),
                self.incs@ == Seq::<Slot>::empty(),
                self.state(meta@, space@) == rounds(st, KIND, *objects, n),
                forall|k: nat| k < n ==> (#[trigger] rounds(st, KIND, *objects, k)).new_incs.len() > 0,
            decreases zeros(meta@.rc), self.new_incs@.len(),
        {
            let ghost before: IncState = self.state(meta@, space@);
            let buf: Vec<Slot> = self.new_incs.take();
            let ghost emptied: IncState = self.state(meta@, space@);
            proof {
                assert(emptied =~= (IncState { new_incs: Seq::empty(), ..before }));
                lemma_slots_processed(emptied, KIND, *objects, buf@);
            }
            self.process_incs(meta, objects, space, &buf);
            proof {
                lemma_zeros(before.m.rc, meta@.rc);
                n = n + 1;
            }
        }
        assert(self.incs@ =~= Seq::empty());
    }
}

/// `after` is what is left of `before` when rounds of increments were gone through until no slot
/// was left.
pub open spec fn drained(before: IncState, after: IncState, kind: u8, objects: ObjectModel) -> bool {
    &&& after.new_incs.len() == 0
    &&& exists|n: nat|
        #![trigger rounds(before, kind, objects, n)]
        after == rounds(before, kind, objects, n) && forall|k: nat|
            k < n ==> (#[trigger] rounds(before, kind, objects, k)).new_incs.len() > 0
}

/// Makes the field at `address` unlogged, if it lies in a space.
fn unlog_field_in_space(meta: &mut HeapMetadata, address: Address)
    requires
        old(meta).wf(),
    ensures
        final(meta).wf(),
        final(meta)@ == slot_unlogged(old(meta)@, address.0 as int),
{
    if meta.space_of(address) != SpaceKind::Unmapped {
        let index: usize = meta.cell(address);
        meta.field_unlog.store(index, UNLOGGED_VALUE);
    }
}

/// Promotes an object of the Immix space: its block is no longer a nursery block, and the lines
/// that it covers are marked. Elsewhere there is nothing to do.
fn promote_in_place(
    meta: &mut HeapMetadata,
    objects: &ObjectModel,
    space: &mut ImmixSpace,
    o: ObjectReference,
    in_immix: bool,
)
    requires
        old(meta).wf(),
        old(meta)@.in_spaces(o.addr()),
        objects.fits(old(meta)@),
    ensures
        final(meta).wf(),
        final(meta)@ == if in_immix {
            promoted_tables(old(meta)@, o.addr(), objects.size(o.0.0) as int)
        } else {
            old(meta)@
        },
        final(space)@ == if in_immix {
            promoted_space(old(meta)@, old(space)@, o.addr())
        } else {
            old(space)@
        },
{
    if in_immix {
        let size: usize = objects.get_current_size(o);
        assert(objects.size(o.0.0) > 0 ==> o.addr() + objects.size(o.0.0) <= meta@.end());
        let block: Block = Block::from_unaligned_address(o.0);
        assert(block == block_of(o.addr()));
        if block.get_state(meta) == BlockState::Unallocated {
            block.set_as_in_place_promoted(meta, space);
        }
        RefCountHelper.promote_with_size(meta, o, size);
    }
}

/// A packet of decrements that was handed on.
pub struct DecPacket {
    /// The objects.
    pub decs: Vec<ObjectReference>,
    /// The counters of the job.
    pub counter: LazySweepingJobsCounter,
    /// Whether the packet goes before others. Both kinds go into the bucket that is always open.
    pub prioritized: bool,
}

/// What decrements work on: the tables and the space, the objects that are still to be
/// decremented, and the packets that were handed on, each with whether it goes before others.
#[verifier::ext_equal]
pub ghost struct DecState {
    /// The tables.
    pub m: MetadataView,
    /// The space.
    pub s: ImmixSpaceView,
    /// Children of dead objects that are still to be decremented.
    pub new_decs: Seq<ObjectReference>,
    /// The packets that were handed on.
    pub scheduled: Seq<(Seq<ObjectReference>, bool)>,
}

/// After an object was left for a later decrement. A full buffer is handed on as a packet, which
/// goes before others outside a pause.
pub open spec fn dec_deferred(st: DecState, o: ObjectReference, in_pause: bool) -> DecState {
    let pushed = st.new_decs.push(o);
    if pushed.len() >= VECTOR_QUEUE_CAPACITY {
        DecState {
            new_decs: Seq::empty(),
            scheduled: st.scheduled.push((pushed, !in_pause)),
            ..st
        }
    } else {
        DecState { new_decs: pushed, ..st }
    }
}

/// After a field of a dead object: a child with a count that is not at its maximum is left for a
/// later decrement.
pub open spec fn child_deferred(
    st: DecState,
    objects: ObjectModel,
    slot: Slot,
    in_pause: bool,
) -> DecState {
    match objects.target(slot) {
        None => st,
        Some(x) => if count_of(st.m, x.addr()) != MAX_REF_COUNT && count_of(st.m, x.addr()) != 0 {
            dec_deferred(st, x, in_pause)
        } else {
            st
        },
    }
}

/// After the given fields of a dead object.
pub open spec fn children_deferred(
    st: DecState,
    objects: ObjectModel,
    slots: Seq<Slot>,
    in_pause: bool,
) -> DecState
    decreases slots.len(),
{
    if slots.len() == 0 {
        st
    } else {
        child_deferred(
            children_deferred(st, objects, slots.drop_last(), in_pause),
            objects,
            slots.last(),
            in_pause,
        )
    }
}

/// After a block was recorded as possibly dead.
pub open spec fn block_recorded(st: DecState, block: Block) -> DecState {
    let i = block.index(st.m);
    if block.state(st.m) == BlockState::Unallocated || st.m.block_log[i] == 1 {
        st
    } else {
        DecState {
            m: MetadataView { block_log: st.m.block_log.update(i, 1), ..st.m },
            s: ImmixSpaceView {
                possibly_dead_mature_blocks: st.s.possibly_dead_mature_blocks.push(
                    (block.0.0, false),
                ),
                ..st.s
            },
            ..st
        }
    }
}

/// After an object died: its children are left for later decrements. In the Immix space the lines
/// that it covered are unmarked, and its block is recorded as possibly dead.
pub open spec fn dead_processed(
    st: DecState,
    objects: ObjectModel,
    o: ObjectReference,
    in_pause: bool,
) -> DecState {
    let deferred = children_deferred(st, objects, objects.field_slots(o.0.0), in_pause);
    if st.m.space_of(o.addr()) == SpaceKind::Immix {
        block_recorded(
            DecState {
                m: object_straddle(deferred.m, o.addr(), objects.size(o.0.0) as int, 0),
                ..deferred
            },
            block_of(o.addr()),
        )
    } else {
        deferred
    }
}

/// After a decrement: an object whose count became zero is dead.
pub open spec fn dec_processed(
    st: DecState,
    objects: ObjectModel,
    o: ObjectReference,
    in_pause: bool,
) -> DecState {
    let counted = DecState { m: decremented(st.m, o.addr()), ..st };
    if count_of(st.m, o.addr()) == 1 {
        dead_processed(counted, objects, o, in_pause)
    } else {
        counted
    }
}

/// After the decrements of the given objects.
pub open spec fn decs_processed(
    st: DecState,
    objects: ObjectModel,
    decs: Seq<ObjectReference>,
    in_pause: bool,
) -> DecState
    decreases decs.len(),
{
    if decs.len() == 0 {
        st
    } else {
        dec_processed(
            decs_processed(st, objects, decs.drop_last(), in_pause),
            objects,
            decs.last(),
            in_pause,
        )
    }
}

/// After `n` rounds in which the objects that the round before left were decremented.
pub open spec fn dec_rounds(st: DecState, objects: ObjectModel, in_pause: bool, n: nat) -> DecState
    decreases n,
{
    if n == 0 {
        st
    } else {
        let before = dec_rounds(st, objects, in_pause, (n - 1) as nat);
        decs_processed(
            DecState { new_decs: Seq::empty(), ..before },
            objects,
            before.new_decs,
            in_pause,
        )
    }
}

/// `after` is what is left of `before` when rounds of decrements were gone through until no
/// object was left.
pub open spec fn decs_drained(
    before: DecState,
    after: DecState,
    objects: ObjectModel,
    in_pause: bool,
) -> bool {
    &&& after.new_decs.len() == 0
    &&& exists|n: nat|
        #![trigger dec_rounds(before, objects, in_pause, n)]
        after == dec_rounds(before, objects, in_pause, n) && forall|k: nat|
            k < n ==> (#[trigger] dec_rounds(before, objects, in_pause, k)).new_decs.len() > 0
}

/// Counts only shrink from `a` to `b`: what has no count gets none. The heap and its spaces are
/// the same.
pub open spec fn shrinks(a: MetadataView, b: MetadataView) -> bool {
    &&& b.wf()
    &&& b.start == a.start
    &&& b.chunks == a.chunks
    &&& b.spaces == a.spaces
    &&& forall|i: int| 0 <= i < a.rc.len() && b.rc[i] != 0 ==> #[trigger] a.rc[i] != 0
}

/// From `a` to `b` some object lost its last count.
pub open spec fn lost(a: MetadataView, b: MetadataView) -> bool {
    exists|i: int| 0 <= i < a.rc.len() && b.rc[i] == 0 && #[trigger] a.rc[i] != 0
}

pub proof fn lemma_shrinks_chain(a: MetadataView, b: MetadataView, c: MetadataView)
    requires
        a.wf(),
        shrinks(a, b),
        shrinks(b, c),
    ensures
        shrinks(a, c),
        lost(a, b) ==> lost(a, c),
        lost(b, c) ==> lost(a, c),
{
    assert forall|i: int| 0 <= i < a.rc.len() && c.rc[i] != 0 implies #[trigger] a.rc[i] != 0 by {
        assert(b.rc[i] != 0);
    }
    if lost(a, b) {
        let i = choose|i: int| 0 <= i < a.rc.len() && b.rc[i] == 0 && #[trigger] a.rc[i] != 0;
        assert(c.rc[i] != 0 ==> b.rc[i] != 0);
        assert(c.rc[i] == 0 && a.rc[i] != 0);
    }
    if lost(b, c) {
        let i = choose|i: int| 0 <= i < b.rc.len() && c.rc[i] == 0 && #[trigger] b.rc[i] != 0;
        assert(a.rc[i] != 0);
    }
}

/// Every object of the sequence lies in the heap.
pub open spec fn all_in_heap(m: MetadataView, decs: Seq<ObjectReference>) -> bool {
    forall|i: int| 0 <= i < decs.len() ==> m.in_heap((#[trigger] decs[i]).addr())
}

pub proof fn lemma_children_deferred(
    st: DecState,
    objects: ObjectModel,
    slots: Seq<Slot>,
    in_pause: bool,
)
    requires
        all_in_heap(st.m, st.new_decs),
        forall|i: int|
            0 <= i < slots.len() ==> (objects.target(#[trigger] slots[i]) matches Some(t)
                ==> st.m.in_heap(t.addr())),
    ensures
        children_deferred(st, objects, slots, in_pause).m == st.m,
        children_deferred(st, objects, slots, in_pause).s == st.s,
        all_in_heap(st.m, children_deferred(st, objects, slots, in_pause).new_decs),
    decreases slots.len(),
{
    if slots.len() > 0 {
        let less = slots.drop_last();
        assert forall|i: int| 0 <= i < less.len() implies (objects.target(
            #[trigger] less[i],
        ) matches Some(t) ==> st.m.in_heap(t.addr())) by {
            assert(less[i] == slots[i]);
        }
        lemma_children_deferred(st, objects, less, in_pause);
        assert(slots.last() == slots[slots.len() - 1]);
    }
}

pub proof fn lemma_dec_processed(st: DecState, objects: ObjectModel, o: ObjectReference, in_pause: bool)
    requires
        st.m.wf(),
        objects.fits(st.m),
        objects.fields_valid(st.m),
        st.m.in_heap(o.addr()),
        all_in_heap(st.m, st.new_decs),
    ensures
        ({
            let after = dec_processed(st, objects, o, in_pause);
            &&& shrinks(st.m, after.m)
            &&& all_in_heap(after.m, after.new_decs)
            &&& after.new_decs == st.new_decs || lost(st.m, after.m)
        }),
{
    let counted = DecState { m: decremented(st.m, o.addr()), ..st };
    assert(shrinks(st.m, counted.m));
    if count_of(st.m, o.addr()) == 1 {
        let slots = objects.field_slots(o.0.0);
        assert forall|i: int| 0 <= i < slots.len() implies (objects.target(
            #[trigger] slots[i],
        ) matches Some(t) ==> counted.m.in_heap(t.addr())) by {
            assert(objects.field_slots(o.0.0)[i] == slots[i]);
        }
        lemma_children_deferred(counted, objects, slots, in_pause);
        let deferred = children_deferred(counted, objects, slots, in_pause);
        let cell = st.m.cell(o.addr());
        assert(counted.m.rc[cell] == 0 && st.m.rc[cell] != 0);
        assert(lost(st.m, counted.m));
        if counted.m.space_of(o.addr()) == SpaceKind::Immix {
            assert(objects.size(o.0.0) > 0 ==> o.addr() + objects.size(o.0.0) <= st.m.end());
            let cleared = DecState {
                m: object_straddle(deferred.m, o.addr(), objects.size(o.0.0) as int, 0),
                ..deferred
            };
            assert(shrinks(counted.m, cleared.m));
            lemma_shrinks_chain(st.m, counted.m, cleared.m);
            let after = block_recorded(cleared, block_of(o.addr()));
            assert(shrinks(cleared.m, after.m));
            lemma_shrinks_chain(st.m, cleared.m, after.m);
        }
    }
}

pub proof fn lemma_decs_processed(
    st: DecState,
    objects: ObjectModel,
    decs: Seq<ObjectReference>,
    in_pause: bool,
)
    requires
        st.m.wf(),
        objects.fits(st.m),
        objects.fields_valid(st.m),
        all_in_heap(st.m, decs),
        all_in_heap(st.m, st.new_decs),
    ensures
        ({
            let after = decs_processed(st, objects, decs, in_pause);
            &&& shrinks(st.m, after.m)
            &&& all_in_heap(after.m, after.new_decs)
            &&& after.new_decs == st.new_decs || lost(st.m, after.m)
        }),
    decreases decs.len(),
{
    if decs.len() > 0 {
        let less = decs.drop_last();
        assert forall|i: int| 0 <= i < less.len() implies st.m.in_heap(
            (#[trigger] less[i]).addr(),
        ) by {
            assert(less[i] == decs[i]);
        }
        lemma_decs_processed(st, objects, less, in_pause);
        let before = decs_processed(st, objects, less, in_pause);
        assert(objects.fits(before.m));
        assert(objects.fields_valid(before.m));
        assert(decs.last() == decs[decs.len() - 1]);
        lemma_dec_processed(before, objects, decs.last(), in_pause);
        lemma_shrinks_chain(st.m, before.m, decs_processed(st, objects, decs, in_pause).m);
    }
}

/// A packet of decrements.
pub struct ProcessDecs {
    decs: Option<Vec<ObjectReference>>,
    decs_arc: Option<Arc<Vec<ObjectReference>>>,
    new_decs: VectorQueue<ObjectReference>,
    scheduled: Vec<DecPacket>,
    counter: LazySweepingJobsCounter,
}

/// The packets as the contracts speak of them.
pub open spec fn dec_packets(packets: Seq<DecPacket>) -> Seq<(Seq<ObjectReference>, bool)> {
    packets.map_values(|packet: DecPacket| (packet.decs@, packet.prioritized))
}

/// The packets in `after` that are not in `before` were handed on later. They share the counters
/// of the job that handed them on, those of decrement jobs too.
pub open spec fn handed_on_with(
    before: Seq<DecPacket>,
    after: Seq<DecPacket>,
    counter: LazySweepingJobsCounter,
) -> bool {
    &&& before.len() <= after.len()
    &&& forall|i: int| 0 <= i < before.len() ==> #[trigger] after[i] == before[i]
    &&& forall|i: int|
        before.len() <= i < after.len() ==> {
            &&& (#[trigger] after[i]).counter.decs() == counter.decs()
            &&& after[i].counter.jobs() == counter.jobs()
        }
}

impl ProcessDecs {
    /// How many decrements a packet is meant to hold.
    pub const CAPACITY: usize = BUFFER_SIZE;

    /// The objects to decrement.
    pub closed spec fn decs(self) -> Seq<ObjectReference> {
        match self.decs {
            Some(decs) => decs@,
            None => match self.decs_arc {
                Some(decs) => decs@,
                None => Seq::empty(),
            },
        }
    }

    /// The counters of the job.
    pub closed spec fn counter(self) -> LazySweepingJobsCounter {
        self.counter
    }

    /// The packets that were handed on.
    pub closed spec fn scheduled(self) -> Seq<DecPacket> {
        self.scheduled@
    }

    /// The state of the work.
    pub closed spec fn state(self, m: MetadataView, s: ImmixSpaceView) -> DecState {
        DecState { m, s, new_decs: self.new_decs@, scheduled: dec_packets(self.scheduled@) }
    }

    /// A packet for the given objects.
    pub fn new(decs: Vec<ObjectReference>, counter: LazySweepingJobsCounter) -> (packet: Self)
        ensures
            packet.decs() == decs@,
            packet.counter() == counter,
            forall|m: MetadataView, s: ImmixSpaceView| #[trigger]
                packet.state(m, s) == (DecState {
                    m,
                    s,
                    new_decs: Seq::empty(),
                    scheduled: Seq::empty(),
                }),
    {
        let packet = ProcessDecs {
            decs: Some(decs),
            decs_arc: None,
            new_decs: VectorQueue::new(),
            scheduled: Vec::new(),
            counter,
        };
        assert(dec_packets(packet.scheduled@) =~= Seq::empty());
        packet
    }

    /// A packet for objects that are shared with others.
    pub fn new_arc(decs: Arc<Vec<ObjectReference>>, counter: LazySweepingJobsCounter) -> (packet:
        Self)
        ensures
            packet.decs() == decs@,
            packet.counter() == counter,
            forall|m: MetadataView, s: ImmixSpaceView| #[trigger]
                packet.state(m, s) == (DecState {
                    m,
                    s,
                    new_decs: Seq::empty(),
                    scheduled: Seq::empty(),
                }),
    {
        let packet = ProcessDecs {
            decs: None,
            decs_arc: Some(decs),
            new_decs: VectorQueue::new(),
            scheduled: Vec::new(),
            counter,
        };
        assert(dec_packets(packet.scheduled@) =~= Seq::empty());
        packet
    }

    /// Takes the packets that were handed on.
    pub fn take_scheduled(&mut self) -> (packets: Vec<DecPacket>)
        ensures
            packets@ == old(self).scheduled(),
            final(self).scheduled() == Seq::<DecPacket>::empty(),
            final(self).decs() == old(self).decs(),
            final(self).counter() == old(self).counter(),
            forall|m: MetadataView, s: ImmixSpaceView| #[trigger]
                final(self).state(m, s) == (DecState {
                    scheduled: Seq::empty(),
                    ..old(self).state(m, s)
                }),
    {
        let mut packets: Vec<DecPacket> = Vec::new();
        std::mem::swap(&mut packets, &mut self.scheduled);
        assert(dec_packets(self.scheduled@) =~= Seq::empty());
        packets
    }

    /// Hands the objects that are still to be decremented on as a packet.
    fn flush(&mut self, in_pause: bool)
        ensures
            final(self).decs() == old(self).decs(),
            final(self).counter() == old(self).counter(),
            handed_on_with(
                old(self).scheduled(),
                final(self).scheduled(),
                old(self).counter(),
            ),
            forall|m: MetadataView, s: ImmixSpaceView| #[trigger]
                final(self).state(m, s) == if old(self).state(m, s).new_decs.len() == 0 {
                    old(self).state(m, s)
                } else {
                    DecState {
                        scheduled: old(self).state(m, s).scheduled.push(
                            (old(self).state(m, s).new_decs, !in_pause),
                        ),
                        new_decs: Seq::empty(),
                        ..old(self).state(m, s)
                    }
                },
    {
        if !self.new_decs.is_empty() {
            let ghost before: Seq<(Seq<ObjectReference>, bool)> = dec_packets(self.scheduled@);
            let ghost objects: Seq<ObjectReference> = self.new_decs@;
            let decs: Vec<ObjectReference> = self.new_decs.take();
            self.scheduled.push(
                DecPacket {
                    decs,
                    counter: self.counter.clone_with_decs(),
                    prioritized: !in_pause,
                },
            );
            assert(dec_packets(self.scheduled@) =~= before.push((objects, !in_pause)));
        }
    }

    /// Leaves an object for a later decrement.
    fn recursive_dec(&mut self, o: ObjectReference, in_pause: bool)
        ensures
            final(self).decs() == old(self).decs(),
            final(self).counter() == old(self).counter(),
            handed_on_with(
                old(self).scheduled(),
                final(self).scheduled(),
                old(self).counter(),
            ),
            forall|m: MetadataView, s: ImmixSpaceView| #[trigger]
                final(self).state(m, s) == dec_deferred(old(self).state(m, s), o, in_pause),
    {
        self.new_decs.push(o);
        if self.new_decs.is_full() {
            self.flush(in_pause);
        }
    }

    /// Leaves what a dead object refers to for later decrements.
    fn defer_children(
        &mut self,
        meta: &HeapMetadata,
        objects: &ObjectModel,
        o: ObjectReference,
        in_pause: bool,
        Ghost(s): Ghost<ImmixSpaceView>,
    )
        requires
            meta.wf(),
            objects.fields_valid(meta@),
        ensures
            final(self).decs() == old(self).decs(),
            final(self).counter() == old(self).counter(),
            handed_on_with(
                old(self).scheduled(),
                final(self).scheduled(),
                old(self).counter(),
            ),
            final(self).state(meta@, s) == children_deferred(
                old(self).state(meta@, s),
                *objects,
                objects.field_slots(o.0.0),
                in_pause,
            ),
    {
        let ghost start: DecState = self.state(meta@, s);
        let slots: Vec<Slot> = objects.iterate_fields(o);
        assert(slots@.subrange(0, slots@.len() as int) =~= slots@);
        let mut i: usize = 0;
        while i < slots.len()
            invariant
                i <= slots@.len(),
                meta.wf(),
                meta@ == start.m,
                slots@ == objects.field_slots(o.0.0),
                objects.fields_valid(start.m),
                self.decs() == old(self).decs(),
                self.counter() == old(self).counter(),
                handed_on_with(old(self).scheduled(), self.scheduled(), old(self).counter()),
                self.state(meta@, s) == children_deferred(
                    start,
                    *objects,
                    slots@.subrange(0, i as int),
                    in_pause,
                ),
            decreases slots@.len() - i,
        {
            let slot: Slot = slots[i];
            proof {
                let next = slots@.subrange(0, i + 1);
                assert(next.drop_last() =~= slots@.subrange(0, i as int));
                assert(next.last() == slot);
                assert(objects.target(objects.field_slots(o.0.0)[i as int]) matches Some(t)
                    ==> start.m.in_heap(t.addr()));
            }
            if let Some(x) = objects.load(slot) {
                let rc: u8 = RefCountHelper.count(meta, x);
                if rc != MAX_REF_COUNT && rc != 0 {
                    self.recursive_dec(x, in_pause);
                }
            }
            i += 1;
        }
    }

    /// Unmarks the lines that a dead object covered, and records its block as possibly dead.
    fn retire(
        &self,
        meta: &mut HeapMetadata,
        objects: &ObjectModel,
        space: &mut ImmixSpace,
        o: ObjectReference,
    )
        requires
            old(meta).wf(),
            old(meta)@.in_heap(o.addr()),
            objects.fits(old(meta)@),
        ensures
            final(meta).wf(),
            self.state(final(meta)@, final(space)@) == block_recorded(
                DecState {
                    m: object_straddle(
                        old(meta)@,
                        o.addr(),
                        objects.size(o.0.0) as int,
                        0,
                    ),
                    ..self.state(old(meta)@, old(space)@)
                },
                block_of(o.addr()),
            ),
    {
        assert(objects.size(o.0.0) > 0 ==> o.addr() + objects.size(o.0.0) <= meta@.end());
        RefCountHelper.unmark_straddle_object(meta, objects, o);
        let block: Block = Block::from_unaligned_address(o.0);
        assert(block == block_of(o.addr()));
        space.add_to_possibly_dead_mature_blocks(meta, block, false);
    }

    /// Deals with an object whose count became zero.
    fn process_dead_object(
        &mut self,
        meta: &mut HeapMetadata,
        objects: &ObjectModel,
        space: &mut ImmixSpace,
        o: ObjectReference,
        in_pause: bool,
    )
        requires
            old(meta).wf(),
            old(meta)@.in_heap(o.addr()),
            objects.fits(old(meta)@),
            objects.fields_valid(old(meta)@),
        ensures
            final(meta).wf(),
            final(self).decs() == old(self).decs(),
            final(self).counter() == old(self).counter(),
            handed_on_with(
                old(self).scheduled(),
                final(self).scheduled(),
                old(self).counter(),
            ),
            final(self).state(final(meta)@, final(space)@) == dead_processed(
                old(self).state(old(meta)@, old(space)@),
                *objects,
                o,
                in_pause,
            ),
    {
        let in_ix_space: bool = meta.space_of(o.0) == SpaceKind::Immix;
        self.defer_children(meta, objects, o, in_pause, Ghost(space@));
        if in_ix_space {
            self.retire(meta, objects, space, o);
        }
    }

    /// Decrements the given objects.
    fn process_decs(
        &mut self,
        meta: &mut HeapMetadata,
        objects: &ObjectModel,
        space: &mut ImmixSpace,
        decs: &Vec<ObjectReference>,
        in_pause: bool,
    )
        requires
            old(meta).wf(),
            objects.fits(old(meta)@),
            objects.fields_valid(old(meta)@),
            all_in_heap(old(meta)@, decs@),
            all_in_heap(old(meta)@, old(self).state(old(meta)@, old(space)@).new_decs),
        ensures
            final(meta).wf(),
            final(self).decs() == old(self).decs(),
            final(self).counter() == old(self).counter(),
            handed_on_with(
                old(self).scheduled(),
                final(self).scheduled(),
                old(self).counter(),
            ),
            final(self).state(final(meta)@, final(space)@) == decs_processed(
                old(self).state(old(meta)@, old(space)@),
                *objects,
                decs@,
                in_pause,
            ),
    {
        let ghost start: DecState = self.state(meta@, space@);
        assert(decs@.subrange(0, decs@.len() as int) =~= decs@);
        let mut i: usize = 0;
        while i < decs.len()
            invariant
                i <= decs@.len(),
                start.m.wf(),
                meta.wf(),
                objects.fits(start.m),
                objects.fields_valid(start.m),
                all_in_heap(start.m, decs@),
                all_in_heap(start.m, start.new_decs),
                self.decs() == old(self).decs(),
                self.counter() == old(self).counter(),
                handed_on_with(old(self).scheduled(), self.scheduled(), old(self).counter()),
                self.state(meta@, space@) == decs_processed(
                    start,
                    *objects,
                    decs@.subrange(0, i as int),
                    in_pause,
                ),
            decreases decs@.len() - i,
        {
            let o: ObjectReference = decs[i];
            proof {
                let done = decs@.subrange(0, i as int);
                let next = decs@.subrange(0, i + 1);
                assert(next.drop_last() =~= done);
                assert(next.last() == o);
                assert forall|j: int| 0 <= j < done.len() implies start.m.in_heap(
                    (#[trigger] done[j]).addr(),
                ) by {
                    assert(done[j] == decs@[j]);
                }
                lemma_decs_processed(start, *objects, done, in_pause);
                assert(objects.fits(meta@));
                assert(objects.fields_valid(meta@));
                assert(start.m.in_heap(decs@[i as int].addr()));
            }
            if let Ok(1) = RefCountHelper.dec(meta, o) {
                assert(objects.fits(meta@));
                assert(objects.fields_valid(meta@));
                self.process_dead_object(meta, objects, space, o, in_pause);
            }
            i += 1;
        }
    }

    /// Performs the decrements of the packet, and those that deaths lead to, until none is left.
    pub fn do_work(
        &mut self,
        meta: &mut HeapMetadata,
        objects: &ObjectModel,
        space: &mut ImmixSpace,
        in_pause: bool,
    )
        requires
            old(meta).wf(),
            objects.fits(old(meta)@),
            objects.fields_valid(old(meta)@),
            all_in_heap(old(meta)@, old(self).decs()),
            all_in_heap(old(meta)@, old(self).state(old(meta)@, old(space)@).new_decs),
        ensures
            final(meta).wf(),
            decs_drained(
                decs_processed(
                    old(self).state(old(meta)@, old(space)@),
                    *objects,
                    old(self).decs(),
                    in_pause,
                ),
                final(self).state(final(meta)@, final(space)@),
                *objects,
                in_pause,
            ),
            final(self).decs() == Seq::<ObjectReference>::empty(),
            final(self).counter() == old(self).counter(),
            handed_on_with(
                old(self).scheduled(),
                final(self).scheduled(),
                old(self).counter(),
            ),
    {
        let ghost start: DecState = self.state(meta@, space@);
        let ghost all: Seq<ObjectReference> = self.decs();
        let taken: Option<Vec<ObjectReference>> = self.decs.take();
        let taken_arc: Option<Arc<Vec<ObjectReference>>> = self.decs_arc.take();
        if let Some(decs) = taken {
            self.process_decs(meta, objects, space, &decs, in_pause);
        } else if let Some(decs) = taken_arc {
            self.process_decs(meta, objects, space, &*decs, in_pause);
        }
        let ghost st: DecState = self.state(meta@, space@);
        assert(st == decs_processed(start, *objects, all, in_pause));
        let ghost mut n: nat = 0;
        proof {
            lemma_decs_processed(start, *objects, all, in_pause);
        }
        while !self.new_decs.is_empty()
            invariant
                meta.wf(),
                st.m.wf(),
                objects.fits(meta@),
                objects.fields_valid(meta@),
                all_in_heap(meta@, self.new_decs@),
                self.decs() == Seq::<ObjectReference>::empty(),
                self.counter() == old(self).counter(),
                handed_on_with(old(self).scheduled(), self.scheduled(), old(self).counter()),
                self.state(meta@, space@) == dec_rounds(st, *objects, in_pause, n),
                forall|k: nat|
                    k < n ==> (#[trigger] dec_rounds(st, *objects, in_pause, k)).new_decs.len() > 0,
            decreases meta@.rc.len() - zeros(meta@.rc), self.new_decs@.len(),
        {
            let ghost before: DecState = self.state(meta@, space@);
            let decs: Vec<ObjectReference> = self.new_decs.take();
            let ghost emptied: DecState = self.state(meta@, space@);
            proof {
                assert(emptied =~= (DecState { new_decs: Seq::empty(), ..before }));
                lemma_decs_processed(emptied, *objects, decs@, in_pause);
            }
            self.process_decs(meta, objects, space, &decs, in_pause);
            proof {
                lemma_zeros(meta@.rc, before.m.rc);
                lemma_zeros_bound(before.m.rc);
                lemma_zeros_bound(meta@.rc);
                n = n + 1;
            }
        }
        self.flush(in_pause);
    }
}

/// Turns the slots of roots into increments. In a pause with a trace the same slots also start
/// the closure that marks.
pub struct RCImmixCollectRootEdges {
    slots: Vec<Slot>,
}

impl RCImmixCollectRootEdges {
    /// The slots.
    pub closed spec fn slots(self) -> Seq<Slot> {
        self.slots@
    }

    /// A packet for the given slots of roots.
    pub fn new(slots: Vec<Slot>) -> (packet: Self)
        ensures
            packet.slots() == slots@,
    {
        RCImmixCollectRootEdges { slots }
    }

    /// Performs the increments of the roots. Returns the slots from which to mark, which go into
    /// the closure stage, and the packets of increments that were handed on.
    pub fn process_slots(
        &mut self,
        meta: &mut HeapMetadata,
        objects: &ObjectModel,
        space: &mut ImmixSpace,
        curr_roots: &mut SegQueue<Vec<usize>>,
        current_pause: Option<Pause>,
    ) -> (work: (Option<Vec<Slot>>, Vec<Vec<Slot>>))
        requires
            old(meta).wf(),
            objects.fits(old(meta)@),
            objects.fields_valid(old(meta)@),
        ensures
            final(meta).wf(),
            final(self).slots() == Seq::<Slot>::empty(),
            work.0 is Some == (old(self).slots().len() > 0 && current_pause == Some(Pause::Full)),
            work.0 matches Some(slots) ==> slots@ == old(self).slots(),
            old(self).slots().len() == 0 ==> final(meta)@ == old(meta)@ && final(space)@ == old(
                space,
            )@ && batches(*final(curr_roots)) == batches(*old(curr_roots)) && work.1@.len() == 0,
            old(self).slots().len() > 0 ==> roots_processed(
                *objects,
                old(self).slots(),
                old(meta)@,
                final(meta)@,
                old(space)@,
                final(space)@,
                batches(*old(curr_roots)),
                batches(*final(curr_roots)),
                slot_packets(work.1@),
            ),
    {
        let mut slots: Vec<Slot> = Vec::new();
        std::mem::swap(&mut slots, &mut self.slots);
        if slots.len() == 0 {
            return (None, Vec::new());
        }
        let full: bool = match current_pause {
            Some(pause) => pause == Pause::Full,
            None => false,
        };
        let mark_roots: Option<Vec<Slot>> = if full {
            Some(copy_slots(&slots))
        } else {
            None
        };
        let scheduled: Vec<Vec<Slot>> = process_roots(meta, objects, space, curr_roots, slots);
        (mark_roots, scheduled)
    }
}

/// The increments of roots were performed: `m`, `s` and `q` are the tables, the space and the
/// batches of root targets before, and `m2`, `s2` and `q2` those after; `packets` were handed on.
/// The targets of the roots themselves are a batch, if there are any.
pub open spec fn roots_processed(
    objects: ObjectModel,
    slots: Seq<Slot>,
    m: MetadataView,
    m2: MetadataView,
    s: ImmixSpaceView,
    s2: ImmixSpaceView,
    q: Seq<Seq<usize>>,
    q2: Seq<Seq<usize>>,
    packets: Seq<Seq<Slot>>,
) -> bool {
    let first = slots_processed(
        IncState {
            m,
            s,
            new_incs: Seq::empty(),
            scheduled: Seq::empty(),
            roots: Seq::empty(),
        },
        EDGE_KIND_ROOT,
        objects,
        slots,
    );
    &&& q2 == if first.roots.len() > 0 {
        q.push(first.roots)
    } else {
        q
    }
    &&& exists|roots: Seq<usize>| #[trigger]
        drained(
            IncState { roots: Seq::empty(), ..first },
            IncState { m: m2, s: s2, new_incs: Seq::empty(), scheduled: packets, roots },
            EDGE_KIND_ROOT,
            objects,
        )
}

/// Performs the increments of the given roots, and returns the packets that were handed on.
fn process_roots(
    meta: &mut HeapMetadata,
    objects: &ObjectModel,
    space: &mut ImmixSpace,
    curr_roots: &mut SegQueue<Vec<usize>>,
    slots: Vec<Slot>,
) -> (packets: Vec<Vec<Slot>>)
    requires
        old(meta).wf(),
        objects.fits(old(meta)@),
        objects.fields_valid(old(meta)@),
    ensures
        final(meta).wf(),
        roots_processed(
            *objects,
            slots@,
            old(meta)@,
            final(meta)@,
            old(space)@,
            final(space)@,
            batches(*old(curr_roots)),
            batches(*final(curr_roots)),
            slot_packets(packets@),
        ),
{
    let ghost all: Seq<Slot> = slots@;
    let mut work: ProcessIncs<EDGE_KIND_ROOT> = ProcessIncs::new(slots);
    let ghost start: IncState = work.state(meta@, space@);
    let ghost first: IncState = slots_processed(start, EDGE_KIND_ROOT, *objects, all);
    work.do_work(meta, objects, space, curr_roots);
    let ghost end: IncState = work.state(meta@, space@);
    let packets: Vec<Vec<Slot>> = work.take_scheduled();
    proof {
        let emptied = IncState { roots: Seq::empty(), ..first };
        if first.roots.len() == 0 {
            assert(first.roots =~= Seq::empty());
            assert(first =~= emptied);
        }
        assert(drained(emptied, end, EDGE_KIND_ROOT, *objects));
        assert(end.new_incs =~= Seq::empty());
        assert(end =~= (IncState {
            m: meta@,
            s: space@,
            new_incs: Seq::empty(),
            scheduled: slot_packets(packets@),
            roots: end.roots,
        }));
    }
    packets
}

/// A copy of the given slots.
fn copy_slots(slots: &Vec<Slot>) -> (copy: Vec<Slot>)
    ensures
        copy@ == slots@,
{
    let mut copy: Vec<Slot> = Vec::new();
    let mut i: usize = 0;
    while i < slots.len()
        invariant
            i <= slots@.len(),
            copy@ == slots@.subrange(0, i as int),
        decreases slots@.len() - i,
    {
        copy.push(slots[i]);
        i += 1;
    }
    assert(copy@ =~= slots@);
    copy
}

/// What keeping an object alive works on: the tables and the space, and the objects that are
/// still to be visited.
#[verifier::ext_equal]
pub ghost struct KeepState {
    /// The tables.
    pub m: MetadataView,
    /// The space.
    pub s: ImmixSpaceView,
    /// The objects that are still to be visited; the last one is next.
    pub worklist: Seq<ObjectReference>,
}

/// After the given fields of an object that is kept alive: each is unlogged, and its target is
/// left to be visited.
pub open spec fn fields_kept(st: KeepState, objects: ObjectModel, slots: Seq<Slot>) -> KeepState
    decreases slots.len(),
{
    if slots.len() == 0 {
        st
    } else {
        let before = fields_kept(st, objects, slots.drop_last());
        KeepState {
            m: slot_unlogged(before.m, slots.last().0.0 as int),
            worklist: match objects.target(slots.last()) {
                Some(target) => before.worklist.push(target),
                None => before.worklist,
            },
            ..before
        }
    }
}

/// After an object got its first count: it is promoted, and its fields are gone through.
pub open spec fn object_kept(st: KeepState, objects: ObjectModel, o: ObjectReference) -> KeepState {
    fields_kept(
        if st.m.space_of(o.addr()) == SpaceKind::Immix {
            KeepState {
                m: promoted_tables(st.m, o.addr(), objects.size(o.0.0) as int),
                s: promoted_space(st.m, st.s, o.addr()),
                ..st
            }
        } else {
            KeepState { m: slot_unlogged(st.m, o.addr()), ..st }
        },
        objects,
        objects.field_slots(o.0.0),
    )
}

/// After the next object was visited: its count is incremented, and if the count was zero, its
/// fields are gone through. What is not in a space is left alone.
pub open spec fn keep_step(st: KeepState, objects: ObjectModel) -> KeepState {
    let o = st.worklist.last();
    let rest = KeepState { worklist: st.worklist.drop_last(), ..st };
    if !st.m.in_spaces(o.addr()) {
        rest
    } else {
        let counted = KeepState { m: incremented(st.m, o.addr()), ..rest };
        if count_of(st.m, o.addr()) == 0 {
            object_kept(counted, objects, o)
        } else {
            counted
        }
    }
}

/// After `n` objects were visited.
pub open spec fn keep_steps(st: KeepState, objects: ObjectModel, n: nat) -> KeepState
    decreases n,
{
    if n == 0 {
        st
    } else {
        keep_step(keep_steps(st, objects, (n - 1) as nat), objects)
    }
}

/// `after` is what is left of `before` when objects were visited until none was left.
pub open spec fn kept_alive(before: KeepState, after: KeepState, objects: ObjectModel) -> bool {
    &&& after.worklist.len() == 0
    &&& exists|n: nat|
        #![trigger keep_steps(before, objects, n)]
        after == keep_steps(before, objects, n) && forall|k: nat|
            k < n ==> (#[trigger] keep_steps(before, objects, k)).worklist.len() > 0
}

pub proof fn lemma_fields_kept(st: KeepState, objects: ObjectModel, slots: Seq<Slot>)
    requires
        st.m.wf(),
    ensures
        grows(st.m, fields_kept(st, objects, slots).m),
        fields_kept(st, objects, slots).m.rc == st.m.rc,
        fields_kept(st, objects, slots).m.block_mark == st.m.block_mark,
        fields_kept(st, objects, slots).m.block_promoted == st.m.block_promoted,
        forall|i: int|
            0 <= i < slots.len() ==> (objects.target(#[trigger] slots[i]) matches Some(t)
                ==> fields_kept(st, objects, slots).worklist.contains(t)),
        forall|t: ObjectReference|
            st.worklist.contains(t) ==> #[trigger] fields_kept(
                st,
                objects,
                slots,
            ).worklist.contains(t),
        forall|t: ObjectReference| #[trigger]
            fields_kept(st, objects, slots).worklist.contains(t) ==> st.worklist.contains(t)
                || exists|i: int|
                0 <= i < slots.len() && objects.target(#[trigger] slots[i]) == Some(t),
    decreases slots.len(),
{
    if slots.len() > 0 {
        let less = slots.drop_last();
        lemma_fields_kept(st, objects, less);
        assert forall|t: ObjectReference| #[trigger]
            fields_kept(st, objects, slots).worklist.contains(t) implies st.worklist.contains(t)
            || exists|i: int|
            0 <= i < slots.len() && objects.target(#[trigger] slots[i]) == Some(t) by {
            let before = fields_kept(st, objects, less);
            let after = fields_kept(st, objects, slots);
            let k = choose|k: int| 0 <= k < after.worklist.len() && after.worklist[k] == t;
            if k < before.worklist.len() {
                assert(before.worklist[k] == t);
                assert(before.worklist.contains(t));
                if !st.worklist.contains(t) {
                    let i = choose|i: int|
                        0 <= i < less.len() && objects.target(#[trigger] less[i]) == Some(t);
                    assert(slots[i] == less[i]);
                }
            } else {
                assert(objects.target(slots[slots.len() - 1]) == Some(t));
            }
        }
        let before = fields_kept(st, objects, less);
        let after = fields_kept(st, objects, slots);
        assert forall|t: ObjectReference| before.worklist.contains(
            t,
        ) implies #[trigger] after.worklist.contains(t) by {
            let k = choose|k: int| 0 <= k < before.worklist.len() && before.worklist[k] == t;
            assert(after.worklist[k] == t);
        }
        assert forall|i: int| 0 <= i < slots.len() implies (objects.target(
            #[trigger] slots[i],
        ) matches Some(t) ==> after.worklist.contains(t)) by {
            if i < less.len() {
                assert(less[i] == slots[i]);
            } else if let Some(t) = objects.target(slots[i]) {
                assert(after.worklist[after.worklist.len() - 1] == t);
            }
        }
    }
}

pub proof fn lemma_keep_step(st: KeepState, objects: ObjectModel)
    requires
        st.m.wf(),
        objects.fits(st.m),
        st.worklist.len() > 0,
    ensures
        grows(st.m, keep_step(st, objects).m),
        keep_step(st, objects).worklist == st.worklist.drop_last() || gained(
            st.m,
            keep_step(st, objects).m,
        ),
{
    let o = st.worklist.last();
    if st.m.in_spaces(o.addr()) {
        let counted = KeepState {
            m: incremented(st.m, o.addr()),
            worklist: st.worklist.drop_last(),
            ..st
        };
        assert(grows(st.m, counted.m));
        if count_of(st.m, o.addr()) == 0 {
            let size = objects.size(o.0.0) as int;
            assert(objects.size(o.0.0) > 0 ==> o.addr() + size <= st.m.end());
            assert(counted.m.rc[st.m.cell(o.addr())] != 0);
            assert(gained(st.m, counted.m));
            let placed = if counted.m.space_of(o.addr()) == SpaceKind::Immix {
                KeepState {
                    m: promoted_tables(counted.m, o.addr(), size),
                    s: promoted_space(counted.m, counted.s, o.addr()),
                    ..counted
                }
            } else {
                KeepState { m: slot_unlogged(counted.m, o.addr()), ..counted }
            };
            assert(grows(counted.m, placed.m));
            lemma_grows_chain(st.m, counted.m, placed.m);
            lemma_fields_kept(placed, objects, objects.field_slots(o.0.0));
            lemma_grows_chain(
                st.m,
                placed.m,
                fields_kept(placed, objects, objects.field_slots(o.0.0)).m,
            );
        }
    }
}

/// Keeps an object and what it reaches alive, outside a collection. Each object that is visited is
/// incremented; one that had no count is promoted, and its children are visited, too.
pub fn lxr_keep_alive_recursive(
    meta: &mut HeapMetadata,
    objects: &ObjectModel,
    space: &mut ImmixSpace,
    root: ObjectReference,
)
    requires
        old(meta).wf(),
        objects.fits(old(meta)@),
    ensures
        final(meta).wf(),
        exists|end: KeepState| #[trigger]
            kept_alive(
                KeepState { m: old(meta)@, s: old(space)@, worklist: seq![root] },
                end,
                *objects,
            ) && end.m == final(meta)@ && end.s == final(space)@,
{
    let mut worklist: Vec<ObjectReference> = Vec::new();
    worklist.push(root);
    let ghost start: KeepState = KeepState { m: meta@, s: space@, worklist: seq![root] };
    assert(worklist@ =~= seq![root]);
    let ghost mut n: nat = 0;
    while worklist.len() > 0
        invariant
            meta.wf(),
            objects.fits(meta@),
            keep_steps(start, *objects, n) == (KeepState {
                m: meta@,
                s: space@,
                worklist: worklist@,
            }),
            forall|k: nat| k < n ==> (#[trigger] keep_steps(start, *objects, k)).worklist.len() > 0,
        decreases zeros(meta@.rc), worklist@.len(),
    {
        let ghost before: KeepState = KeepState { m: meta@, s: space@, worklist: worklist@ };
        proof {
            lemma_keep_step(before, *objects);
            lemma_zeros(before.m.rc, keep_step(before, *objects).m.rc);
            n = n + 1;
            assert(keep_steps(start, *objects, n) == keep_step(before, *objects));
        }
        let popped: Option<ObjectReference> = worklist.pop();
        let o: ObjectReference = popped.unwrap();
        if !meta.is_in_mmtk_spaces(o) {
            continue;
        }
        let first: bool = match RefCountHelper.inc(meta, o) {
            Ok(count) => count == 0,
            Err(_) => false,
        };
        if !first {
            continue;
        }
        let in_immix: bool = meta.space_of(o.0) == SpaceKind::Immix;
        assert(objects.fits(meta@));
        if in_immix {
            promote_in_place(meta, objects, space, o, true);
        } else {
            unlog_field_in_space(meta, o.0);
        }
        keep_fields(meta, objects, o, &mut worklist, Ghost(space@));
    }
    proof {
        let end = KeepState { m: meta@, s: space@, worklist: worklist@ };
        assert(kept_alive(start, end, *objects));
    }
}

/// Unlogs the fields of an object, and leaves their targets to be visited.
fn keep_fields(
    meta: &mut HeapMetadata,
    objects: &ObjectModel,
    o: ObjectReference,
    worklist: &mut Vec<ObjectReference>,
    Ghost(s): Ghost<ImmixSpaceView>,
)
    requires
        old(meta).wf(),
    ensures
        final(meta).wf(),
        fields_kept(
            KeepState { m: old(meta)@, s, worklist: old(worklist)@ },
            *objects,
            objects.field_slots(o.0.0),
        ) == (KeepState { m: final(meta)@, s, worklist: final(worklist)@ }),
{
    let ghost start: KeepState = KeepState { m: meta@, s, worklist: worklist@ };
    let slots: Vec<Slot> = objects.iterate_fields(o);
    assert(slots@.subrange(0, slots@.len() as int) =~= slots@);
    let mut i: usize = 0;
    while i < slots.len()
        invariant
            i <= slots@.len(),
            meta.wf(),
            fields_kept(start, *objects, slots@.subrange(0, i as int)) == (KeepState {
                m: meta@,
                s,
                worklist: worklist@,
            }),
        decreases slots@.len() - i,
    {
        let slot: Slot = slots[i];
        proof {
            let next = slots@.subrange(0, i + 1);
            assert(next.drop_last() =~= slots@.subrange(0, i as int));
            assert(next.last() == slot);
        }
        unlog_field_in_space(meta, slot.0);
        if let Some(target) = objects.load(slot) {
            worklist.push(target);
        }
        i += 1;
    }
}

} // verus!
