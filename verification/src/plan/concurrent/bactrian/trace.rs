//! The trace of the pauses that collect the nursery.
//!
//! Young objects are copied, and what they refer to is traced in turn. The first pause of a cycle
//! also collects the mature objects that the trace meets, as seeds for the marker; the last pause
//! marks those that the marker has missed.

use crate::args::Environment;
use crate::plan::concurrent::bactrian::barrier::{addresses, object_addresses};
use crate::plan::concurrent::bactrian::global::{copied_young, scanned, Bactrian, BactrianView};
use crate::plan::concurrent::bactrian::settings::{age_setting, oldify_on, up_oldify_enabled};
use crate::plan::concurrent::bactrian::young::CommonView;
use crate::plan::concurrent::global::ConcurrentPlan;
use crate::plan::concurrent::Pause;
use crate::policy::immix::immixspace::{with_mark, ImmixSpaceView};
use crate::util::address::{Address, ObjectReference};
use crate::util::constants::MIN_OBJECT_SIZE;
use crate::util::metadata::{HeapMetadata, MetadataView, SpaceKind};
use crate::util::object_forwarding;
use crate::util::object_forwarding::{
    bits_shift, can_hold, forwarded, law_forwarded_object_is_found, pointer_of, status, with_bits,
    BEING_FORWARDED, FORWARDED, FORWARDING_NOT_TRIGGERED_YET,
};
use crate::util::side_metadata::{lemma_zeros, zeros};
use crate::util::vm::{ObjectModel, Slot, VmConfig};
use std::collections::{HashMap, HashSet};
use vstd::prelude::*;

verus! {

broadcast use vstd::std_specs::hash::group_hash_axioms;

/// How many seeds make a packet for the marker.
pub const SEED_CAPACITY: usize = 4096;

/// Where young objects are copied to: the address of each, and the address of its copy.
pub struct CopyTargets {
    /// The addresses.
    pub to: HashMap<usize, usize>,
}

impl CopyTargets {
    /// No addresses.
    pub fn new() -> (targets: Self)
        ensures
            targets.to@ == Map::<usize, usize>::empty(),
    {
        CopyTargets { to: HashMap::new() }
    }

    /// Where an object is copied to.
    pub fn target(&self, object: ObjectReference) -> (copy: ObjectReference)
        requires
            self.to@.dom().contains(object.0.0),
        ensures
            copy == copy_of(self.to@, object.0.0),
    {
        match self.to.get(&object.0.0) {
            Some(address) => ObjectReference(Address(*address)),
            None => object,
        }
    }
}

/// Where the object at an address is copied to.
pub open spec fn copy_of(copies: Map<usize, usize>, address: usize) -> ObjectReference {
    ObjectReference(Address(copies[address]))
}

/// What stays the same during the trace of a pause.
pub ghost struct TraceContext {
    /// The runtime's layout of metadata.
    pub vm: VmConfig,
    /// The first space of aged objects is emptied.
    pub aged0_emptied: bool,
    /// The second space of aged objects is emptied.
    pub aged1_emptied: bool,
    /// Survivors of the nursery stay young.
    pub aging: bool,
    /// Marking happens in slices within pauses.
    pub sliced: bool,
    /// The pause.
    pub pause: Pause,
    /// Where young objects are copied to.
    pub copies: Map<usize, usize>,
}

/// What a trace works on.
pub ghost struct TraceState {
    /// The tables.
    pub m: MetadataView,
    /// The mature space.
    pub s: ImmixSpaceView,
    /// The common spaces.
    pub common: CommonView,
    /// The marking packets that the plan has parked.
    pub parked: Seq<(bool, Seq<usize>)>,
    /// The packets for the bucket of work beside the mutators.
    pub concurrent: Seq<Seq<usize>>,
    /// What each slot refers to.
    pub slots: Map<usize, usize>,
    /// The objects whose fields are to be scanned.
    pub nodes: Seq<ObjectReference>,
    /// The seeds for the marker.
    pub seed: Seq<ObjectReference>,
}

/// The plan with the parts that a trace changes.
pub open spec fn plan_of(v: BactrianView, st: TraceState) -> BactrianView {
    BactrianView { s: st.s, common: st.common, parked_marking: st.parked, ..v }
}

/// What stays the same during the trace of a pause.
pub open spec fn context_of(v: BactrianView, pause: Pause, copies: Map<usize, usize>) -> TraceContext {
    TraceContext {
        vm: v.s.vm,
        aged0_emptied: v.aged0.from_space,
        aged1_emptied: v.aged1.from_space,
        aging: v.aging_this_gc,
        sliced: v.sliced_marking,
        pause,
        copies,
    }
}

/// What a slot refers to.
pub open spec fn target_of(slots: Map<usize, usize>, slot: Slot) -> Option<ObjectReference> {
    if slots.dom().contains(slot.0.0) && slots[slot.0.0] != 0 {
        Some(ObjectReference(Address(slots[slot.0.0])))
    } else {
        None
    }
}

impl TraceContext {
    /// Objects are copied out of a space.
    pub open spec fn emptied(self, space: SpaceKind) -> bool {
        match space {
            SpaceKind::Nursery => true,
            SpaceKind::Aged0 => self.aged0_emptied,
            SpaceKind::Aged1 => self.aged1_emptied,
            _ => false,
        }
    }

    /// Copies out of a space go into the mature space. Those out of the nursery do not while
    /// survivors stay young.
    pub open spec fn promotes(self, space: SpaceKind) -> bool {
        space != SpaceKind::Nursery || !self.aging
    }

    /// An object is copied when the trace meets it: it is in a space that is emptied, and was not
    /// copied before.
    pub open spec fn copies_now(self, st: TraceState, o: ObjectReference) -> bool {
        &&& self.emptied(st.m.space_of(o.addr()))
        &&& status(self.vm, st.m, o.addr()) == FORWARDING_NOT_TRIGGERED_YET
    }

    /// What the trace of a young object returns: its copy. Any other object is returned itself.
    pub open spec fn young_result(self, st: TraceState, o: ObjectReference) -> ObjectReference {
        if !self.emptied(st.m.space_of(o.addr())) {
            o
        } else if self.copies_now(st, o) {
            copy_of(self.copies, o.0.0)
        } else {
            pointer_of(self.vm, st.m, o.addr())
        }
    }

    /// The tables after an object was copied.
    pub open spec fn copied(self, st: TraceState, o: ObjectReference) -> MetadataView {
        let new = copy_of(self.copies, o.0.0);
        forwarded(
            self.vm,
            if self.promotes(st.m.space_of(o.addr())) {
                st.s.copied_to(st.m, new.addr())
            } else {
                st.m
            },
            o.addr(),
            new,
        )
    }

    /// After the trace of a young object. A large object is promoted where it is.
    pub open spec fn young_traced(self, st: TraceState, o: ObjectReference) -> TraceState {
        if self.copies_now(st, o) {
            TraceState {
                m: self.copied(st, o),
                nodes: st.nodes.push(copy_of(self.copies, o.0.0)),
                ..st
            }
        } else if st.m.space_of(o.addr()) == SpaceKind::LargeObject {
            TraceState {
                common: st.common.traced(o),
                nodes: st.common.queue_traced(st.nodes, o),
                ..st
            }
        } else {
            st
        }
    }

    /// The trace has met a mature object in a pause that also marks.
    pub open spec fn meets_mature(self, st: TraceState, o: ObjectReference) -> bool {
        let after = self.young_traced(st, o);
        let space = st.m.space_of(o.addr());
        &&& self.pause == Pause::InitialMark || self.pause == Pause::FinalMark
        &&& self.young_result(st, o) == o
        &&& !copied_young(space)
        &&& !(space == SpaceKind::LargeObject && after.common.young.contains(o.0.0))
    }

    /// After the seeds were handed to the marker.
    pub open spec fn seed_flushed(self, st: TraceState) -> TraceState {
        let packet = object_addresses(st.seed);
        TraceState {
            seed: Seq::empty(),
            parked: if st.seed.len() > 0 && self.sliced {
                st.parked.push((false, packet))
            } else {
                st.parked
            },
            concurrent: if st.seed.len() > 0 && !self.sliced {
                st.concurrent.push(packet)
            } else {
                st.concurrent
            },
            ..st
        }
    }

    /// After an object became a seed.
    pub open spec fn seeded(self, st: TraceState, o: ObjectReference) -> TraceState {
        let pushed = TraceState { seed: st.seed.push(o), ..st };
        if pushed.seed.len() >= SEED_CAPACITY {
            self.seed_flushed(pushed)
        } else {
            pushed
        }
    }

    /// After a mature object of `size` bytes was marked, if it was not before.
    pub open spec fn marked(self, st: TraceState, o: ObjectReference, size: usize) -> TraceState {
        if st.m.space_of(o.addr()) == SpaceKind::Immix {
            if st.s.marked(st.m, o.addr()) {
                st
            } else {
                TraceState {
                    m: st.s.unlogged_if_needed(
                        with_mark(st.m, o.addr(), st.s.mark_state),
                        o.addr(),
                    ),
                    s: st.s.with_live_bytes(size),
                    nodes: st.nodes.push(o),
                    ..st
                }
            }
        } else {
            TraceState {
                common: st.common.traced(o),
                nodes: st.common.queue_traced(st.nodes, o),
                ..st
            }
        }
    }

    /// After the trace of an object of `size` bytes.
    pub open spec fn traced(self, st: TraceState, o: ObjectReference, size: usize) -> TraceState {
        let after = self.young_traced(st, o);
        if !self.meets_mature(st, o) {
            after
        } else if self.pause == Pause::InitialMark {
            self.seeded(after, o)
        } else {
            self.marked(after, o, size)
        }
    }

    /// After what a slot refers to was traced. The slot refers to the copy then.
    pub open spec fn slot_processed(self, st: TraceState, objects: ObjectModel, slot: Slot) -> TraceState {
        match target_of(st.slots, slot) {
            None => st,
            Some(o) => {
                let after = self.traced(st, o, objects.size(o.0.0));
                let new = self.young_result(st, o);
                TraceState {
                    slots: if new != o {
                        after.slots.insert(slot.0.0, new.0.0)
                    } else {
                        after.slots
                    },
                    ..after
                }
            },
        }
    }

    /// After what the given slots refer to was traced.
    pub open spec fn slots_processed(
        self,
        st: TraceState,
        objects: ObjectModel,
        slots: Seq<Slot>,
    ) -> TraceState
        decreases slots.len(),
    {
        if slots.len() == 0 {
            st
        } else {
            self.slot_processed(
                self.slots_processed(st, objects, slots.drop_last()),
                objects,
                slots.last(),
            )
        }
    }

    /// An object can be traced: it is an aligned object of the heap, and if it is in a space that
    /// is emptied, it has a place to be copied to outside such spaces, which its forwarding
    /// pointer can hold.
    pub open spec fn traceable(self, m: MetadataView, address: usize) -> bool {
        &&& m.in_heap(address as int)
        &&& address as int % MIN_OBJECT_SIZE as int == 0
        &&& self.emptied(m.space_of(address as int)) ==> {
            let new = copy_of(self.copies, address);
            &&& self.copies.dom().contains(address)
            &&& m.in_heap(new.addr())
            &&& new.addr() % MIN_OBJECT_SIZE as int == 0
            &&& !self.emptied(m.space_of(new.addr()))
            &&& can_hold(self.vm, new)
        }
    }

    /// The forwarding state of an object is settled: nobody is copying it, and if it was copied,
    /// then to its place.
    pub open spec fn settled(self, m: MetadataView, address: usize) -> bool {
        &&& status(self.vm, m, address as int) == FORWARDING_NOT_TRIGGERED_YET || status(
            self.vm,
            m,
            address as int,
        ) == FORWARDED
        &&& status(self.vm, m, address as int) == FORWARDED ==> pointer_of(
            self.vm,
            m,
            address as int,
        ) == copy_of(self.copies, address)
    }

    /// Every object that can be traced out of a space that is emptied is settled.
    pub open spec fn all_settled(self, m: MetadataView) -> bool {
        forall|address: usize|
            #![trigger self.traceable(m, address)]
            self.traceable(m, address) && self.emptied(m.space_of(address as int))
                ==> self.settled(m, address)
    }

    /// Every slot refers to an object that can be traced, or to none.
    pub open spec fn slots_traceable(self, st: TraceState) -> bool {
        forall|slot: usize|
            #![trigger st.slots[slot]]
            st.slots.dom().contains(slot) && st.slots[slot] != 0 ==> self.traceable(
                st.m,
                st.slots[slot],
            )
    }

    /// The state fits the context.
    pub open spec fn fits(self, st: TraceState) -> bool {
        &&& st.m.wf()
        &&& st.s.vm == self.vm
        &&& st.s.mark_state == 1
        &&& !st.s.rc_enabled
        &&& st.common.untraced.finite()
        &&& forall|i: int| 0 <= i < st.m.mark.len() ==> #[trigger] st.m.mark[i] <= 1
        &&& forall|i: int|
            0 <= i < st.nodes.len() ==> st.m.in_heap((#[trigger] st.nodes[i]).addr())
        &&& self.all_settled(st.m)
        &&& self.slots_traceable(st)
    }

    /// After the fields of an object were scanned: its lines are marked, and what its slots refer
    /// to is traced.
    pub open spec fn object_scanned(
        self,
        st: TraceState,
        objects: ObjectModel,
        o: ObjectReference,
    ) -> TraceState {
        self.slots_processed(
            TraceState { m: scanned(st.s, st.m, o, objects.size(o.0.0)), ..st },
            objects,
            objects.field_slots(o.0.0),
        )
    }

    /// After the first `n` queued objects were scanned, in the order of the queue. Those whose
    /// slots the runtime cannot tell are passed over.
    pub open spec fn nodes_scanned(
        self,
        st: TraceState,
        objects: ObjectModel,
        no_slots: Set<usize>,
        n: nat,
    ) -> TraceState
        decreases n,
    {
        if n == 0 {
            st
        } else {
            let before = self.nodes_scanned(st, objects, no_slots, (n - 1) as nat);
            let o = before.nodes[n - 1];
            if no_slots.contains(o.0.0) {
                before
            } else {
                self.object_scanned(before, objects, o)
            }
        }
    }

    /// A slot refers to no object of a space that is emptied.
    pub open spec fn slot_clean(self, st: TraceState, slot: Slot) -> bool {
        target_of(st.slots, slot) matches Some(o) ==> !self.emptied(st.m.space_of(o.addr()))
    }
}

/// Those of the first `n` objects whose slots the runtime cannot tell.
pub open spec fn passed_over(nodes: Seq<ObjectReference>, no_slots: Set<usize>, n: nat) -> Seq<
    ObjectReference,
>
    decreases n,
{
    if n == 0 {
        Seq::empty()
    } else {
        let before = passed_over(nodes, no_slots, (n - 1) as nat);
        if no_slots.contains(nodes[n - 1].0.0) {
            before.push(nodes[n - 1])
        } else {
            before
        }
    }
}

/// The forwarding status of every object.
pub open spec fn statuses(vm: VmConfig, m: MetadataView) -> Seq<u8> {
    Seq::new(m.forwarding_word.len(), |i: int| status(vm, m, m.start + i * MIN_OBJECT_SIZE))
}

/// How many objects may still be queued.
pub open spec fn room(vm: VmConfig, st: TraceState) -> nat {
    zeros(statuses(vm, st.m)) + zeros(st.m.mark) + st.common.untraced.len()
}

/// The forwarding state is as before.
pub open spec fn same_forwarding(m: MetadataView, m2: MetadataView) -> bool {
    &&& m2.start == m.start
    &&& m2.chunks == m.chunks
    &&& m2.spaces == m.spaces
    &&& m2.forwarding_bits == m.forwarding_bits
    &&& m2.forwarding_word == m.forwarding_word
}

/// The position of an address in the tables, and the address that the position stands for.
pub proof fn lemma_cell(m: MetadataView, address: int)
    requires
        m.wf(),
        m.in_heap(address),
    ensures
        0 <= m.cell(address) < m.mark.len(),
        m.cell(m.start + m.cell(address) * MIN_OBJECT_SIZE) == m.cell(address),
        address % MIN_OBJECT_SIZE as int == 0 ==> address == m.start + m.cell(address)
            * MIN_OBJECT_SIZE,
{
}

/// Marks and lines do not touch the forwarding state.
proof fn lemma_same_forwarding(ctx: TraceContext, m: MetadataView, m2: MetadataView)
    requires
        same_forwarding(m, m2),
    ensures
        ctx.all_settled(m) ==> ctx.all_settled(m2),
        statuses(ctx.vm, m2) == statuses(ctx.vm, m),
        forall|address: usize| #[trigger]
            ctx.traceable(m2, address) == ctx.traceable(m, address),
{
    assert(statuses(ctx.vm, m2) =~= statuses(ctx.vm, m));
    assert forall|address: usize| #[trigger]
        ctx.traceable(m2, address) == ctx.traceable(m, address) by {
        assert(m2.space_of(address as int) == m.space_of(address as int));
    }
    if ctx.all_settled(m) {
        assert forall|address: usize|
            #![trigger ctx.traceable(m2, address)]
            ctx.traceable(m2, address) && ctx.emptied(
                m2.space_of(address as int),
            ) implies ctx.settled(m2, address) by {
            assert(ctx.traceable(m, address));
            assert(ctx.settled(m, address));
        }
    }
}

/// A mark that is set is not counted as missing any more.
proof fn lemma_mark_set(m: MetadataView, address: int)
    requires
        m.wf(),
        m.in_heap(address),
        forall|i: int| 0 <= i < m.mark.len() ==> #[trigger] m.mark[i] <= 1,
    ensures
        zeros(with_mark(m, address, 1).mark) <= zeros(m.mark),
        m.mark[m.cell(address)] != 1 ==> zeros(with_mark(m, address, 1).mark) < zeros(m.mark),
        forall|i: int|
            0 <= i < m.mark.len() ==> #[trigger] with_mark(m, address, 1).mark[i] <= 1,
{
    let after = with_mark(m, address, 1).mark;
    lemma_cell(m, address);
    lemma_zeros(m.mark, after);
    if m.mark[m.cell(address)] != 1 {
        assert(m.mark[m.cell(address)] == 0 && after[m.cell(address)] != 0);
    }
}

/// Where an object is copied to, its mark is set, and the rest stays.
pub proof fn lemma_copied_to(ctx: TraceContext, st: TraceState, address: int)
    requires
        ctx.fits(st),
        st.m.in_heap(address),
    ensures
        ({
            let m2 = st.s.copied_to(st.m, address);
            &&& same_forwarding(st.m, m2)
            &&& m2.wf()
            &&& zeros(m2.mark) <= zeros(st.m.mark)
            &&& forall|i: int| 0 <= i < m2.mark.len() ==> #[trigger] m2.mark[i] <= 1
        }),
{
    lemma_mark_set(st.m, address);
}

/// The copy of an object settles its forwarding state, and leaves that of the others alone.
proof fn lemma_forwarded(ctx: TraceContext, m: MetadataView, o: ObjectReference)
    requires
        m.wf(),
        ctx.all_settled(m),
        ctx.traceable(m, o.0.0),
        ctx.emptied(m.space_of(o.addr())),
        status(ctx.vm, m, o.addr()) == FORWARDING_NOT_TRIGGERED_YET,
    ensures
        ({
            let m2 = forwarded(ctx.vm, m, o.addr(), copy_of(ctx.copies, o.0.0));
            &&& m2.wf()
            &&& m2.mark == m.mark
            &&& m2.start == m.start
            &&& m2.chunks == m.chunks
            &&& m2.spaces == m.spaces
            &&& ctx.all_settled(m2)
            &&& zeros(statuses(ctx.vm, m2)) < zeros(statuses(ctx.vm, m))
            &&& forall|address: usize| #[trigger]
                ctx.traceable(m2, address) == ctx.traceable(m, address)
        }),
{
    let new = copy_of(ctx.copies, o.0.0);
    let m2 = forwarded(ctx.vm, m, o.addr(), new);
    let k = m.cell(o.addr());
    lemma_cell(m, o.addr());
    law_forwarded_object_is_found(ctx.vm, m, o.addr(), new);
    assert forall|address: usize| #[trigger]
        ctx.traceable(m2, address) == ctx.traceable(m, address) by {
        assert(m2.space_of(address as int) == m.space_of(address as int));
    }
    assert forall|address: usize|
        #![trigger ctx.traceable(m2, address)]
        ctx.traceable(m2, address) && ctx.emptied(m2.space_of(address as int)) implies ctx.settled(
        m2,
        address,
    ) by {
        assert(ctx.traceable(m, address));
        assert(ctx.settled(m, address));
        lemma_cell(m, address as int);
        if m.cell(address as int) == k {
            assert(address == o.0.0);
        }
    }
    let before = statuses(ctx.vm, m);
    let after = statuses(ctx.vm, m2);
    assert forall|i: int| 0 <= i < before.len() implies #[trigger] after[i] == (if i == k {
        FORWARDED
    } else {
        before[i]
    }) by {
        assert(m.cell(m.start + i * MIN_OBJECT_SIZE) == i);
    }
    assert(before[k] == 0) by {
        assert(m.cell(m.start + k * MIN_OBJECT_SIZE) == k);
    }
    assert(after[k] != 0);
    lemma_zeros(before, after);
}

/// The trace of a young object leaves a fitting state, and queues no more objects than it takes
/// from those that may still be queued.
pub proof fn lemma_young_traced(ctx: TraceContext, st: TraceState, o: ObjectReference)
    requires
        ctx.fits(st),
        ctx.traceable(st.m, o.0.0),
    ensures
        ctx.fits(ctx.young_traced(st, o)),
        ctx.traceable(ctx.young_traced(st, o).m, o.0.0),
        ctx.young_traced(st, o).m.space_of(o.addr()) == st.m.space_of(o.addr()),
        ctx.traceable(ctx.young_traced(st, o).m, ctx.young_result(st, o).0.0),
        ctx.young_traced(st, o).nodes.len() + room(ctx.vm, ctx.young_traced(st, o))
            <= st.nodes.len() + room(ctx.vm, st),
{
    let after = ctx.young_traced(st, o);
    let space = st.m.space_of(o.addr());
    if ctx.emptied(space) {
        assert(ctx.settled(st.m, o.0.0));
    }
    if ctx.copies_now(st, o) {
        let new = copy_of(ctx.copies, o.0.0);
        let base = if ctx.promotes(space) {
            st.s.copied_to(st.m, new.addr())
        } else {
            st.m
        };
        lemma_copied_to(ctx, st, new.addr());
        lemma_same_forwarding(ctx, st.m, base);
        assert(ctx.traceable(base, o.0.0));
        assert(base.space_of(o.addr()) == space);
        lemma_forwarded(ctx, base, o);
        assert(ctx.slots_traceable(after)) by {
            assert forall|slot: usize|
                #![trigger after.slots[slot]]
                after.slots.dom().contains(slot) && after.slots[slot] != 0 implies ctx.traceable(
                after.m,
                after.slots[slot],
            ) by {
                assert(ctx.traceable(st.m, st.slots[slot]));
                assert(ctx.traceable(base, st.slots[slot]));
            }
        }
        assert(ctx.traceable(base, new.0.0)) by {
            assert(ctx.traceable(st.m, new.0.0));
        }
        assert(ctx.traceable(after.m, o.0.0));
    } else if space == SpaceKind::LargeObject {
        assert(ctx.slots_traceable(after));
    } else if ctx.emptied(space) {
        assert(ctx.young_result(st, o) == copy_of(ctx.copies, o.0.0));
        assert(ctx.traceable(st.m, ctx.young_result(st, o).0.0));
    }
}

/// Seeds change nothing but the packets for the marker.
proof fn lemma_seeded(ctx: TraceContext, st: TraceState, o: ObjectReference)
    requires
        ctx.fits(st),
    ensures
        ctx.fits(ctx.seeded(st, o)),
        ctx.fits(ctx.seed_flushed(st)),
        ctx.seeded(st, o).m == st.m,
        ctx.seed_flushed(st).m == st.m,
        ctx.seeded(st, o).nodes == st.nodes,
        ctx.seed_flushed(st).nodes == st.nodes,
        room(ctx.vm, ctx.seeded(st, o)) == room(ctx.vm, st),
        room(ctx.vm, ctx.seed_flushed(st)) == room(ctx.vm, st),
{
}

/// Marking a mature object leaves a fitting state, and queues no more objects than it takes from
/// those that may still be queued.
proof fn lemma_marked(ctx: TraceContext, st: TraceState, o: ObjectReference, size: usize)
    requires
        ctx.fits(st),
        st.m.in_heap(o.addr()),
    ensures
        ctx.fits(ctx.marked(st, o, size)),
        same_forwarding(st.m, ctx.marked(st, o, size).m),
        ctx.marked(st, o, size).nodes.len() + room(ctx.vm, ctx.marked(st, o, size))
            <= st.nodes.len() + room(ctx.vm, st),
{
    let after = ctx.marked(st, o, size);
    if st.m.space_of(o.addr()) == SpaceKind::Immix {
        if !st.s.marked(st.m, o.addr()) {
            lemma_mark_set(st.m, o.addr());
            lemma_same_forwarding(ctx, st.m, after.m);
            assert(ctx.slots_traceable(after)) by {
                assert forall|slot: usize|
                    #![trigger after.slots[slot]]
                    after.slots.dom().contains(slot) && after.slots[slot]
                        != 0 implies ctx.traceable(after.m, after.slots[slot]) by {
                    assert(ctx.traceable(st.m, st.slots[slot]));
                }
            }
            assert(after.m.wf());
        }
    }
}

/// The trace of an object leaves a fitting state, and queues no more objects than it takes from
/// those that may still be queued.
pub proof fn lemma_traced(ctx: TraceContext, st: TraceState, o: ObjectReference, size: usize)
    requires
        ctx.fits(st),
        ctx.traceable(st.m, o.0.0),
    ensures
        ctx.fits(ctx.traced(st, o, size)),
        ctx.traceable(ctx.traced(st, o, size).m, ctx.young_result(st, o).0.0),
        ctx.traced(st, o, size).nodes.len() + room(ctx.vm, ctx.traced(st, o, size))
            <= st.nodes.len() + room(ctx.vm, st),
{
    let young = ctx.young_traced(st, o);
    lemma_young_traced(ctx, st, o);
    if ctx.meets_mature(st, o) {
        if ctx.pause == Pause::InitialMark {
            lemma_seeded(ctx, young, o);
        } else {
            lemma_marked(ctx, young, o, size);
            lemma_same_forwarding(ctx, young.m, ctx.marked(young, o, size).m);
        }
    }
}

/// Processing a slot leaves a fitting state, and queues no more objects than it takes from those
/// that may still be queued.
pub proof fn lemma_slot_processed(
    ctx: TraceContext,
    st: TraceState,
    objects: ObjectModel,
    slot: Slot,
)
    requires
        ctx.fits(st),
    ensures
        ctx.fits(ctx.slot_processed(st, objects, slot)),
        ctx.slot_processed(st, objects, slot).nodes.len() + room(
            ctx.vm,
            ctx.slot_processed(st, objects, slot),
        ) <= st.nodes.len() + room(ctx.vm, st),
        target_of(st.slots, slot) matches Some(o) ==> ctx.traceable(st.m, o.0.0),
{
    if let Some(o) = target_of(st.slots, slot) {
        assert(ctx.traceable(st.m, st.slots[slot.0.0]));
        let size = objects.size(o.0.0);
        lemma_traced(ctx, st, o, size);
        let traced = ctx.traced(st, o, size);
        let after = ctx.slot_processed(st, objects, slot);
        assert(traced.slots == st.slots);
        assert forall|k: usize|
            #![trigger after.slots[k]]
            after.slots.dom().contains(k) && after.slots[k] != 0 implies ctx.traceable(
            after.m,
            after.slots[k],
        ) by {
            if k == slot.0.0 && ctx.young_result(st, o) != o {
            } else {
                assert(after.slots[k] == traced.slots[k]);
            }
        }
    }
}

/// A slot that was processed refers to no object of a space that is emptied. So when everything
/// that can be reached was processed, such a space can be released.
pub proof fn law_processed_slot_leaves_the_nursery(
    ctx: TraceContext,
    st: TraceState,
    objects: ObjectModel,
    slot: Slot,
)
    requires
        ctx.fits(st),
    ensures
        ({
            let after = ctx.slot_processed(st, objects, slot);
            target_of(after.slots, slot) matches Some(o) ==> !ctx.emptied(
                after.m.space_of(o.addr()),
            )
        }),
{
    lemma_slot_processed(ctx, st, objects, slot);
    if let Some(o) = target_of(st.slots, slot) {
        let size = objects.size(o.0.0);
        let young = ctx.young_traced(st, o);
        let traced = ctx.traced(st, o, size);
        let new = ctx.young_result(st, o);
        lemma_young_traced(ctx, st, o);
        lemma_traced(ctx, st, o, size);
        if ctx.meets_mature(st, o) && ctx.pause == Pause::FinalMark {
            lemma_marked(ctx, young, o, size);
        }
        assert(traced.m.spaces == st.m.spaces && traced.m.start == st.m.start && traced.m.chunks
            == st.m.chunks);
        assert(!ctx.emptied(st.m.space_of(new.addr()))) by {
            if ctx.emptied(st.m.space_of(o.addr())) {
                assert(ctx.settled(st.m, o.0.0));
                assert(new == copy_of(ctx.copies, o.0.0));
            }
        }
    }
}

/// Queued objects stay queued, and spaces stay where they are.
pub open spec fn grown(st: TraceState, after: TraceState) -> bool {
    &&& after.m.start == st.m.start
    &&& after.m.chunks == st.m.chunks
    &&& after.m.spaces == st.m.spaces
    &&& st.nodes.len() <= after.nodes.len()
    &&& forall|i: int| 0 <= i < st.nodes.len() ==> #[trigger] after.nodes[i] == st.nodes[i]
}

/// Processing a slot cleans it, and leaves other slots clean.
pub proof fn lemma_slot_cleaned(
    ctx: TraceContext,
    st: TraceState,
    objects: ObjectModel,
    slot: Slot,
)
    requires
        ctx.fits(st),
    ensures
        grown(st, ctx.slot_processed(st, objects, slot)),
        ctx.slot_clean(ctx.slot_processed(st, objects, slot), slot),
        forall|other: Slot|
            ctx.slot_clean(st, other) ==> #[trigger] ctx.slot_clean(
                ctx.slot_processed(st, objects, slot),
                other,
            ),
{
    lemma_slot_processed(ctx, st, objects, slot);
    law_processed_slot_leaves_the_nursery(ctx, st, objects, slot);
    let after = ctx.slot_processed(st, objects, slot);
    if let Some(o) = target_of(st.slots, slot) {
        let size = objects.size(o.0.0);
        let young = ctx.young_traced(st, o);
        lemma_young_traced(ctx, st, o);
        assert(grown(st, young));
        if ctx.meets_mature(st, o) {
            if ctx.pause == Pause::InitialMark {
                lemma_seeded(ctx, young, o);
            } else {
                lemma_marked(ctx, young, o, size);
            }
        }
        assert(grown(young, ctx.traced(st, o, size)));
    }
    assert forall|other: Slot| ctx.slot_clean(st, other) implies #[trigger] ctx.slot_clean(
        after,
        other,
    ) by {
        if other.0.0 == slot.0.0 {
            assert(other == slot);
        } else {
            assert(target_of(after.slots, other) == target_of(st.slots, other));
        }
    }
}

/// What holds after slots were processed.
pub proof fn lemma_slots_processed(
    ctx: TraceContext,
    st: TraceState,
    objects: ObjectModel,
    slots: Seq<Slot>,
)
    requires
        ctx.fits(st),
    ensures
        ({
            let after = ctx.slots_processed(st, objects, slots);
            &&& ctx.fits(after)
            &&& grown(st, after)
            &&& after.nodes.len() + room(ctx.vm, after) <= st.nodes.len() + room(ctx.vm, st)
            &&& forall|i: int|
                0 <= i < slots.len() ==> ctx.slot_clean(after, #[trigger] slots[i])
            &&& forall|other: Slot|
                ctx.slot_clean(st, other) ==> #[trigger] ctx.slot_clean(after, other)
        }),
    decreases slots.len(),
{
    if slots.len() > 0 {
        let less = slots.drop_last();
        lemma_slots_processed(ctx, st, objects, less);
        let before = ctx.slots_processed(st, objects, less);
        let after = ctx.slots_processed(st, objects, slots);
        lemma_slot_processed(ctx, before, objects, slots.last());
        lemma_slot_cleaned(ctx, before, objects, slots.last());
        assert forall|i: int| 0 <= i < slots.len() implies ctx.slot_clean(
            after,
            #[trigger] slots[i],
        ) by {
            if i < less.len() {
                assert(less[i] == slots[i]);
                assert(ctx.slot_clean(before, slots[i]));
            }
        }
        assert forall|other: Slot| ctx.slot_clean(st, other) implies #[trigger] ctx.slot_clean(
            after,
            other,
        ) by {
            assert(ctx.slot_clean(before, other));
        }
        assert forall|i: int| 0 <= i < st.nodes.len() implies #[trigger] after.nodes[i]
            == st.nodes[i] by {
            assert(before.nodes[i] == st.nodes[i]);
        }
    }
}

/// The lines of an object do not touch what a trace goes by.
pub proof fn lemma_lines_marked(
    ctx: TraceContext,
    st: TraceState,
    o: ObjectReference,
    size: usize,
)
    requires
        ctx.fits(st),
    ensures
        ({
            let after = TraceState { m: scanned(st.s, st.m, o, size), ..st };
            &&& ctx.fits(after)
            &&& grown(st, after)
            &&& room(ctx.vm, after) == room(ctx.vm, st)
            &&& forall|other: Slot|
                ctx.slot_clean(st, other) ==> #[trigger] ctx.slot_clean(after, other)
        }),
{
    let after = TraceState { m: scanned(st.s, st.m, o, size), ..st };
    lemma_same_forwarding(ctx, st.m, after.m);
    assert forall|slot: usize|
        #![trigger after.slots[slot]]
        after.slots.dom().contains(slot) && after.slots[slot] != 0 implies ctx.traceable(
        after.m,
        after.slots[slot],
    ) by {
        assert(ctx.traceable(st.m, st.slots[slot]));
    }
}

/// What holds after the fields of an object were scanned.
pub proof fn lemma_object_scanned(
    ctx: TraceContext,
    st: TraceState,
    objects: ObjectModel,
    o: ObjectReference,
)
    requires
        ctx.fits(st),
    ensures
        ({
            let after = ctx.object_scanned(st, objects, o);
            let slots = objects.field_slots(o.0.0);
            &&& ctx.fits(after)
            &&& grown(st, after)
            &&& after.nodes.len() + room(ctx.vm, after) <= st.nodes.len() + room(ctx.vm, st)
            &&& forall|i: int|
                0 <= i < slots.len() ==> ctx.slot_clean(after, #[trigger] slots[i])
            &&& forall|other: Slot|
                ctx.slot_clean(st, other) ==> #[trigger] ctx.slot_clean(after, other)
        }),
{
    let marked = TraceState { m: scanned(st.s, st.m, o, objects.size(o.0.0)), ..st };
    lemma_lines_marked(ctx, st, o, objects.size(o.0.0));
    lemma_slots_processed(ctx, marked, objects, objects.field_slots(o.0.0));
    let after = ctx.object_scanned(st, objects, o);
    assert forall|other: Slot| ctx.slot_clean(st, other) implies #[trigger] ctx.slot_clean(
        after,
        other,
    ) by {
        assert(ctx.slot_clean(marked, other));
    }
}

/// `after` is what a trace leaves of `before` when it has scanned the `n` objects that were or came
/// into the queue.
pub open spec fn closed_over(
    ctx: TraceContext,
    before: TraceState,
    after: TraceState,
    objects: ObjectModel,
    no_slots: Set<usize>,
    n: nat,
) -> bool {
    &&& after == ctx.nodes_scanned(before, objects, no_slots, n)
    &&& after.nodes.len() == n
    &&& forall|k: nat|
        k < n ==> k < (#[trigger] ctx.nodes_scanned(before, objects, no_slots, k)).nodes.len()
}

/// After a trace has scanned all that was or came into the queue, no slot of an object that it has
/// scanned refers to an object of a space that is emptied.
pub proof fn law_closure_leaves_the_nursery(
    ctx: TraceContext,
    before: TraceState,
    after: TraceState,
    objects: ObjectModel,
    no_slots: Set<usize>,
    n: nat,
)
    requires
        ctx.fits(before),
        closed_over(ctx, before, after, objects, no_slots, n),
    ensures
        ctx.fits(after),
        forall|i: int, j: int|
            #![trigger objects.field_slots(after.nodes[i].0.0)[j]]
            0 <= i < after.nodes.len() && !no_slots.contains(after.nodes[i].0.0) && 0 <= j
                < objects.field_slots(after.nodes[i].0.0).len() ==> ctx.slot_clean(
                after,
                objects.field_slots(after.nodes[i].0.0)[j],
            ),
{
    lemma_nodes_clean(ctx, before, objects, no_slots, n);
}

/// What holds after some queued objects were scanned.
pub proof fn lemma_nodes_clean(
    ctx: TraceContext,
    st: TraceState,
    objects: ObjectModel,
    no_slots: Set<usize>,
    n: nat,
)
    requires
        ctx.fits(st),
        forall|k: nat|
            k < n ==> k < (#[trigger] ctx.nodes_scanned(st, objects, no_slots, k)).nodes.len(),
    ensures
        ({
            let after = ctx.nodes_scanned(st, objects, no_slots, n);
            &&& ctx.fits(after)
            &&& n <= after.nodes.len() || n == 0
            &&& forall|i: int, j: int|
                #![trigger objects.field_slots(after.nodes[i].0.0)[j]]
                0 <= i < n && !no_slots.contains(after.nodes[i].0.0) && 0 <= j
                    < objects.field_slots(after.nodes[i].0.0).len() ==> ctx.slot_clean(
                    after,
                    objects.field_slots(after.nodes[i].0.0)[j],
                )
        }),
    decreases n,
{
    if n > 0 {
        lemma_nodes_clean(ctx, st, objects, no_slots, (n - 1) as nat);
        let before = ctx.nodes_scanned(st, objects, no_slots, (n - 1) as nat);
        let after = ctx.nodes_scanned(st, objects, no_slots, n);
        assert(n - 1 < before.nodes.len());
        let o = before.nodes[n - 1];
        if !no_slots.contains(o.0.0) {
            lemma_object_scanned(ctx, before, objects, o);
        }
        assert forall|i: int, j: int|
            #![trigger objects.field_slots(after.nodes[i].0.0)[j]]
            0 <= i < n && !no_slots.contains(after.nodes[i].0.0) && 0 <= j < objects.field_slots(
                after.nodes[i].0.0,
            ).len() implies ctx.slot_clean(
            after,
            objects.field_slots(after.nodes[i].0.0)[j],
        ) by {
            assert(after.nodes[i] == before.nodes[i]);
            if i < n - 1 {
                assert(ctx.slot_clean(before, objects.field_slots(before.nodes[i].0.0)[j]));
            }
        }
    }
}

/// What a slot refers to decides how it is processed, together with the sizes of objects.
proof fn lemma_same_sizes(
    ctx: TraceContext,
    st: TraceState,
    a: ObjectModel,
    b: ObjectModel,
    slot: Slot,
)
    requires
        a.sizes@ == b.sizes@,
    ensures
        ctx.slot_processed(st, a, slot) == ctx.slot_processed(st, b, slot),
{
    if let Some(o) = target_of(st.slots, slot) {
        assert(a.size(o.0.0) == b.size(o.0.0));
    }
}

/// What the exclusive claim of an object leaves behind when the object is copied.
proof fn lemma_claim_is_replaced(
    ctx: TraceContext,
    st: TraceState,
    o: ObjectReference,
    claimed: MetadataView,
    after: MetadataView,
)
    requires
        ctx.fits(st),
        ctx.traceable(st.m, o.0.0),
        ctx.copies_now(st, o),
        claimed == if ctx.vm.single_tracer {
            st.m
        } else {
            with_bits(ctx.vm, st.m, o.addr(), BEING_FORWARDED)
        },
        after == forwarded(
            ctx.vm,
            if ctx.promotes(st.m.space_of(o.addr())) {
                st.s.copied_to(claimed, copy_of(ctx.copies, o.0.0).addr())
            } else {
                claimed
            },
            o.addr(),
            copy_of(ctx.copies, o.0.0),
        ),
    ensures
        after == ctx.copied(st, o),
{
    let direct = ctx.copied(st, o);
    let m = st.m;
    let i = m.cell(o.addr());
    let new = copy_of(ctx.copies, o.0.0);
    assert(m.cell(o.addr()) == claimed.cell(o.addr()));
    assert(m.cell(new.addr()) == claimed.cell(new.addr()));
    assert(after.forwarding_word =~= direct.forwarding_word) by {
        if bits_shift(ctx.vm) is None {
            assert(claimed.forwarding_word[i] == m.forwarding_word[i]);
        }
    }
    assert(after.forwarding_bits =~= direct.forwarding_bits);
    assert(after =~= direct);
}

/// The trace of the slots of a packet.
pub struct BactrianNurseryProcessEdges {
    /// The slots.
    pub slots: Vec<Slot>,
    /// The objects whose fields are to be scanned.
    pub nodes: Vec<ObjectReference>,
    /// The pause.
    pub pause: Pause,
    /// The seeds for the marker.
    pub mark_seed: Vec<ObjectReference>,
    /// The packets of seeds for the bucket of work beside the mutators.
    pub concurrent: Vec<Vec<usize>>,
}

/// Packets of addresses as the contracts speak of them.
pub open spec fn seed_packets(packets: Seq<Vec<usize>>) -> Seq<Seq<usize>> {
    packets.map_values(|packet: Vec<usize>| packet@)
}

impl BactrianNurseryProcessEdges {
    /// The state of the trace.
    pub open spec fn state(self, m: MetadataView, v: BactrianView, slots: Map<usize, usize>) -> TraceState {
        TraceState {
            m,
            s: v.s,
            common: v.common,
            parked: v.parked_marking,
            concurrent: seed_packets(self.concurrent@),
            slots,
            nodes: self.nodes@,
            seed: self.mark_seed@,
        }
    }

    /// What stays the same during the trace.
    pub open spec fn context(self, v: BactrianView, copies: CopyTargets) -> TraceContext {
        context_of(v, self.pause, copies.to@)
    }

    /// A trace of the given slots, in the pause in progress. Outside a pause it is one of the
    /// nursery.
    pub fn new(slots: Vec<Slot>, plan: &Bactrian) -> (edges: Self)
        ensures
            edges.slots == slots,
            edges.nodes@ == Seq::<ObjectReference>::empty(),
            edges.mark_seed@ == Seq::<ObjectReference>::empty(),
            edges.concurrent@ == Seq::<Vec<usize>>::empty(),
            edges.pause == match plan@.current_pause {
                Some(pause) => pause,
                None => Pause::Nursery,
            },
    {
        let pause: Pause = match plan.current_pause() {
            Some(pause) => pause,
            None => Pause::Nursery,
        };
        BactrianNurseryProcessEdges {
            slots,
            nodes: Vec::new(),
            pause,
            mark_seed: Vec::new(),
            concurrent: Vec::new(),
        }
    }

    /// Hands the seeds to the marker.
    pub fn flush_mark_seed(&mut self, plan: &mut Bactrian)
        ensures
            final(self).slots == old(self).slots,
            final(self).pause == old(self).pause,
            forall|m: MetadataView, slots: Map<usize, usize>, copies: CopyTargets|
                #![trigger old(self).state(m, old(plan)@, slots), old(self).context(old(plan)@, copies)]
                final(self).state(m, final(plan)@, slots) == old(self).context(
                    old(plan)@,
                    copies,
                ).seed_flushed(old(self).state(m, old(plan)@, slots)),
            final(plan)@ == (BactrianView {
                parked_marking: final(plan)@.parked_marking,
                ..old(plan)@
            }),
    {
        if self.mark_seed.len() > 0 {
            let ghost before: Seq<Seq<usize>> = seed_packets(self.concurrent@);
            let packet: Vec<usize> = addresses(&self.mark_seed);
            self.mark_seed = Vec::new();
            if let Some(returned) = plan.schedule_marking_packet(false, packet) {
                let ghost items: Seq<usize> = returned.1@;
                self.concurrent.push(returned.1);
                assert(seed_packets(self.concurrent@) =~= before.push(items));
            }
        } else {
            assert(self.mark_seed@ =~= Seq::empty());
        }
    }

    /// Copies a young object, unless it was copied before. `promote` says whether the copy goes
    /// into the mature space. Returns the copy.
    fn copy_young(
        &mut self,
        plan: &Bactrian,
        meta: &mut HeapMetadata,
        copies: &CopyTargets,
        object: ObjectReference,
        promote: bool,
        Ghost(slots): Ghost<Map<usize, usize>>,
    ) -> (result: ObjectReference)
        requires
            old(meta).wf(),
            ({
                let ctx = old(self).context(plan@, *copies);
                let st = old(self).state(old(meta)@, plan@, slots);
                let space = st.m.space_of(object.addr());
                &&& ctx.fits(st)
                &&& ctx.traceable(st.m, object.0.0)
                &&& ctx.emptied(space)
                &&& promote == ctx.promotes(space)
            }),
        ensures
            final(meta).wf(),
            final(self).slots == old(self).slots,
            final(self).pause == old(self).pause,
            ({
                let ctx = old(self).context(plan@, *copies);
                let st = old(self).state(old(meta)@, plan@, slots);
                &&& result == ctx.young_result(st, object)
                &&& final(self).state(final(meta)@, plan@, slots) == ctx.young_traced(st, object)
            }),
    {
        let ghost ctx: TraceContext = self.context(plan@, *copies);
        let ghost st: TraceState = self.state(meta@, plan@, slots);
        let vm: VmConfig = plan.vm();
        assert(ctx.settled(st.m, object.0.0));
        let bits: u8 = object_forwarding::attempt_to_forward(&vm, meta, object);
        if object_forwarding::state_is_forwarded_or_being_forwarded(bits) {
            return object_forwarding::spin_and_get_forwarded_object(&vm, meta, object, bits);
        }
        let ghost claimed: MetadataView = meta@;
        let new: ObjectReference = copies.target(object);
        if promote {
            plan.post_copy_mature(meta, new);
        }
        let result: ObjectReference = object_forwarding::set_forwarded(&vm, meta, object, new);
        proof {
            lemma_claim_is_replaced(ctx, st, object, claimed, meta@);
        }
        self.nodes.push(result);
        result
    }

    /// Traces an object that may be young: one of the nursery or of a space of aged objects is
    /// copied, and a large object is promoted where it is. Any other is left alone.
    pub fn trace_object_nursery(
        &mut self,
        plan: &mut Bactrian,
        meta: &mut HeapMetadata,
        objects: &ObjectModel,
        copies: &CopyTargets,
        object: ObjectReference,
    ) -> (result: ObjectReference)
        requires
            old(meta).wf(),
            old(self).context(old(plan)@, *copies).fits(
                old(self).state(old(meta)@, old(plan)@, objects.slots@),
            ),
            old(self).context(old(plan)@, *copies).traceable(old(meta)@, object.0.0),
        ensures
            final(meta).wf(),
            final(self).slots == old(self).slots,
            final(self).pause == old(self).pause,
            ({
                let ctx = old(self).context(old(plan)@, *copies);
                let st = old(self).state(old(meta)@, old(plan)@, objects.slots@);
                let after = ctx.young_traced(st, object);
                &&& result == ctx.young_result(st, object)
                &&& final(self).state(final(meta)@, final(plan)@, objects.slots@) == after
                &&& final(plan)@ == plan_of(old(plan)@, after)
            }),
    {
        let space: SpaceKind = meta.space_of(object.0);
        if plan.is_emptied(space) {
            let promote: bool = space != SpaceKind::Nursery
                || !plan.nursery_keeps_movable_survivors();
            return self.copy_young(plan, meta, copies, object, promote, Ghost(objects.slots@));
        }
        if let SpaceKind::LargeObject = space {
            plan.trace_common(&mut self.nodes, object);
        }
        object
    }

    /// Makes a mature object a seed for the marker.
    fn seed(
        &mut self,
        plan: &mut Bactrian,
        object: ObjectReference,
        Ghost(m): Ghost<MetadataView>,
        Ghost(slots): Ghost<Map<usize, usize>>,
        Ghost(copies): Ghost<CopyTargets>,
    )
        ensures
            final(self).slots == old(self).slots,
            final(self).pause == old(self).pause,
            ({
                let ctx = old(self).context(old(plan)@, copies);
                let after = ctx.seeded(old(self).state(m, old(plan)@, slots), object);
                &&& final(self).state(m, final(plan)@, slots) == after
                &&& final(plan)@ == plan_of(old(plan)@, after)
            }),
    {
        let ghost st: TraceState = self.state(m, plan@, slots);
        let ghost ctx: TraceContext = self.context(plan@, copies);
        self.mark_seed.push(object);
        let ghost pushed: TraceState = TraceState { seed: st.seed.push(object), ..st };
        assert(self.state(m, plan@, slots) == pushed);
        if self.mark_seed.len() >= SEED_CAPACITY {
            assert(self.context(plan@, copies) == ctx);
            self.flush_mark_seed(plan);
            assert(self.state(m, plan@, slots) == ctx.seed_flushed(pushed));
        }
    }

    /// Marks a mature object that the marker may have missed.
    fn remark(
        &mut self,
        plan: &mut Bactrian,
        meta: &mut HeapMetadata,
        objects: &ObjectModel,
        object: ObjectReference,
        Ghost(copies): Ghost<CopyTargets>,
    )
        requires
            old(meta).wf(),
            old(meta)@.in_heap(object.addr()),
            !old(plan)@.s.rc_enabled,
        ensures
            final(meta).wf(),
            final(self).slots == old(self).slots,
            final(self).pause == old(self).pause,
            ({
                let ctx = old(self).context(old(plan)@, copies);
                let after = ctx.marked(
                    old(self).state(old(meta)@, old(plan)@, objects.slots@),
                    object,
                    objects.size(object.0.0),
                );
                &&& final(self).state(final(meta)@, final(plan)@, objects.slots@) == after
                &&& final(plan)@ == plan_of(old(plan)@, after)
            }),
    {
        if let SpaceKind::Immix = meta.space_of(object.0) {
            plan.trace_mature(meta, objects, &mut self.nodes, object);
        } else {
            plan.trace_common(&mut self.nodes, object);
        }
    }

    /// Traces an object. A young one is copied. A mature one becomes a seed for the marker in the
    /// first pause of a cycle, and is marked in the last. Returns the object, or its copy.
    pub fn trace_object(
        &mut self,
        plan: &mut Bactrian,
        meta: &mut HeapMetadata,
        objects: &ObjectModel,
        copies: &CopyTargets,
        object: ObjectReference,
    ) -> (result: ObjectReference)
        requires
            old(meta).wf(),
            old(self).context(old(plan)@, *copies).fits(
                old(self).state(old(meta)@, old(plan)@, objects.slots@),
            ),
            old(self).context(old(plan)@, *copies).traceable(old(meta)@, object.0.0),
        ensures
            final(meta).wf(),
            final(self).slots == old(self).slots,
            final(self).pause == old(self).pause,
            ({
                let ctx = old(self).context(old(plan)@, *copies);
                let st = old(self).state(old(meta)@, old(plan)@, objects.slots@);
                let after = ctx.traced(st, object, objects.size(object.0.0));
                &&& result == ctx.young_result(st, object)
                &&& final(self).state(final(meta)@, final(plan)@, objects.slots@) == after
                &&& final(plan)@ == plan_of(old(plan)@, after)
            }),
    {
        let ghost ctx: TraceContext = self.context(plan@, *copies);
        let ghost st: TraceState = self.state(meta@, plan@, objects.slots@);
        let new_object: ObjectReference = self.trace_object_nursery(
            plan,
            meta,
            objects,
            copies,
            object,
        );
        let ghost young: TraceState = ctx.young_traced(st, object);
        proof {
            lemma_young_traced(ctx, st, object);
            assert(self.context(plan@, *copies) == ctx);
        }
        let marks: bool = self.pause == Pause::InitialMark || self.pause == Pause::FinalMark;
        if marks && new_object == object && !plan.is_object_in_nursery(meta, object) {
            assert(ctx.meets_mature(st, object));
            if self.pause == Pause::InitialMark {
                self.seed(plan, object, Ghost(meta@), Ghost(objects.slots@), Ghost(*copies));
            } else {
                self.remark(plan, meta, objects, object, Ghost(*copies));
            }
        } else {
            assert(!ctx.meets_mature(st, object));
        }
        new_object
    }

    /// Traces what a slot refers to, and makes the slot refer to the copy.
    fn process_target(
        &mut self,
        plan: &mut Bactrian,
        meta: &mut HeapMetadata,
        objects: &mut ObjectModel,
        copies: &CopyTargets,
        slot: Slot,
        object: ObjectReference,
    )
        requires
            old(meta).wf(),
            old(self).context(old(plan)@, *copies).fits(
                old(self).state(old(meta)@, old(plan)@, old(objects).slots@),
            ),
            old(self).context(old(plan)@, *copies).traceable(old(meta)@, object.0.0),
            target_of(old(objects).slots@, slot) == Some(object),
        ensures
            final(meta).wf(),
            final(self).slots == old(self).slots,
            final(self).pause == old(self).pause,
            final(objects).sizes@ == old(objects).sizes@,
            final(objects).fields@ == old(objects).fields@,
            ({
                let ctx = old(self).context(old(plan)@, *copies);
                let st = old(self).state(old(meta)@, old(plan)@, old(objects).slots@);
                let after = ctx.slot_processed(st, *old(objects), slot);
                &&& final(self).state(final(meta)@, final(plan)@, final(objects).slots@) == after
                &&& final(plan)@ == plan_of(old(plan)@, after)
            }),
    {
        let ghost ctx: TraceContext = self.context(plan@, *copies);
        let ghost st: TraceState = self.state(meta@, plan@, objects.slots@);
        let new_object: ObjectReference = self.trace_object(plan, meta, objects, copies, object);
        let ghost traced: TraceState = ctx.traced(st, object, objects.size(object.0.0));
        assert(traced.slots == st.slots);
        if new_object != object {
            objects.store(slot, new_object);
        }
    }

    /// Traces what a slot refers to, and makes the slot refer to the copy.
    pub fn process_slot(
        &mut self,
        plan: &mut Bactrian,
        meta: &mut HeapMetadata,
        objects: &mut ObjectModel,
        copies: &CopyTargets,
        slot: Slot,
    )
        requires
            old(meta).wf(),
            old(self).context(old(plan)@, *copies).fits(
                old(self).state(old(meta)@, old(plan)@, old(objects).slots@),
            ),
        ensures
            final(meta).wf(),
            final(self).slots == old(self).slots,
            final(self).pause == old(self).pause,
            final(objects).sizes@ == old(objects).sizes@,
            final(objects).fields@ == old(objects).fields@,
            ({
                let ctx = old(self).context(old(plan)@, *copies);
                let st = old(self).state(old(meta)@, old(plan)@, old(objects).slots@);
                let after = ctx.slot_processed(st, *old(objects), slot);
                &&& final(self).state(final(meta)@, final(plan)@, final(objects).slots@) == after
                &&& final(plan)@ == plan_of(old(plan)@, after)
                &&& final(self).context(final(plan)@, *copies) == ctx
                &&& ctx.fits(after)
            }),
    {
        let ghost ctx: TraceContext = self.context(plan@, *copies);
        let ghost st: TraceState = self.state(meta@, plan@, objects.slots@);
        proof {
            lemma_slot_processed(ctx, st, *objects, slot);
        }
        if let Some(object) = objects.load(slot) {
            assert(target_of(st.slots, slot) == Some(object));
            self.process_target(plan, meta, objects, copies, slot, object);
        }
    }

    /// Processes slots one after the other.
    fn process_all(
        &mut self,
        plan: &mut Bactrian,
        meta: &mut HeapMetadata,
        objects: &mut ObjectModel,
        copies: &CopyTargets,
        slots: &Vec<Slot>,
    )
        requires
            old(meta).wf(),
            old(self).context(old(plan)@, *copies).fits(
                old(self).state(old(meta)@, old(plan)@, old(objects).slots@),
            ),
        ensures
            final(meta).wf(),
            final(self).slots == old(self).slots,
            final(self).pause == old(self).pause,
            final(objects).sizes@ == old(objects).sizes@,
            final(objects).fields@ == old(objects).fields@,
            ({
                let ctx = old(self).context(old(plan)@, *copies);
                let st = old(self).state(old(meta)@, old(plan)@, old(objects).slots@);
                let after = ctx.slots_processed(st, *old(objects), slots@);
                &&& final(self).state(final(meta)@, final(plan)@, final(objects).slots@) == after
                &&& final(plan)@ == plan_of(old(plan)@, after)
                &&& final(self).context(final(plan)@, *copies) == ctx
                &&& ctx.fits(after)
            }),
    {
        let ghost ctx: TraceContext = self.context(plan@, *copies);
        let ghost st: TraceState = self.state(meta@, plan@, objects.slots@);
        let ghost model: ObjectModel = *objects;
        let ghost v: BactrianView = plan@;
        assert(slots@.subrange(0, slots@.len() as int) =~= slots@);
        let mut i: usize = 0;
        while i < slots.len()
            invariant
                i <= slots@.len(),
                meta.wf(),
                self.slots == old(self).slots,
                self.pause == old(self).pause,
                objects.sizes@ == model.sizes@,
                objects.fields@ == model.fields@,
                self.state(meta@, plan@, objects.slots@) == ctx.slots_processed(
                    st,
                    model,
                    slots@.subrange(0, i as int),
                ),
                plan@ == plan_of(v, self.state(meta@, plan@, objects.slots@)),
                self.context(plan@, *copies) == ctx,
                ctx.fits(self.state(meta@, plan@, objects.slots@)),
            decreases slots@.len() - i,
        {
            let ghost next: Seq<Slot> = slots@.subrange(0, i + 1);
            let ghost before: TraceState = self.state(meta@, plan@, objects.slots@);
            proof {
                assert(next.drop_last() =~= slots@.subrange(0, i as int));
                assert(next.last() == slots@[i as int]);
                lemma_same_sizes(ctx, before, *objects, model, slots@[i as int]);
            }
            self.process_slot(plan, meta, objects, copies, slots[i]);
            i += 1;
        }
    }

    /// The runtime is to walk the slots itself: in a pause of the nursery, with a single tracer,
    /// if survivors do not age and live bytes are not counted.
    pub open spec fn oldifies(
        self,
        env: Environment,
        single_tracer: bool,
        count_live_bytes: bool,
    ) -> bool {
        &&& self.pause == Pause::Nursery
        &&& oldify_on(env)
        &&& single_tracer
        &&& age_setting(env) == 0
        &&& !count_live_bytes
        &&& self.slots@.len() > 0
    }

    /// Whether the runtime is to walk the slots itself.
    pub fn offers_oldify(
        &self,
        plan: &Bactrian,
        env: &Environment,
        single_tracer: bool,
        count_live_bytes: bool,
    ) -> (offers: bool)
        ensures
            offers == self.oldifies(*env, single_tracer, count_live_bytes),
    {
        self.pause == Pause::Nursery && up_oldify_enabled(env) && single_tracer
            && !plan.aging_enabled(env) && !count_live_bytes && self.slots.len() > 0
    }

    /// Processes the slots of the packet. Where the runtime was offered to walk them itself,
    /// `consumed` says whether it did; then nothing is left to do.
    pub fn process_slots(
        &mut self,
        plan: &mut Bactrian,
        meta: &mut HeapMetadata,
        objects: &mut ObjectModel,
        copies: &CopyTargets,
        consumed: bool,
    )
        requires
            old(meta).wf(),
            old(self).context(old(plan)@, *copies).fits(
                old(self).state(old(meta)@, old(plan)@, old(objects).slots@),
            ),
        ensures
            final(meta).wf(),
            final(self).pause == old(self).pause,
            final(objects).sizes@ == old(objects).sizes@,
            final(objects).fields@ == old(objects).fields@,
            consumed ==> final(self).slots@.len() == 0,
            !consumed ==> final(self).slots@ == old(self).slots@,
            ({
                let ctx = old(self).context(old(plan)@, *copies);
                let st = old(self).state(old(meta)@, old(plan)@, old(objects).slots@);
                let after = if consumed {
                    st
                } else {
                    ctx.slots_processed(st, *old(objects), old(self).slots@)
                };
                &&& final(self).state(final(meta)@, final(plan)@, final(objects).slots@) == after
                &&& final(plan)@ == plan_of(old(plan)@, after)
                &&& ctx.fits(after)
            }),
    {
        let mut slots: Vec<Slot> = Vec::new();
        std::mem::swap(&mut slots, &mut self.slots);
        if consumed {
            return;
        }
        self.process_all(plan, meta, objects, copies, &slots);
        self.slots = slots;
    }

    /// Scans the fields of an object.
    fn scan_node(
        &mut self,
        plan: &mut Bactrian,
        meta: &mut HeapMetadata,
        objects: &mut ObjectModel,
        copies: &CopyTargets,
        object: ObjectReference,
    )
        requires
            old(meta).wf(),
            old(meta)@.in_heap(object.addr()),
            object.addr() + old(objects).size(object.0.0) <= old(meta)@.end(),
            old(self).context(old(plan)@, *copies).fits(
                old(self).state(old(meta)@, old(plan)@, old(objects).slots@),
            ),
        ensures
            final(meta).wf(),
            final(self).slots == old(self).slots,
            final(self).pause == old(self).pause,
            final(objects).sizes@ == old(objects).sizes@,
            final(objects).fields@ == old(objects).fields@,
            ({
                let ctx = old(self).context(old(plan)@, *copies);
                let st = old(self).state(old(meta)@, old(plan)@, old(objects).slots@);
                let after = ctx.object_scanned(st, *old(objects), object);
                &&& final(self).state(final(meta)@, final(plan)@, final(objects).slots@) == after
                &&& final(plan)@ == plan_of(old(plan)@, after)
                &&& final(self).context(final(plan)@, *copies) == ctx
                &&& ctx.fits(after)
            }),
    {
        let ghost ctx: TraceContext = self.context(plan@, *copies);
        let ghost st: TraceState = self.state(meta@, plan@, objects.slots@);
        let slots: Vec<Slot> = objects.iterate_fields(object);
        proof {
            lemma_lines_marked(ctx, st, object, objects.size(object.0.0));
        }
        plan.post_scan_object(meta, objects, object);
        self.process_all(plan, meta, objects, copies, &slots);
    }

    /// Scans all objects that are queued, and those that come into the queue. The ones whose slots
    /// the runtime cannot tell are returned: they need a packet of their own.
    pub fn drain_closure_locally(
        &mut self,
        plan: &mut Bactrian,
        meta: &mut HeapMetadata,
        objects: &mut ObjectModel,
        copies: &CopyTargets,
        no_slots: &HashSet<usize>,
    ) -> (fallback: Vec<ObjectReference>)
        requires
            old(meta).wf(),
            old(objects).fits(old(meta)@),
            old(self).context(old(plan)@, *copies).fits(
                old(self).state(old(meta)@, old(plan)@, old(objects).slots@),
            ),
        ensures
            final(meta).wf(),
            final(self).slots == old(self).slots,
            final(self).pause == old(self).pause,
            final(self).nodes@.len() == 0,
            final(objects).sizes@ == old(objects).sizes@,
            final(objects).fields@ == old(objects).fields@,
            exists|after: TraceState, n: nat| #[trigger]
                closed_over(
                    old(self).context(old(plan)@, *copies),
                    old(self).state(old(meta)@, old(plan)@, old(objects).slots@),
                    after,
                    *old(objects),
                    no_slots@,
                    n,
                ) && final(self).state(final(meta)@, final(plan)@, final(objects).slots@) == (
                TraceState { nodes: Seq::empty(), ..after }) && final(plan)@ == plan_of(
                    old(plan)@,
                    after,
                ) && fallback@ == passed_over(after.nodes, no_slots@, n),
    {
        let ghost ctx: TraceContext = self.context(plan@, *copies);
        let ghost st: TraceState = self.state(meta@, plan@, objects.slots@);
        let ghost model: ObjectModel = *objects;
        let ghost v: BactrianView = plan@;
        let mut fallback: Vec<ObjectReference> = Vec::new();
        let mut i: usize = 0;
        while i < self.nodes.len()
            invariant
                i <= self.nodes@.len(),
                meta.wf(),
                meta@.start == st.m.start,
                meta@.chunks == st.m.chunks,
                model.fits(st.m),
                self.slots == old(self).slots,
                self.pause == old(self).pause,
                objects.sizes@ == model.sizes@,
                objects.fields@ == model.fields@,
                self.state(meta@, plan@, objects.slots@) == ctx.nodes_scanned(
                    st,
                    model,
                    no_slots@,
                    i as nat,
                ),
                plan@ == plan_of(v, self.state(meta@, plan@, objects.slots@)),
                self.context(plan@, *copies) == ctx,
                ctx.fits(self.state(meta@, plan@, objects.slots@)),
                fallback@ == passed_over(self.nodes@, no_slots@, i as nat),
                forall|k: nat|
                    k < i ==> k < (#[trigger] ctx.nodes_scanned(
                        st,
                        model,
                        no_slots@,
                        k,
                    )).nodes.len(),
            decreases
                    self.nodes@.len() - i + room(
                        ctx.vm,
                        self.state(meta@, plan@, objects.slots@),
                    ),
        {
            let object: ObjectReference = self.nodes[i];
            let ghost before: TraceState = self.state(meta@, plan@, objects.slots@);
            assert(before.nodes[i as int] == object);
            assert(before.m.in_heap(object.addr()));
            if no_slots.contains(&object.0.0) {
                fallback.push(object);
            } else {
                proof {
                    lemma_same_layout(ctx, before, *objects, model, object);
                    lemma_object_scanned(ctx, before, model, object);
                    assert(model.size(object.0.0) > 0 ==> object.addr() + model.size(object.0.0)
                        <= st.m.end());
                    assert(objects.size(object.0.0) == model.size(object.0.0));
                }
                self.scan_node(plan, meta, objects, copies, object);
            }
            proof {
                let after = self.state(meta@, plan@, objects.slots@);
                assert(after == ctx.nodes_scanned(st, model, no_slots@, (i + 1) as nat));
                lemma_passed_over(before.nodes, after.nodes, no_slots@, (i + 1) as nat);
            }
            i += 1;
        }
        let ghost after: TraceState = self.state(meta@, plan@, objects.slots@);
        proof {
            assert(closed_over(ctx, st, after, model, no_slots@, i as nat));
        }
        self.nodes = Vec::new();
        assert(self.state(meta@, plan@, objects.slots@) == (TraceState {
            nodes: Seq::empty(),
            ..after
        }));
        fallback
    }

    /// Ends the work on the packet. With a single tracer, unless live bytes are counted, the whole
    /// closure is done here; otherwise the queued objects are returned for packets of their own.
    /// The seeds are handed to the marker.
    pub fn flush(
        &mut self,
        plan: &mut Bactrian,
        meta: &mut HeapMetadata,
        objects: &mut ObjectModel,
        copies: &CopyTargets,
        no_slots: &HashSet<usize>,
        single_tracer: bool,
        count_live_bytes: bool,
    ) -> (to_scan: Vec<ObjectReference>)
        requires
            old(meta).wf(),
            old(objects).fits(old(meta)@),
            old(self).context(old(plan)@, *copies).fits(
                old(self).state(old(meta)@, old(plan)@, old(objects).slots@),
            ),
        ensures
            final(meta).wf(),
            final(self).slots == old(self).slots,
            final(self).pause == old(self).pause,
            final(self).nodes@.len() == 0,
            final(self).mark_seed@.len() == 0,
            final(objects).sizes@ == old(objects).sizes@,
            final(objects).fields@ == old(objects).fields@,
            !(single_tracer && !count_live_bytes) ==> {
                let ctx = old(self).context(old(plan)@, *copies);
                let st = old(self).state(old(meta)@, old(plan)@, old(objects).slots@);
                let after = ctx.seed_flushed(TraceState { nodes: Seq::empty(), ..st });
                &&& to_scan@ == st.nodes
                &&& final(self).state(final(meta)@, final(plan)@, final(objects).slots@) == after
                &&& final(plan)@ == plan_of(old(plan)@, after)
            },
            single_tracer && !count_live_bytes ==> exists|closed: TraceState, n: nat| #[trigger]
                closed_over(
                    old(self).context(old(plan)@, *copies),
                    old(self).state(old(meta)@, old(plan)@, old(objects).slots@),
                    closed,
                    *old(objects),
                    no_slots@,
                    n,
                ) && {
                    let ctx = old(self).context(old(plan)@, *copies);
                    let after = ctx.seed_flushed(TraceState { nodes: Seq::empty(), ..closed });
                    &&& to_scan@ == passed_over(closed.nodes, no_slots@, n)
                    &&& final(self).state(final(meta)@, final(plan)@, final(objects).slots@)
                        == after
                    &&& final(plan)@ == plan_of(old(plan)@, after)
                },
    {
        let ghost ctx: TraceContext = self.context(plan@, *copies);
        let ghost st: TraceState = self.state(meta@, plan@, objects.slots@);
        let ghost v: BactrianView = plan@;
        let mut to_scan: Vec<ObjectReference> = Vec::new();
        if single_tracer && !count_live_bytes {
            to_scan = self.drain_closure_locally(plan, meta, objects, copies, no_slots);
            let ghost (closed, n): (TraceState, nat) = choose|closed: TraceState, n: nat|
                #[trigger] closed_over(ctx, st, closed, *old(objects), no_slots@, n) && self.state(
                    meta@,
                    plan@,
                    objects.slots@,
                ) == (TraceState { nodes: Seq::empty(), ..closed }) && plan@ == plan_of(
                    v,
                    closed,
                ) && to_scan@ == passed_over(closed.nodes, no_slots@, n);
            proof {
                law_closure_leaves_the_nursery(ctx, st, closed, *old(objects), no_slots@, n);
                assert(self.context(plan@, *copies) == ctx);
                assert(closed_over(ctx, st, closed, *old(objects), no_slots@, n));
            }
            self.flush_mark_seed(plan);
            assert(self.state(meta@, plan@, objects.slots@) == ctx.seed_flushed(
                TraceState { nodes: Seq::empty(), ..closed },
            ));
        } else {
            std::mem::swap(&mut to_scan, &mut self.nodes);
            assert(self.state(meta@, plan@, objects.slots@) == (TraceState {
                nodes: Seq::empty(),
                ..st
            }));
            assert(self.context(plan@, *copies) == ctx);
            self.flush_mark_seed(plan);
            assert(self.state(meta@, plan@, objects.slots@) == ctx.seed_flushed(
                TraceState { nodes: Seq::empty(), ..st },
            ));
        }
        to_scan
    }
}

/// What the plan offers a runtime that walks the slots of a nursery collection itself.
pub struct BactrianOldifyOps;

impl BactrianOldifyOps {
    /// Whether an address is in a space that holds young objects only.
    pub fn in_young(plan: &Bactrian, meta: &HeapMetadata, address: Address) -> (young: bool)
        requires
            meta.wf(),
        ensures
            young == copied_young(meta@.space_of(address.0 as int)),
    {
        plan.is_address_in_nursery(meta, address)
    }

    /// Completes a promotion: the copy is marked and made unlogged, and its lines are marked.
    pub fn post_copy(
        plan: &Bactrian,
        meta: &mut HeapMetadata,
        objects: &ObjectModel,
        object: ObjectReference,
    )
        requires
            old(meta).wf(),
            old(meta)@.in_heap(object.addr()),
            object.addr() + objects.size(object.0.0) <= old(meta)@.end(),
        ensures
            final(meta).wf(),
            final(meta)@ == scanned(
                plan@.s,
                plan@.s.copied_to(old(meta)@, object.addr()),
                object,
                objects.size(object.0.0),
            ),
    {
        plan.post_copy_mature(meta, object);
        plan.post_scan_object(meta, objects, object);
    }

    /// Whether an object is a young large object.
    pub fn is_young_los(plan: &Bactrian, meta: &HeapMetadata, object: ObjectReference) -> (young:
        bool)
        requires
            meta.wf(),
        ensures
            young == (meta@.space_of(object.addr()) == SpaceKind::LargeObject
                && plan@.common.young.contains(object.0.0)),
    {
        match meta.space_of(object.0) {
            SpaceKind::LargeObject => plan.is_object_in_nursery(meta, object),
            _ => false,
        }
    }

    /// Promotes a large object where it is. Returns whether its fields are to be scanned.
    pub fn promote_young_los(plan: &mut Bactrian, object: ObjectReference) -> (promoted: bool)
        ensures
            promoted == old(plan)@.common.untraced.contains(object.0.0),
            final(plan)@ == (BactrianView {
                common: old(plan)@.common.traced(object),
                ..old(plan)@
            }),
    {
        let mut queue: Vec<ObjectReference> = Vec::new();
        plan.trace_common(&mut queue, object);
        queue.len() > 0
    }
}

/// The layout of objects decides how an object is scanned, not what their slots refer to.
proof fn lemma_same_layout(
    ctx: TraceContext,
    st: TraceState,
    a: ObjectModel,
    b: ObjectModel,
    o: ObjectReference,
)
    requires
        a.sizes@ == b.sizes@,
        a.fields@ == b.fields@,
    ensures
        ctx.object_scanned(st, a, o) == ctx.object_scanned(st, b, o),
{
    assert(a.size(o.0.0) == b.size(o.0.0));
    assert(a.field_slots(o.0.0) == b.field_slots(o.0.0));
    lemma_same_slots(
        ctx,
        TraceState { m: scanned(st.s, st.m, o, a.size(o.0.0)), ..st },
        a,
        b,
        a.field_slots(o.0.0),
    );
}

/// The sizes of objects decide how slots are processed, not what other slots refer to.
proof fn lemma_same_slots(
    ctx: TraceContext,
    st: TraceState,
    a: ObjectModel,
    b: ObjectModel,
    slots: Seq<Slot>,
)
    requires
        a.sizes@ == b.sizes@,
    ensures
        ctx.slots_processed(st, a, slots) == ctx.slots_processed(st, b, slots),
    decreases slots.len(),
{
    if slots.len() > 0 {
        lemma_same_slots(ctx, st, a, b, slots.drop_last());
        lemma_same_sizes(
            ctx,
            ctx.slots_processed(st, a, slots.drop_last()),
            a,
            b,
            slots.last(),
        );
    }
}

/// What is passed over among the first objects does not depend on later ones.
proof fn lemma_passed_over(
    nodes: Seq<ObjectReference>,
    more: Seq<ObjectReference>,
    no_slots: Set<usize>,
    n: nat,
)
    requires
        n <= nodes.len() <= more.len(),
        forall|i: int| 0 <= i < nodes.len() ==> #[trigger] more[i] == nodes[i],
    ensures
        passed_over(more, no_slots, n) == passed_over(nodes, no_slots, n),
    decreases n,
{
    if n > 0 {
        lemma_passed_over(nodes, more, no_slots, (n - 1) as nat);
        assert(more[n - 1] == nodes[n - 1]);
    }
}

} // verus!
