//! The mutators of the plan.

use crate::args::Environment;
use crate::plan::concurrent::bactrian::barrier::BactrianBarrier;
use crate::plan::concurrent::bactrian::global::Bactrian;
use crate::plan::concurrent::bactrian::settings::{medium_in_freelist, medium_to_freelist};
use crate::plan::concurrent::global::ConcurrentPlan;
use crate::plan::concurrent::Pause;
use crate::policy::immix::copy_context::ImmixAllocator;
use crate::util::address::Address;
use crate::util::metadata::{MetadataView, SpaceKind};
use vstd::prelude::*;

verus! {

/// What an allocation is for.
#[derive(Debug, Clone, Copy, PartialEq, Eq, Structural)]
pub enum AllocationSemantics {
    /// Objects without further demands.
    Default,
    /// Objects that are never reclaimed.
    Immortal,
    /// Large objects.
    Los,
    /// Code.
    Code,
    /// Objects that are read only.
    ReadOnly,
    /// Large code.
    LargeCode,
    /// Objects that never move.
    NonMoving,
}

/// An allocator of a mutator.
#[derive(Debug, Clone, Copy, PartialEq, Eq, Structural)]
pub enum AllocatorSelector {
    /// One that moves a cursor.
    BumpPointer {
        /// Its number.
        index: u8,
    },
    /// One for large objects.
    LargeObject {
        /// Its number.
        index: u8,
    },
    /// One for an Immix space.
    Immix {
        /// Its number.
        index: u8,
    },
    /// One with free lists.
    FreeList {
        /// Its number.
        index: u8,
    },
    /// No allocator.
    Missing,
}

/// An allocator that moves a cursor through a run of memory.
#[derive(Debug, Clone, Copy, PartialEq, Eq, Structural)]
pub struct BumpAllocator {
    /// The next free address.
    pub cursor: Address,
    /// The end of the run.
    pub limit: Address,
}

impl BumpAllocator {
    /// An allocator without a run.
    pub fn new() -> (allocator: Self)
        ensures
            allocator == (BumpAllocator { cursor: Address(0), limit: Address(0) }),
    {
        BumpAllocator { cursor: Address(0), limit: Address(0) }
    }

    /// Gives the run up.
    pub fn reset(&mut self)
        ensures
            *final(self) == (BumpAllocator { cursor: Address(0), limit: Address(0) }),
    {
        self.cursor = Address(0);
        self.limit = Address(0);
    }
}

/// A mutator of the plan.
pub struct Mutator {
    /// The allocator for the nursery.
    pub nursery: BumpAllocator,
    /// The allocator for objects that are born in the mature space.
    pub mature: ImmixAllocator,
    /// The write barrier.
    pub barrier: BactrianBarrier,
}

/// How many allocators of its own the plan reserves for a mutator.
#[derive(Debug, Clone, Copy, PartialEq, Eq, Structural)]
pub struct ReservedAllocators {
    /// Those that move a cursor.
    pub n_bump_pointer: u8,
    /// Those for an Immix space.
    pub n_immix: u8,
}

/// How many allocators of its own the plan reserves for a mutator: one for the nursery, and one
/// for objects that are born in the mature space.
pub fn reserved_allocators() -> (reserved: ReservedAllocators)
    ensures
        reserved == (ReservedAllocators { n_bump_pointer: 1, n_immix: 1 }),
{
    ReservedAllocators { n_bump_pointer: 1, n_immix: 1 }
}

/// The allocator that the plan uses for an allocation. `common` is the one that plans have in
/// common, and `freelist` says whether objects of medium size go into the non-moving space.
pub fn allocator_for(
    semantics: AllocationSemantics,
    common: AllocatorSelector,
    freelist: bool,
) -> (selector: AllocatorSelector)
    ensures
        selector == (if semantics == AllocationSemantics::Default {
            AllocatorSelector::BumpPointer { index: 0 }
        } else if semantics == AllocationSemantics::NonMoving && !freelist {
            AllocatorSelector::Immix { index: 0 }
        } else {
            common
        }),
{
    if semantics == AllocationSemantics::Default {
        AllocatorSelector::BumpPointer { index: 0 }
    } else if semantics == AllocationSemantics::NonMoving && !freelist {
        AllocatorSelector::Immix { index: 0 }
    } else {
        common
    }
}

/// The spaces of the allocators: those that plans have in common, then the nursery and the mature
/// space.
pub fn space_mapping(common: Vec<(AllocatorSelector, SpaceKind)>) -> (mapping: Vec<
    (AllocatorSelector, SpaceKind),
>)
    ensures
        mapping@ == common@.push(
            (AllocatorSelector::BumpPointer { index: 0 }, SpaceKind::Nursery),
        ).push((AllocatorSelector::Immix { index: 0 }, SpaceKind::Immix)),
{
    let mut mapping: Vec<(AllocatorSelector, SpaceKind)> = common;
    mapping.push((AllocatorSelector::BumpPointer { index: 0 }, SpaceKind::Nursery));
    mapping.push((AllocatorSelector::Immix { index: 0 }, SpaceKind::Immix));
    mapping
}

/// The allocator without its run of lines.
pub open spec fn reset_allocator(allocator: ImmixAllocator) -> ImmixAllocator {
    ImmixAllocator { cursor: Address(0), limit: Address(0), ..allocator }
}

/// The barrier is that of `other`, except that its snapshot half is on iff `enabled`.
pub open spec fn barrier_switched(
    barrier: BactrianBarrier,
    other: BactrianBarrier,
    enabled: bool,
) -> bool {
    &&& barrier.enabled() == enabled
    &&& forall|parked: Seq<(bool, Seq<usize>)>| #[trigger]
        barrier.snapshot(parked) == other.snapshot(parked)
    &&& forall|m: MetadataView| #[trigger] barrier.remembers(m) == other.remembers(m)
}

/// Gives up the run of lines of the allocator for the mature space, where it is in use.
fn reset_pretenure_allocator(mutator: &mut Mutator, freelist: bool)
    ensures
        final(mutator).mature == (if freelist {
            old(mutator).mature
        } else {
            reset_allocator(old(mutator).mature)
        }),
        final(mutator).nursery == old(mutator).nursery,
        final(mutator).barrier == old(mutator).barrier,
{
    if freelist {
        return;
    }
    mutator.mature.reset();
}

/// Prepares a mutator for a pause. The first pause of a cycle switches the snapshot half of the
/// barrier on. Returns whether the allocator with free lists must be prepared, too.
pub fn bactrian_mutator_prepare(
    mutator: &mut Mutator,
    plan: &Bactrian,
    env: &Environment,
    marksweep_as_nonmoving: bool,
) -> (free_list: bool)
    requires
        plan@.current_pause is Some,
    ensures
        free_list == marksweep_as_nonmoving,
        final(mutator).nursery == old(mutator).nursery,
        final(mutator).mature == (if medium_in_freelist(*env, marksweep_as_nonmoving) {
            old(mutator).mature
        } else {
            reset_allocator(old(mutator).mature)
        }),
        barrier_switched(
            final(mutator).barrier,
            old(mutator).barrier,
            plan@.current_pause == Some(Pause::InitialMark) || old(mutator).barrier.enabled(),
        ),
{
    reset_pretenure_allocator(mutator, medium_to_freelist(env, marksweep_as_nonmoving));
    match plan.current_pause() {
        Some(Pause::InitialMark) => {
            mutator.barrier.set_satb_enabled(true);
        },
        _ => {},
    }
    marksweep_as_nonmoving
}

/// Releases a mutator after a pause. The last pause of a cycle, or one that collects the whole
/// heap, switches the snapshot half of the barrier off. Returns whether the allocator with free
/// lists must be released, too: only such a pause has complete marks.
pub fn bactrian_mutator_release(
    mutator: &mut Mutator,
    plan: &Bactrian,
    env: &Environment,
    marksweep_as_nonmoving: bool,
) -> (free_list: bool)
    requires
        plan@.current_pause is Some,
    ensures
        ({
            let complete = plan@.current_pause == Some(Pause::FinalMark) || plan@.current_pause
                == Some(Pause::Full);
            &&& free_list == (marksweep_as_nonmoving && complete)
            &&& final(mutator).nursery == (BumpAllocator {
                cursor: Address(0),
                limit: Address(0),
            })
            &&& final(mutator).mature == (if medium_in_freelist(*env, marksweep_as_nonmoving) {
                old(mutator).mature
            } else {
                reset_allocator(old(mutator).mature)
            })
            &&& barrier_switched(
                final(mutator).barrier,
                old(mutator).barrier,
                !complete && old(mutator).barrier.enabled(),
            )
        }),
{
    mutator.nursery.reset();
    reset_pretenure_allocator(mutator, medium_to_freelist(env, marksweep_as_nonmoving));
    let complete: bool = match plan.current_pause() {
        Some(Pause::FinalMark) => true,
        Some(Pause::Full) => true,
        _ => false,
    };
    if complete {
        mutator.barrier.set_satb_enabled(false);
    }
    marksweep_as_nonmoving && complete
}

/// A new mutator. The snapshot half of its barrier is on iff a cycle is in progress.
pub fn create_bactrian_mutator(plan: &Bactrian) -> (mutator: Mutator)
    ensures
        mutator.nursery == (BumpAllocator { cursor: Address(0), limit: Address(0) }),
        mutator.mature == (ImmixAllocator {
            copy: false,
            cursor: Address(0),
            limit: Address(0),
        }),
        mutator.barrier.enabled() == plan@.concurrent_marking_active,
        forall|parked: Seq<(bool, Seq<usize>)>|
            (#[trigger] mutator.barrier.snapshot(parked)).satb.len() == 0
                && mutator.barrier.snapshot(parked).refs.len() == 0,
        forall|m: MetadataView|
            (#[trigger] mutator.barrier.remembers(m)).modbuf.len() == 0
                && mutator.barrier.remembers(m).regions.len() == 0,
{
    let mut barrier: BactrianBarrier = BactrianBarrier::new();
    barrier.set_satb_enabled(plan.is_concurrent_marking_active());
    Mutator { nursery: BumpAllocator::new(), mature: ImmixAllocator::new(false), barrier }
}

} // verus!
