//! The stages in which work packets run.

use vstd::prelude::*;

verus! {

/// The buckets that work packets are put into. A pause opens them one after the other.
#[derive(Debug, Clone, Copy, PartialEq, Eq, Structural)]
pub enum WorkBucketStage {
    /// Always open.
    Unconstrained,
    /// Work that runs beside the mutators.
    Concurrent,
    /// Preparation of the plan and the spaces.
    Prepare,
    /// Clearing of valid-object bits.
    ClearVOBits,
    /// Increments of reference counts.
    RCProcessIncs,
    /// The transitive closure from the roots.
    Closure,
    /// The closure from soft references.
    SoftRefClosure,
    /// The closure from weak references.
    WeakRefClosure,
    /// The closure from finalizable objects.
    FinalRefClosure,
    /// The closure from phantom references.
    PhantomRefClosure,
    /// The closure that the runtime asks for.
    VMRefClosure,
    /// Computation of the addresses that objects move to.
    CalculateForwarding,
    /// The second scan of the roots.
    SecondRoots,
    /// Forwarding of reference objects.
    RefForwarding,
    /// Forwarding of finalizable objects.
    FinalizableForwarding,
    /// Forwarding that the runtime asks for.
    VMRefForwarding,
    /// Compaction.
    Compact,
    /// Release of the plan and the spaces.
    Release,
    /// Decrements of reference counts and the sweeps of blocks.
    STWRCDecsAndSweep,
    /// The end of the pause.
    Final,
}

} // verus!
