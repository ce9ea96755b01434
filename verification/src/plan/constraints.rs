//! What a plan demands of the rest of the collector.

use vstd::prelude::*;

verus! {

/// The largest object that an Immix space takes.
pub const MAX_IMMIX_OBJECT_SIZE: usize = 16384;

/// The write barrier that a plan uses.
#[derive(Debug, Clone, Copy, PartialEq, Eq, Structural)]
pub enum BarrierSelector {
    /// None.
    NoBarrier,
    /// A barrier that remembers objects.
    ObjectBarrier,
    /// A barrier that logs fields.
    FieldBarrier,
    /// A barrier that keeps a snapshot.
    SATBBarrier,
}

/// What a plan demands.
#[derive(Debug, Clone, Copy, PartialEq, Eq, Structural)]
pub struct PlanConstraints {
    /// Objects may move.
    pub moves_objects: bool,
    /// The largest object that does not go into the large-object space.
    pub max_non_los_default_alloc_bytes: usize,
    /// Objects have log bits.
    pub needs_log_bit: bool,
    /// Fields have log bits.
    pub needs_field_log_bit: bool,
    /// References are counted.
    pub rc_enabled: bool,
    /// The write barrier.
    pub barrier: BarrierSelector,
}

/// What a generational plan demands in addition.
#[derive(Debug, Clone, Copy, PartialEq, Eq, Structural)]
pub struct GenerationalConstraints {
    /// The plan has a nursery.
    pub generational: bool,
    /// A trace may meet an edge more than once.
    pub may_trace_duplicate_edges: bool,
    /// Mutators are prepared for a collection.
    pub needs_prepare_mutator: bool,
}

/// What a copy is for.
#[derive(Debug, Clone, Copy, PartialEq, Eq, Structural)]
pub enum CopySemantics {
    /// The plan has one kind of copy.
    DefaultCopy,
    /// A copy within the nursery.
    Nursery,
    /// A copy from the nursery into the mature space.
    PromoteToMature,
    /// A copy within the mature space.
    Mature,
}

/// Where a copy goes.
#[derive(Debug, Clone, Copy, PartialEq, Eq, Structural)]
pub enum CopySelector {
    /// To a copying space.
    CopySpace {
        /// The number of the space.
        index: u8,
    },
    /// To an Immix space.
    Immix {
        /// The number of the space.
        index: u8,
    },
    /// To an Immix space that promotes and defragments.
    ImmixHybrid {
        /// The number of the space.
        index: u8,
    },
    /// Nowhere: the plan makes no such copies.
    Unused,
}

} // verus!
