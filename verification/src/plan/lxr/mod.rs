//! LXR: reference counting on an Immix heap.

pub mod barrier;
pub mod barrier_laws;
pub mod decrements;
pub mod global;
pub mod increments;
pub mod keep_alive;
pub mod laws;
pub mod listing;
pub mod pause_laws;
pub mod rc;

use vstd::prelude::*;

verus! {

/// The kinds of pause of the LXR plan.
#[derive(Debug, Clone, Copy, PartialEq, Eq, Structural)]
pub enum Pause {
    /// A reference-counting pause with a trace that finds the cycles which counts cannot.
    Full,
    /// A pause that also defragments the heap.
    FullDefrag,
    /// The steady-state pause: increments, decrements and the sweeps of blocks.
    RefCount,
    /// The first pause of a concurrent trace.
    InitialMark,
    /// The last pause of a concurrent trace.
    FinalMark,
}

impl Default for Pause {
    fn default() -> (pause: Self)
        ensures
            pause == Pause::Full,
    {
        Pause::Full
    }
}

} // verus!
