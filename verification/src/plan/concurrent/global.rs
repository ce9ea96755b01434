//! What the rest of the collector asks of a concurrent plan.

use crate::plan::concurrent::Pause;
use crate::util::address::ObjectReference;
use crate::util::metadata::HeapMetadata;
use vstd::prelude::*;

verus! {

/// A concurrent plan.
pub trait ConcurrentPlan: Sized {
    /// Concurrent work, such as marking, is in progress.
    spec fn in_progress(&self) -> bool;

    /// The pause in progress.
    spec fn pause(&self) -> Option<Pause>;

    /// Whether concurrent work, such as marking, is in progress.
    fn concurrent_work_in_progress(&self) -> (in_progress: bool)
        ensures
            in_progress == self.in_progress(),
    ;

    /// The pause in progress.
    fn current_pause(&self) -> (pause: Option<Pause>)
        ensures
            pause == self.pause(),
    ;

    /// Whether the marker must leave an object alone. A generational plan excludes the nursery:
    /// its objects move in every pause, and all of them are younger than the snapshot.
    fn should_skip_concurrent_trace(&self, meta: &HeapMetadata, object: ObjectReference) -> (skip:
        bool)
        requires
            meta.wf(),
        default_ensures
            !skip,
    {
        false
    }

    /// Whether the pause in progress completes the marks of the whole heap.
    fn current_pause_finishes_mark(&self) -> (finishes: bool)
        ensures
            finishes == (self.pause() == Some(Pause::FinalMark) || self.pause() == Some(
                Pause::Full,
            )),
    {
        match self.current_pause() {
            Some(Pause::FinalMark) => true,
            Some(Pause::Full) => true,
            _ => false,
        }
    }

    /// Takes a marking packet: whether it came from a write barrier, and the addresses of its
    /// objects. What the plan does not keep is returned, and goes into the bucket for work beside
    /// the mutators.
    fn schedule_marking_packet(&mut self, from_barrier: bool, objects: Vec<usize>) -> (returned:
        Option<(bool, Vec<usize>)>)
        default_ensures
            *final(self) == *old(self),
            returned == Some((from_barrier, objects)),
    {
        Some((from_barrier, objects))
    }

    /// Whether no marking packet is left. `bucket_drained` says so of the bucket for work beside
    /// the mutators.
    fn marking_queue_drained(&self, bucket_drained: bool) -> (drained: bool)
        default_ensures
            drained == bucket_drained,
    {
        bucket_drained
    }

    /// Whether all marking happens in pauses.
    fn marking_confined_to_pauses(&self) -> (confined: bool)
        default_ensures
            !confined,
    {
        false
    }

    /// Whether the pause before completed the marks of the whole heap.
    fn previous_pause_finished_mark(&self) -> (finished: bool)
        default_ensures
            !finished,
    {
        false
    }

    /// Whether the sweep after a marking cycle is complete.
    fn sweep_drained(&self) -> (drained: bool)
        default_ensures
            drained,
    {
        true
    }

    /// Asks for a pause in which marking or sweeping goes on.
    fn request_progress_pause(&mut self)
        default_ensures
            *final(self) == *old(self),
    {
    }

    /// The bytes that the mature space has reserved, and those that the last major collection
    /// found live, if the plan tells. `reserved_pages` is what the space has reserved.
    fn mature_footprint_and_live(&self, reserved_pages: usize) -> (bytes: Option<(usize, usize)>)
        requires
            reserved_pages * 4096 <= usize::MAX,
        default_ensures
            bytes is None,
    {
        None
    }

    /// Asks that the next major collection empties every block of the mature space.
    fn request_mature_compaction(&mut self)
        default_ensures
            *final(self) == *old(self),
    {
    }

    /// Takes note of how long, in nanoseconds, a pause should mark in the coming cycle, and
    /// whether the allocation of mature objects asked for the cycle.
    fn set_mark_quantum_hint(&mut self, nanos: u64, tick_origin: bool)
        default_ensures
            *final(self) == *old(self),
    {
    }

    /// Whether the pause before started a marking cycle.
    fn previous_pause_started_cycle(&self) -> (started: bool)
        default_ensures
            !started,
    {
        false
    }
}

} // verus!
