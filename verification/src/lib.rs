//! Garbage collection on Immix heaps: the metadata tables of the heap, the Immix space, the
//! reference-counting plan LXR and the generational concurrent plan Bactrian.

pub mod args;
pub mod args_laws;
pub mod plan;
pub mod policy;
pub mod scheduler;
pub mod util;

use std::sync::atomic::AtomicUsize;
use std::sync::Arc;
use vstd::prelude::*;

verus! {

/// The counters that keep track of lazy sweeping jobs.
pub struct LazySweepingJobsCounter {
    decs_counter: Option<Arc<AtomicUsize>>,
    counter: Arc<AtomicUsize>,
}

impl LazySweepingJobsCounter {
    /// The counter of decrement jobs, if the job takes part in it.
    pub closed spec fn decs(self) -> Option<Arc<AtomicUsize>> {
        self.decs_counter
    }

    /// The counter of all jobs.
    pub closed spec fn jobs(self) -> Arc<AtomicUsize> {
        self.counter
    }

    /// Fresh counters, at zero, for a job that is not a decrement job. No contract tells the count.
    pub fn new() -> (counter: Self)
        ensures
            counter.decs() is None,
    {
        LazySweepingJobsCounter { decs_counter: None, counter: Arc::new(AtomicUsize::new(0)) }
    }

    /// Fresh counters for a decrement job.
    pub fn new_decs() -> (counter: Self)
        ensures
            counter.decs() is Some,
    {
        LazySweepingJobsCounter {
            decs_counter: Some(Arc::new(AtomicUsize::new(0))),
            counter: Arc::new(AtomicUsize::new(0)),
        }
    }

    /// The counters for another job that is not a decrement job.
    pub fn clone(&self) -> (counter: Self)
        ensures
            counter.decs() is None,
            counter.jobs() == self.jobs(),
    {
        LazySweepingJobsCounter { decs_counter: None, counter: self.counter.clone() }
    }

    /// The counters for another job of the same kind.
    pub fn clone_with_decs(&self) -> (counter: Self)
        ensures
            counter.decs() == self.decs(),
            counter.jobs() == self.jobs(),
    {
        LazySweepingJobsCounter {
            decs_counter: match &self.decs_counter {
                Some(decs) => Some(decs.clone()),
                None => None,
            },
            counter: self.counter.clone(),
        }
    }
}

impl Default for LazySweepingJobsCounter {
    fn default() -> (counter: Self)
        ensures
            counter.decs() is None,
    {
        Self::new()
    }
}

} // verus!
