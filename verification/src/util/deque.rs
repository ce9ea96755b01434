//! Queues of parked work packets.
//!
//! The queues are those of the `crossbeam` crate. What is stated here of each operation holds
//! while the caller has the queue to itself.

use crossbeam::deque::{Injector, Steal};
use vstd::prelude::*;

verus! {

/// `crossbeam::deque::Injector`, an unbounded first-in first-out queue.
#[verifier::external_type_specification]
#[verifier::external_body]
#[verifier::reject_recursive_types(T)]
pub struct ExInjector<T>(Injector<T>);

/// The parked chunks in a queue, oldest first: the address of each.
pub uninterp spec fn parked_chunks(queue: Injector<usize>) -> Seq<usize>;

/// The parked marking packets in a queue, oldest first: whether each came from a write barrier,
/// and the addresses of its objects.
pub uninterp spec fn parked_objects(queue: Injector<(bool, Vec<usize>)>) -> Seq<(bool, Vec<usize>)>;

/// What an attempt to take a packet came to.
#[derive(Debug)]
pub enum Taken<T> {
    /// The oldest packet.
    Packet(T),
    /// There was none.
    Empty,
    /// The attempt failed and must be repeated.
    Retry,
}

impl<T> Taken<T> {
    /// Whether the attempt is to be repeated: iff it failed, be it the first or not. A packet that
    /// was taken and a queue that was empty are final.
    pub fn try_again(&self) -> (again: bool)
        ensures
            again == (*self is Retry),
    {
        match self {
            Taken::Retry => true,
            Taken::Packet(_) => false,
            Taken::Empty => false,
        }
    }
}

/// How often an attempt to take a packet is repeated.
pub const STEAL_ATTEMPTS: usize = usize::MAX;

/// `Injector::new`: an empty queue of chunks.
#[verifier::external_body]
fn new_chunk_queue() -> (queue: Injector<usize>)
    ensures
        parked_chunks(queue) == Seq::<usize>::empty(),
{
    Injector::new()
}

/// `Injector::push`: the chunk becomes the youngest entry.
#[verifier::external_body]
fn park_chunk(queue: &mut Injector<usize>, chunk: usize)
    ensures
        parked_chunks(*final(queue)) == parked_chunks(*old(queue)).push(chunk),
{
    queue.push(chunk)
}

/// `Injector::steal`: says that the queue is empty iff it is. Otherwise it takes the oldest entry,
/// or fails and leaves the queue as it was: its weak exchange may fail for no reason.
#[verifier::external_body]
fn steal_chunk(queue: &mut Injector<usize>) -> (taken: Taken<usize>)
    ensures
        taken is Empty <==> parked_chunks(*old(queue)).len() == 0,
        match taken {
            Taken::Packet(chunk) => chunk == parked_chunks(*old(queue))[0] && parked_chunks(
                *final(queue),
            ) == parked_chunks(*old(queue)).drop_first(),
            _ => parked_chunks(*final(queue)) == parked_chunks(*old(queue)),
        },
{
    match queue.steal() {
        Steal::Success(chunk) => Taken::Packet(chunk),
        Steal::Empty => Taken::Empty,
        Steal::Retry => Taken::Retry,
    }
}

/// `Injector::is_empty`: whether there is no entry.
#[verifier::external_body]
fn no_parked_chunks(queue: &Injector<usize>) -> (empty: bool)
    ensures
        empty == (parked_chunks(*queue).len() == 0),
{
    queue.is_empty()
}

/// `Injector::len`: the number of entries.
#[verifier::external_body]
fn count_chunks(queue: &Injector<usize>) -> (len: usize)
    ensures
        len == parked_chunks(*queue).len(),
{
    queue.len()
}

/// `Injector::new`: an empty queue of marking packets.
#[verifier::external_body]
fn new_marking_queue() -> (queue: Injector<(bool, Vec<usize>)>)
    ensures
        parked_objects(queue) == Seq::<(bool, Vec<usize>)>::empty(),
{
    Injector::new()
}

/// `Injector::push`: the packet becomes the youngest entry.
#[verifier::external_body]
fn park_objects(queue: &mut Injector<(bool, Vec<usize>)>, packet: (bool, Vec<usize>))
    ensures
        parked_objects(*final(queue)) == parked_objects(*old(queue)).push(packet),
{
    queue.push(packet)
}

/// `Injector::steal`: says that the queue is empty iff it is. Otherwise it takes the oldest entry,
/// or fails and leaves the queue as it was: its weak exchange may fail for no reason.
#[verifier::external_body]
fn steal_objects(queue: &mut Injector<(bool, Vec<usize>)>) -> (taken: Taken<(bool, Vec<usize>)>)
    ensures
        taken is Empty <==> parked_objects(*old(queue)).len() == 0,
        match taken {
            Taken::Packet(packet) => packet == parked_objects(*old(queue))[0] && parked_objects(
                *final(queue),
            ) == parked_objects(*old(queue)).drop_first(),
            _ => parked_objects(*final(queue)) == parked_objects(*old(queue)),
        },
{
    match queue.steal() {
        Steal::Success(packet) => Taken::Packet(packet),
        Steal::Empty => Taken::Empty,
        Steal::Retry => Taken::Retry,
    }
}

/// `Injector::is_empty`: whether there is no entry.
#[verifier::external_body]
fn no_parked_objects(queue: &Injector<(bool, Vec<usize>)>) -> (empty: bool)
    ensures
        empty == (parked_objects(*queue).len() == 0),
{
    queue.is_empty()
}

/// The parked chunks that wait for their sweep.
pub struct ParkedChunks {
    queue: Injector<usize>,
}

impl View for ParkedChunks {
    type V = Seq<usize>;

    closed spec fn view(&self) -> Seq<usize> {
        parked_chunks(self.queue)
    }
}

impl ParkedChunks {
    /// No chunk.
    pub fn new() -> (parked: Self)
        ensures
            parked@ == Seq::<usize>::empty(),
    {
        ParkedChunks { queue: new_chunk_queue() }
    }

    /// Parks a chunk as the youngest.
    pub fn push(&mut self, chunk: usize)
        ensures
            final(self)@ == old(self)@.push(chunk),
    {
        park_chunk(&mut self.queue, chunk);
    }

    /// Takes the oldest chunk. An attempt that fails is repeated.
    pub fn pop(&mut self) -> (taken: Taken<usize>)
        ensures
            taken is Empty <==> old(self)@.len() == 0,
            taken matches Taken::Packet(chunk) ==> chunk == old(self)@[0],
            final(self)@ == if taken is Packet {
                old(self)@.drop_first()
            } else {
                old(self)@
            },
    {
        let mut attempts: usize = STEAL_ATTEMPTS;
        while attempts > 0
            invariant
                self@ == old(self)@,
                attempts == 0 ==> old(self)@.len() > 0,
            decreases attempts,
        {
            let taken: Taken<usize> = steal_chunk(&mut self.queue);
            if !taken.try_again() {
                return taken;
            }
            attempts = attempts - 1;
        }
        Taken::Retry
    }

    /// Whether no chunk is parked.
    pub fn is_empty(&self) -> (empty: bool)
        ensures
            empty == (self@.len() == 0),
    {
        no_parked_chunks(&self.queue)
    }

    /// How many chunks are parked.
    pub fn len(&self) -> (len: usize)
        ensures
            len == self@.len(),
    {
        count_chunks(&self.queue)
    }
}

/// Marking packets as the contracts speak of them.
pub open spec fn packet_views(packets: Seq<(bool, Vec<usize>)>) -> Seq<(bool, Seq<usize>)> {
    packets.map_values(|packet: (bool, Vec<usize>)| (packet.0, packet.1@))
}

/// The parked marking packets.
pub struct ParkedPackets {
    queue: Injector<(bool, Vec<usize>)>,
}

impl View for ParkedPackets {
    type V = Seq<(bool, Seq<usize>)>;

    closed spec fn view(&self) -> Seq<(bool, Seq<usize>)> {
        packet_views(parked_objects(self.queue))
    }
}

impl ParkedPackets {
    /// No packet.
    pub fn new() -> (parked: Self)
        ensures
            parked@ == Seq::<(bool, Seq<usize>)>::empty(),
    {
        let parked = ParkedPackets { queue: new_marking_queue() };
        assert(parked@ =~= Seq::empty());
        parked
    }

    /// Parks a packet as the youngest: whether it came from a write barrier, and the addresses of
    /// its objects.
    pub fn push(&mut self, from_barrier: bool, objects: Vec<usize>)
        ensures
            final(self)@ == old(self)@.push((from_barrier, objects@)),
    {
        let ghost before: Seq<(bool, Seq<usize>)> = self@;
        let ghost items: Seq<usize> = objects@;
        park_objects(&mut self.queue, (from_barrier, objects));
        assert(self@ =~= before.push((from_barrier, items)));
    }

    /// Takes the oldest packet. An attempt that fails is repeated.
    pub fn pop(&mut self) -> (taken: Taken<(bool, Vec<usize>)>)
        ensures
            taken is Empty <==> old(self)@.len() == 0,
            taken matches Taken::Packet(packet) ==> (packet.0, packet.1@) == old(self)@[0],
            final(self)@ == if taken is Packet {
                old(self)@.drop_first()
            } else {
                old(self)@
            },
    {
        let ghost before: Seq<(bool, Seq<usize>)> = self@;
        let mut attempts: usize = STEAL_ATTEMPTS;
        while attempts > 0
            invariant
                self@ == before,
                before == old(self)@,
                attempts == 0 ==> before.len() > 0,
            decreases attempts,
        {
            let taken: Taken<(bool, Vec<usize>)> = steal_objects(&mut self.queue);
            if !taken.try_again() {
                assert(taken is Packet ==> self@ =~= before.drop_first());
                return taken;
            }
            attempts = attempts - 1;
        }
        Taken::Retry
    }

    /// Whether no packet is parked.
    pub fn is_empty(&self) -> (empty: bool)
        ensures
            empty == (self@.len() == 0),
    {
        no_parked_objects(&self.queue)
    }
}

} // verus!
