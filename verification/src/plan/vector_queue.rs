//! A buffer of work items that is flushed when it is full.

use vstd::prelude::*;

verus! {

/// How many items make a buffer full.
pub const VECTOR_QUEUE_CAPACITY: usize = 4096;

/// A buffer of work items.
pub struct VectorQueue<T> {
    buffer: Vec<T>,
}

impl<T> View for VectorQueue<T> {
    type V = Seq<T>;

    closed spec fn view(&self) -> Seq<T> {
        self.buffer@
    }
}

impl<T> VectorQueue<T> {
    /// An empty buffer.
    pub fn new() -> (queue: Self)
        ensures
            queue@ == Seq::<T>::empty(),
    {
        VectorQueue { buffer: Vec::new() }
    }

    /// Adds an item.
    pub fn push(&mut self, item: T)
        ensures
            final(self)@ == old(self)@.push(item),
    {
        self.buffer.push(item);
    }

    /// The number of items.
    pub fn len(&self) -> (len: usize)
        ensures
            len == self@.len(),
    {
        self.buffer.len()
    }

    /// Whether there is no item.
    pub fn is_empty(&self) -> (empty: bool)
        ensures
            empty == (self@.len() == 0),
    {
        self.buffer.len() == 0
    }

    /// Whether the buffer is full.
    pub fn is_full(&self) -> (full: bool)
        ensures
            full == (self@.len() >= VECTOR_QUEUE_CAPACITY),
    {
        self.buffer.len() >= VECTOR_QUEUE_CAPACITY
    }

    /// Takes all items.
    pub fn take(&mut self) -> (items: Vec<T>)
        ensures
            items@ == old(self)@,
            final(self)@ == Seq::<T>::empty(),
    {
        let mut items: Vec<T> = Vec::new();
        std::mem::swap(&mut items, &mut self.buffer);
        items
    }
}

} // verus!
