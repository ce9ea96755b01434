//! How a worker allocates copies in the Immix space.

use crate::policy::immix::immixspace::ImmixSpace;
use crate::util::address::{Address, ObjectReference};
use crate::util::metadata::HeapMetadata;
use vstd::prelude::*;

verus! {

/// A thread-local allocator of the Immix space.
#[derive(Debug, Clone, Copy, PartialEq, Eq, Structural)]
pub struct ImmixAllocator {
    /// Whether the allocator is for copies of a defragmenting collection.
    pub copy: bool,
    /// The next free address of the current run of lines.
    pub cursor: Address,
    /// The address after the current run of lines.
    pub limit: Address,
}

impl ImmixAllocator {
    /// An allocator without a run of lines.
    pub fn new(copy: bool) -> (allocator: Self)
        ensures
            allocator == (ImmixAllocator { copy, cursor: Address(0), limit: Address(0) }),
    {
        ImmixAllocator { copy, cursor: Address(0), limit: Address(0) }
    }

    /// Gives up the current run of lines.
    pub fn reset(&mut self)
        ensures
            *final(self) == (ImmixAllocator {
                copy: old(self).copy,
                cursor: Address(0),
                limit: Address(0),
            }),
    {
        self.cursor = Address(0);
        self.limit = Address(0);
    }
}

/// A copy context with one allocator, which is for defragmentation.
pub struct ImmixCopyContext {
    /// The allocator.
    pub allocator: ImmixAllocator,
}

impl ImmixCopyContext {
    /// A context without a run of lines.
    pub fn new() -> (context: Self)
        ensures
            context.allocator == (ImmixAllocator {
                copy: true,
                cursor: Address(0),
                limit: Address(0),
            }),
    {
        ImmixCopyContext { allocator: ImmixAllocator::new(true) }
    }

    /// Prepares for a collection.
    pub fn prepare(&mut self)
        ensures
            final(self).allocator == (ImmixAllocator {
                copy: old(self).allocator.copy,
                cursor: Address(0),
                limit: Address(0),
            }),
    {
        self.allocator.reset();
    }

    /// Ends a collection.
    pub fn release(&mut self)
        ensures
            final(self).allocator == (ImmixAllocator {
                copy: old(self).allocator.copy,
                cursor: Address(0),
                limit: Address(0),
            }),
    {
        self.allocator.reset();
    }

    /// Allocates room for a copy. `alloc` allocates from an allocator, and returns the allocator
    /// after that and the address.
    pub fn alloc_copy<F: FnOnce(ImmixAllocator) -> (ImmixAllocator, Address)>(&mut self, alloc: F) -> (address:
        Address)
        requires
            call_requires(alloc, (old(self).allocator,)),
        ensures
            call_ensures(alloc, (old(self).allocator,), (final(self).allocator, address)),
    {
        let outcome: (ImmixAllocator, Address) = alloc(self.allocator);
        self.allocator = outcome.0;
        outcome.1
    }

    /// Completes a copy.
    pub fn post_copy(&self, space: &ImmixSpace, meta: &mut HeapMetadata, object: ObjectReference)
        requires
            old(meta).wf(),
            old(meta)@.in_heap(object.addr()),
        ensures
            final(meta).wf(),
            final(meta)@ == space@.copied_to(old(meta)@, object.addr()),
    {
        space.post_copy(meta, object);
    }
}

/// A copy context with two allocators: one for defragmentation, and one for promotion from the
/// nursery.
pub struct ImmixHybridCopyContext {
    /// The allocator for promotion.
    pub copy_allocator: ImmixAllocator,
    /// The allocator for defragmentation.
    pub defrag_allocator: ImmixAllocator,
}

impl ImmixHybridCopyContext {
    /// A context without runs of lines.
    pub fn new() -> (context: Self)
        ensures
            context.copy_allocator == (ImmixAllocator {
                copy: false,
                cursor: Address(0),
                limit: Address(0),
            }),
            context.defrag_allocator == (ImmixAllocator {
                copy: true,
                cursor: Address(0),
                limit: Address(0),
            }),
    {
        ImmixHybridCopyContext {
            copy_allocator: ImmixAllocator::new(false),
            defrag_allocator: ImmixAllocator::new(true),
        }
    }

    /// Prepares for a collection.
    pub fn prepare(&mut self)
        ensures
            final(self).copy_allocator == (ImmixAllocator {
                copy: old(self).copy_allocator.copy,
                cursor: Address(0),
                limit: Address(0),
            }),
            final(self).defrag_allocator == (ImmixAllocator {
                copy: old(self).defrag_allocator.copy,
                cursor: Address(0),
                limit: Address(0),
            }),
    {
        self.copy_allocator.reset();
        self.defrag_allocator.reset();
    }

    /// Ends a collection.
    pub fn release(&mut self)
        ensures
            final(self).copy_allocator == (ImmixAllocator {
                copy: old(self).copy_allocator.copy,
                cursor: Address(0),
                limit: Address(0),
            }),
            final(self).defrag_allocator == (ImmixAllocator {
                copy: old(self).defrag_allocator.copy,
                cursor: Address(0),
                limit: Address(0),
            }),
    {
        self.copy_allocator.reset();
        self.defrag_allocator.reset();
    }

    /// Allocates room for a copy: in a defragmenting collection from the allocator for
    /// defragmentation, otherwise from the one for promotion. `alloc` allocates from an allocator,
    /// and returns the allocator after that and the address.
    pub fn alloc_copy<F: FnOnce(ImmixAllocator) -> (ImmixAllocator, Address)>(
        &mut self,
        space: &ImmixSpace,
        alloc: F,
    ) -> (address: Address)
        requires
            call_requires(
                alloc,
                (if space@.defrag.in_defrag {
                    old(self).defrag_allocator
                } else {
                    old(self).copy_allocator
                },),
            ),
        ensures
            space@.defrag.in_defrag ==> final(self).copy_allocator == old(self).copy_allocator
                && call_ensures(
                alloc,
                (old(self).defrag_allocator,),
                (final(self).defrag_allocator, address),
            ),
            !space@.defrag.in_defrag ==> final(self).defrag_allocator == old(
                self,
            ).defrag_allocator && call_ensures(
                alloc,
                (old(self).copy_allocator,),
                (final(self).copy_allocator, address),
            ),
    {
        if space.in_defrag() {
            let outcome: (ImmixAllocator, Address) = alloc(self.defrag_allocator);
            self.defrag_allocator = outcome.0;
            outcome.1
        } else {
            let outcome: (ImmixAllocator, Address) = alloc(self.copy_allocator);
            self.copy_allocator = outcome.0;
            outcome.1
        }
    }

    /// Completes a copy.
    pub fn post_copy(&self, space: &ImmixSpace, meta: &mut HeapMetadata, object: ObjectReference)
        requires
            old(meta).wf(),
            old(meta)@.in_heap(object.addr()),
        ensures
            final(meta).wf(),
            final(meta)@ == space@.copied_to(old(meta)@, object.addr()),
    {
        space.post_copy(meta, object);
    }
}

} // verus!
