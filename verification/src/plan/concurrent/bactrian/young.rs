//! The spaces around the mature space, as far as the plan deals with them.

use crate::plan::constraints::CopySemantics;
use crate::util::address::ObjectReference;
use std::collections::HashSet;
use vstd::prelude::*;

verus! {

broadcast use vstd::std_specs::hash::group_hash_axioms;

/// What the plan has asked of a copying space of the nursery.
#[derive(Debug, Clone, Copy, PartialEq, Eq, Structural)]
pub struct CopySpace {
    /// Objects are copied out of the space.
    pub from_space: bool,
    /// What such a copy is for.
    pub copy: Option<CopySemantics>,
    /// The space was released after it was last prepared.
    pub released: bool,
}

impl CopySpace {
    /// A space before its first collection.
    pub fn new(from_space: bool) -> (space: Self)
        ensures
            space == (CopySpace { from_space, copy: None, released: false }),
    {
        CopySpace { from_space, copy: None, released: false }
    }

    /// The space after it was prepared.
    pub open spec fn prepared(self, from_space: bool) -> CopySpace {
        CopySpace { from_space, released: false, ..self }
    }

    /// The space after it was prepared, and told what copies out of it are for.
    pub open spec fn prepared_for(self, from_space: bool, copy: Option<CopySemantics>) -> CopySpace {
        CopySpace { from_space, copy, released: false }
    }

    /// The space after it was released.
    pub open spec fn after_release(self) -> CopySpace {
        CopySpace { released: true, ..self }
    }

    /// Prepares the space: objects are copied out of it, or into it.
    pub fn prepare(&mut self, from_space: bool)
        ensures
            *final(self) == old(self).prepared(from_space),
    {
        self.from_space = from_space;
        self.released = false;
    }

    /// Sets what copies out of the space are for.
    pub fn set_copy_for_sft_trace(&mut self, copy: Option<CopySemantics>)
        ensures
            *final(self) == (CopySpace { copy, ..*old(self) }),
    {
        self.copy = copy;
    }

    /// Releases the space: everything in it is gone.
    pub fn release(&mut self)
        ensures
            *final(self) == old(self).after_release(),
    {
        self.released = true;
    }
}

/// The large-object space and the other spaces that the plans have in common, as far as a trace
/// meets them.
pub struct CommonSpaces {
    /// The young large objects.
    pub young: HashSet<usize>,
    /// The objects that a trace in the current collection has not met.
    pub untraced: HashSet<usize>,
    /// Traces mark the large objects of all ages.
    pub full_semantics: bool,
}

/// What the common spaces hold.
#[verifier::ext_equal]
pub ghost struct CommonView {
    /// The young large objects.
    pub young: Set<usize>,
    /// The objects that a trace in the current collection has not met.
    pub untraced: Set<usize>,
    /// Traces mark the large objects of all ages.
    pub full_semantics: bool,
}

impl View for CommonSpaces {
    type V = CommonView;

    open spec fn view(&self) -> CommonView {
        CommonView {
            young: self.young@,
            untraced: self.untraced@,
            full_semantics: self.full_semantics,
        }
    }
}

impl CommonView {
    /// The spaces after a trace met an object.
    pub open spec fn traced(self, object: ObjectReference) -> CommonView {
        if self.untraced.contains(object.0.0) {
            CommonView {
                young: self.young.remove(object.0.0),
                untraced: self.untraced.remove(object.0.0),
                ..self
            }
        } else {
            self
        }
    }

    /// The queue of objects to scan after a trace met an object.
    pub open spec fn queue_traced(
        self,
        queue: Seq<ObjectReference>,
        object: ObjectReference,
    ) -> Seq<ObjectReference> {
        if self.untraced.contains(object.0.0) {
            queue.push(object)
        } else {
            queue
        }
    }
}

impl CommonSpaces {
    /// Spaces without objects.
    pub fn new() -> (spaces: Self)
        ensures
            spaces@ == (CommonView {
                young: Set::empty(),
                untraced: Set::empty(),
                full_semantics: false,
            }),
    {
        CommonSpaces { young: HashSet::new(), untraced: HashSet::new(), full_semantics: false }
    }

    /// Whether a large object is young.
    pub fn is_in_nursery(&self, object: ObjectReference) -> (young: bool)
        ensures
            young == self@.young.contains(object.0.0),
    {
        self.young.contains(&object.0.0)
    }

    /// Traces an object. One that no trace has met before is no longer young, and is queued for
    /// its fields to be scanned.
    pub fn trace_object(&mut self, queue: &mut Vec<ObjectReference>, object: ObjectReference)
        ensures
            final(self)@ == old(self)@.traced(object),
            final(queue)@ == old(self)@.queue_traced(old(queue)@, object),
    {
        if self.untraced.remove(&object.0.0) {
            self.young.remove(&object.0.0);
            queue.push(object);
        }
    }

    /// Sets whether traces mark the large objects of all ages. Returns what was set before.
    pub fn set_marking_full_semantics(&mut self, full: bool) -> (was_full: bool)
        ensures
            was_full == old(self)@.full_semantics,
            final(self)@ == (CommonView { full_semantics: full, ..old(self)@ }),
    {
        let was_full: bool = self.full_semantics;
        self.full_semantics = full;
        was_full
    }
}

} // verus!
