//! What the collector asks of the language runtime, as plain data.

use crate::util::address::{Address, ObjectReference};
use crate::util::constants::{BYTES_IN_LINE, MIN_OBJECT_SIZE};
use crate::util::metadata::MetadataView;
use std::collections::HashMap;
use vstd::prelude::*;

verus! {

broadcast use vstd::std_specs::hash::group_hash_axioms;

/// Where the runtime keeps a piece of per-object metadata.
#[derive(Debug, Clone, Copy, PartialEq, Eq, Structural)]
pub enum MetadataLocation {
    /// In the object's header, at a bit offset.
    InHeader {
        /// The offset in bits from the start of the object.
        bit_offset: i32,
    },
    /// In a side table.
    OnSide,
}

/// How the runtime lays out per-object metadata, and how the current pause traces.
#[derive(Debug, Clone, Copy, PartialEq, Eq, Structural)]
pub struct VmConfig {
    /// The runtime guarantees that every header word is below the heap, so that a header word
    /// which is a heap address is a forwarding pointer.
    pub header_forwarding_sentinel: bool,
    /// The lowest heap address.
    pub heap_start: usize,
    /// Where the forwarding pointer is.
    pub forwarding_pointer: MetadataLocation,
    /// Where the forwarding bits are.
    pub forwarding_bits: MetadataLocation,
    /// Where the mark bit is.
    pub mark_bit: MetadataLocation,
    /// Where the pinning bit is, if objects can be pinned.
    pub pinning_bit: Option<MetadataLocation>,
    /// The pause has the world stopped and a single tracer.
    pub single_tracer: bool,
}

/// The place of a reference.
#[derive(Debug, Clone, Copy, PartialEq, Eq, Structural)]
pub struct Slot(pub Address);

/// The objects as the runtime describes them.
pub struct ObjectModel {
    /// The size in bytes of the object at an address.
    pub sizes: HashMap<usize, usize>,
    /// The slots of the pointer fields of the object at an address.
    pub fields: HashMap<usize, Vec<Slot>>,
    /// The address that a slot refers to. A slot without an entry, or with a zero entry, holds
    /// no reference.
    pub slots: HashMap<usize, usize>,
}

impl ObjectModel {
    /// The size of the object at `address`.
    pub open spec fn size(&self, address: usize) -> usize {
        if self.sizes@.dom().contains(address) {
            self.sizes@[address]
        } else {
            0
        }
    }

    /// The slots of the pointer fields of the object at `address`.
    pub open spec fn field_slots(&self, address: usize) -> Seq<Slot> {
        if self.fields@.dom().contains(address) {
            self.fields@[address]@
        } else {
            Seq::empty()
        }
    }

    /// What a slot refers to.
    pub open spec fn target(&self, slot: Slot) -> Option<ObjectReference> {
        if self.slots@.dom().contains(slot.0.0) && self.slots@[slot.0.0] != 0 {
            Some(ObjectReference(Address(self.slots@[slot.0.0])))
        } else {
            None
        }
    }

    /// The object at `address` has a pointer field that refers to `target`.
    pub open spec fn refers(&self, address: usize, target: ObjectReference) -> bool {
        exists|i: int|
            0 <= i < self.field_slots(address).len() && self.target(
                #[trigger] self.field_slots(address)[i],
            ) == Some(target)
    }

    /// Every object that starts in the heap ends in the heap.
    pub open spec fn fits(&self, m: MetadataView) -> bool {
        forall|address: usize| #[trigger]
            self.size(address) > 0 && m.in_heap(address as int) ==> address + self.size(address)
                <= m.end()
    }

    /// The pointer fields of objects refer into the heap.
    pub open spec fn fields_valid(&self, m: MetadataView) -> bool {
        forall|address: usize, i: int|
            0 <= i < self.field_slots(address).len() ==> (self.target(
                #[trigger] self.field_slots(address)[i],
            ) matches Some(target) ==> m.in_heap(target.addr()))
    }

    /// The pointer fields of objects refer to aligned addresses.
    pub open spec fn fields_aligned(&self) -> bool {
        forall|address: usize, target: ObjectReference| #[trigger]
            self.refers(address, target) ==> target.addr() % MIN_OBJECT_SIZE as int == 0
    }

    /// Nothing is described at `address`.
    pub open spec fn absent(&self, address: usize) -> bool {
        self.size(address) == 0 && self.field_slots(address).len() == 0
    }

    /// Objects are aligned and do not overlap: nothing is described at an address that is not a
    /// multiple of the smallest object size, nor at the start of a line that an object covers
    /// after its first.
    pub open spec fn separate(&self, m: MetadataView) -> bool {
        &&& forall|address: usize|
            #![trigger self.absent(address)]
            address as int % MIN_OBJECT_SIZE as int != 0 ==> self.absent(address)
        &&& forall|a: usize, b: usize|
            #![trigger self.size(a), self.absent(b)]
            m.in_heap(a as int) && m.in_heap(b as int) && self.size(a) > BYTES_IN_LINE && b as int
                % BYTES_IN_LINE as int == 0 && m.line(a as int) < m.line(b as int) < m.line(
                a + self.size(a),
            ) ==> self.absent(b)
    }

    /// A model without objects.
    pub fn new() -> (model: Self)
        ensures
            model.sizes@ == Map::<usize, usize>::empty(),
            model.fields@ == Map::<usize, Vec<Slot>>::empty(),
            model.slots@ == Map::<usize, usize>::empty(),
    {
        ObjectModel { sizes: HashMap::new(), fields: HashMap::new(), slots: HashMap::new() }
    }

    /// The size of an object.
    pub fn get_current_size(&self, object: ObjectReference) -> (size: usize)
        ensures
            size == self.size(object.0.0),
    {
        match self.sizes.get(&object.0.0) {
            Some(size) => *size,
            None => 0,
        }
    }

    /// The slots of the pointer fields of an object.
    pub fn iterate_fields(&self, object: ObjectReference) -> (slots: Vec<Slot>)
        ensures
            slots@ == self.field_slots(object.0.0),
    {
        match self.fields.get(&object.0.0) {
            Some(fields) => {
                let mut slots: Vec<Slot> = Vec::new();
                let mut i: usize = 0;
                while i < fields.len()
                    invariant
                        i <= fields@.len(),
                        slots@ == fields@.subrange(0, i as int),
                    decreases fields@.len() - i,
                {
                    slots.push(fields[i]);
                    i += 1;
                }
                slots
            },
            None => Vec::new(),
        }
    }

    /// Loads a slot.
    pub fn load(&self, slot: Slot) -> (target: Option<ObjectReference>)
        ensures
            target == self.target(slot),
    {
        match self.slots.get(&slot.0.0) {
            Some(address) => ObjectReference::from_raw_address(Address(*address)),
            None => None,
        }
    }

    /// Stores a reference into a slot.
    pub fn store(&mut self, slot: Slot, target: ObjectReference)
        ensures
            final(self).slots@ == old(self).slots@.insert(slot.0.0, target.0.0),
            final(self).sizes@ == old(self).sizes@,
            final(self).fields@ == old(self).fields@,
    {
        self.slots.insert(slot.0.0, target.0.0);
    }

    /// Describes an object.
    pub fn define(&mut self, object: ObjectReference, size: usize, fields: Vec<Slot>)
        ensures
            final(self).sizes@ == old(self).sizes@.insert(object.0.0, size),
            final(self).fields@ == old(self).fields@.insert(object.0.0, fields),
            final(self).slots@ == old(self).slots@,
    {
        self.sizes.insert(object.0.0, size);
        self.fields.insert(object.0.0, fields);
    }
}

} // verus!
