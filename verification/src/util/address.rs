//! Raw addresses and object references.

use vstd::prelude::*;

verus! {

/// A raw memory address.
#[derive(Debug, Clone, Copy, PartialEq, Eq, Structural, Hash)]
pub struct Address(pub usize);

impl Address {
    /// Whether the address is zero.
    pub fn is_zero(&self) -> (zero: bool)
        ensures
            zero == (self.0 == 0),
    {
        self.0 == 0
    }

    /// Whether the address is a multiple of `align`.
    pub fn is_aligned_to(&self, align: usize) -> (aligned: bool)
        requires
            align > 0,
        ensures
            aligned == (self.0 as int % align as int == 0),
    {
        self.0 % align == 0
    }
}

/// A reference to an object: the raw address of the object, which is never zero.
#[derive(Debug, Clone, Copy, PartialEq, Eq, Structural, Hash)]
pub struct ObjectReference(pub Address);

impl ObjectReference {
    /// The reference with the given raw address, or `None` for the zero address.
    pub fn from_raw_address(address: Address) -> (object: Option<ObjectReference>)
        ensures
            object == (if address.0 == 0 {
                None
            } else {
                Some(ObjectReference(address))
            }),
    {
        if address.0 == 0 {
            None
        } else {
            Some(ObjectReference(address))
        }
    }

    /// The raw address of the object.
    pub fn to_raw_address(&self) -> (address: Address)
        ensures
            address == self.0,
    {
        self.0
    }

    /// The raw address as an integer.
    pub open spec fn addr(self) -> int {
        self.0.0 as int
    }
}

} // verus!
