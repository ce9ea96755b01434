//! A small code that all threads can read and write.
//!
//! The cell is that of the `atomic` crate. What is stated here of each operation holds while the
//! caller has the cell to itself.

use atomic::{Atomic, Ordering};
use vstd::prelude::*;

verus! {

/// `atomic::Atomic`, a cell that threads share.
#[verifier::external_type_specification]
#[verifier::external_body]
#[verifier::reject_recursive_types(T)]
pub struct ExAtomic<T>(Atomic<T>);

/// The code in a cell.
pub uninterp spec fn stored_code(cell: Atomic<u8>) -> u8;

/// `Atomic::new`: a cell that holds `code`.
#[verifier::external_body]
pub(crate) fn new_code(code: u8) -> (cell: Atomic<u8>)
    ensures
        stored_code(cell) == code,
{
    Atomic::new(code)
}

/// `Atomic::load`, sequentially consistent: the code in the cell.
#[verifier::external_body]
pub(crate) fn load_code(cell: &Atomic<u8>) -> (code: u8)
    ensures
        code == stored_code(*cell),
{
    cell.load(Ordering::SeqCst)
}

/// `Atomic::store`, sequentially consistent: the cell holds `code` afterwards.
#[verifier::external_body]
pub(crate) fn store_code(cell: &mut Atomic<u8>, code: u8)
    ensures
        stored_code(*final(cell)) == code,
{
    cell.store(code, Ordering::SeqCst)
}

} // verus!
