//! Bulk operations on the log bits.

use crate::util::constants::CELLS_IN_CHUNK;
use crate::util::linear_scan::Chunk;
use crate::util::metadata::{HeapMetadata, MetadataView};
use crate::util::side_metadata::filled;
use vstd::prelude::*;

verus! {

/// The log bit of an object that needs no remembering.
pub const LOGGED_VALUE: u8 = 0;

/// The log bit of an object that a write barrier must remember.
pub const UNLOGGED_VALUE: u8 = 1;

/// What to do with the log bits of a chunk.
#[derive(Debug, Clone, Copy, PartialEq, Eq, Structural)]
pub enum UnlogBitsOperation {
    /// Nothing.
    NoOp,
    /// Make every object unlogged.
    BulkSet,
    /// Make every object logged.
    BulkClear,
}

impl UnlogBitsOperation {
    /// The log bits of the heap after the operation on a chunk.
    pub open spec fn applied(self, m: MetadataView, chunk: Chunk) -> Seq<u8> {
        let first = m.cell(chunk.0.0 as int);
        match self {
            UnlogBitsOperation::NoOp => m.log_bit,
            UnlogBitsOperation::BulkSet => filled(m.log_bit, first, first + CELLS_IN_CHUNK, 1),
            UnlogBitsOperation::BulkClear => filled(m.log_bit, first, first + CELLS_IN_CHUNK, 0),
        }
    }

    /// Performs the operation on a chunk.
    pub fn execute(&self, meta: &mut HeapMetadata, chunk: Chunk)
        requires
            old(meta).wf(),
            chunk.valid(old(meta)@),
        ensures
            final(meta).wf(),
            final(meta)@ == (MetadataView {
                log_bit: self.applied(old(meta)@, chunk),
                ..old(meta)@
            }),
    {
        let first: usize = meta.cell(chunk.0);
        proof {
            chunk.lemma_positions(meta@);
        }
        match *self {
            UnlogBitsOperation::NoOp => {},
            UnlogBitsOperation::BulkSet => {
                meta.log_bit.fill(first, first + CELLS_IN_CHUNK, UNLOGGED_VALUE);
            },
            UnlogBitsOperation::BulkClear => {
                meta.log_bit.fill(first, first + CELLS_IN_CHUNK, LOGGED_VALUE);
            },
        }
    }
}

} // verus!
