//! Lines: the unit of reclamation within a block.

use crate::policy::immix::block::Block;
use crate::util::address::{Address, ObjectReference};
use crate::util::constants::{BYTES_IN_BLOCK, BYTES_IN_LINE, LINES_IN_BLOCK};
use crate::util::metadata::{HeapMetadata, MetadataView};
use crate::util::side_metadata::filled;
use vstd::prelude::*;

verus! {

/// A line of the heap.
#[derive(Debug, Clone, Copy, PartialEq, Eq, Structural)]
pub struct Line(pub Address);

impl Line {
    /// Bytes in a line.
    pub const BYTES: usize = BYTES_IN_LINE;

    /// The line mark state that a space starts from.
    pub const RESET_MARK_STATE: u8 = 1;

    /// The largest line mark state.
    pub const MAX_MARK_STATE: u8 = 127;

    /// The address of the line as an integer.
    pub open spec fn addr(self) -> int {
        self.0.0 as int
    }

    /// Rounds `address` down to a line boundary.
    pub fn align(address: Address) -> (aligned: Address)
        ensures
            aligned.0 as int == address.0 - address.0 as int % BYTES_IN_LINE as int,
    {
        Address(address.0 - address.0 % BYTES_IN_LINE)
    }

    /// The line that starts at `address`, which is line aligned.
    pub fn from_aligned_address(address: Address) -> (line: Self)
        requires
            address.0 as int % BYTES_IN_LINE as int == 0,
        ensures
            line.0 == address,
    {
        Line(address)
    }

    /// The line that contains `address`.
    pub fn from_unaligned_address(address: Address) -> (line: Self)
        ensures
            line.addr() == address.0 - address.0 as int % BYTES_IN_LINE as int,
    {
        Line(Self::align(address))
    }

    /// The first address of the line.
    pub fn start(&self) -> (address: Address)
        ensures
            address == self.0,
    {
        self.0
    }

    /// The line after this one.
    pub fn next(&self) -> (line: Self)
        requires
            self.addr() + BYTES_IN_LINE <= usize::MAX,
        ensures
            line.addr() == self.addr() + BYTES_IN_LINE,
    {
        Line(Address(self.0.0 + BYTES_IN_LINE))
    }

    /// The line `n` places after this one.
    pub fn next_nth(&self, n: usize) -> (line: Self)
        requires
            self.addr() + n * BYTES_IN_LINE <= usize::MAX,
        ensures
            line.addr() == self.addr() + n * BYTES_IN_LINE,
    {
        Line(Address(self.0.0 + n * BYTES_IN_LINE))
    }

    /// The position of the line within its block.
    pub fn get_index_within_block(&self) -> (index: usize)
        ensures
            index as int == (self.addr() % BYTES_IN_BLOCK as int) / BYTES_IN_LINE as int,
            index < LINES_IN_BLOCK,
    {
        (self.0.0 % BYTES_IN_BLOCK) / BYTES_IN_LINE
    }

    /// The line lies in the heap and is line aligned.
    pub open spec fn valid(self, m: MetadataView) -> bool {
        m.in_heap(self.addr()) && self.addr() % BYTES_IN_LINE as int == 0
    }

    /// The position of the line in the per-line tables.
    pub open spec fn index(self, m: MetadataView) -> int {
        m.line(self.addr())
    }

    /// The block that contains the line.
    pub fn block(&self) -> (block: Block)
        ensures
            block.addr() == self.addr() - self.addr() % BYTES_IN_BLOCK as int,
    {
        Block::from_unaligned_address(self.0)
    }

    /// Whether the line carries the mark state `state`.
    pub fn is_marked(&self, meta: &HeapMetadata, state: u8) -> (marked: bool)
        requires
            meta.wf(),
            self.valid(meta@),
        ensures
            marked == (meta@.line_mark[self.index(meta@)] == state),
    {
        meta.line_mark.load(meta.line(self.0)) == state
    }

    /// Sets the mark state of the line.
    pub fn mark(&self, meta: &mut HeapMetadata, state: u8)
        requires
            old(meta).wf(),
            self.valid(old(meta)@),
        ensures
            final(meta).wf(),
            final(meta)@ == (MetadataView {
                line_mark: old(meta)@.line_mark.update(self.index(old(meta)@), state),
                ..old(meta)@
            }),
    {
        let index: usize = meta.line(self.0);
        meta.line_mark.store(index, state);
    }

    /// Marks every line that an object of `size` bytes touches, and returns how many of them did
    /// not carry the mark before.
    pub fn mark_lines_for_object(
        meta: &mut HeapMetadata,
        object: ObjectReference,
        size: usize,
        state: u8,
    ) -> (count: usize)
        requires
            old(meta).wf(),
            old(meta)@.in_heap(object.addr()),
            object.addr() + size <= old(meta)@.end(),
        ensures
            final(meta).wf(),
            final(meta)@ == (MetadataView {
                line_mark: filled(
                    old(meta)@.line_mark,
                    first_line(old(meta)@, object.addr()),
                    last_line(old(meta)@, object.addr(), size as int),
                    state,
                ),
                ..old(meta)@
            }),
            count == count_unmarked(
                old(meta)@.line_mark,
                first_line(old(meta)@, object.addr()),
                last_line(old(meta)@, object.addr(), size as int),
                state,
            ),
    {
        let start: usize = object.0.0;
        let end: usize = start + size;
        let from: usize = (start - meta.start.0) / BYTES_IN_LINE;
        let mut to: usize = (end - meta.start.0) / BYTES_IN_LINE;
        if end % BYTES_IN_LINE != 0 {
            to += 1;
        }
        let mut count: usize = 0;
        let mut i: usize = from;
        while i < to
            invariant
                from <= i <= to <= meta@.line_mark.len(),
                meta.wf(),
                meta@ == (MetadataView {
                    line_mark: filled(old(meta)@.line_mark, from as int, i as int, state),
                    ..old(meta)@
                }),
                count == count_unmarked(old(meta)@.line_mark, from as int, i as int, state),
                count <= i - from,
            decreases to - i,
        {
            if meta.line_mark.load(i) != state {
                count += 1;
            }
            meta.line_mark.store(i, state);
            i += 1;
        }
        count
    }
}

/// The first line that an object at `address` touches.
pub open spec fn first_line(m: MetadataView, address: int) -> int {
    m.line(address)
}

/// The line after the last one that an object of `size` bytes at `address` touches.
pub open spec fn last_line(m: MetadataView, address: int, size: int) -> int {
    m.line(address + size + BYTES_IN_LINE - 1)
}

/// How many of the lines `lo..hi` do not carry the mark `state`.
pub open spec fn count_unmarked(marks: Seq<u8>, lo: int, hi: int, state: u8) -> nat
    decreases hi - lo,
{
    if hi <= lo {
        0
    } else {
        count_unmarked(marks, lo, hi - 1, state) + (if marks[hi - 1] == state {
            0nat
        } else {
            1nat
        })
    }
}

} // verus!
