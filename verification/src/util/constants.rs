//! Sizes of the regions that the heap is divided into.

use vstd::prelude::*;

verus! {

/// Bytes in a page.
pub const BYTES_IN_PAGE: usize = 4096;

/// Bytes in a chunk, the unit in which spaces own memory.
pub const BYTES_IN_CHUNK: usize = 4194304;

/// Bytes in a block.
pub const BYTES_IN_BLOCK: usize = 32768;

/// Bytes in a line.
pub const BYTES_IN_LINE: usize = 256;

/// Bytes in a machine word.
pub const BYTES_IN_WORD: usize = 8;

/// Bytes in a 32-bit integer.
pub const BYTES_IN_INT: usize = 4;

/// Bits in a machine word.
pub const BITS_IN_WORD: usize = 64;

/// The smallest object size; one entry of every per-object table covers this many bytes.
pub const MIN_OBJECT_SIZE: usize = 8;

/// Blocks in a chunk.
pub const BLOCKS_IN_CHUNK: usize = 128;

/// Lines in a chunk.
pub const LINES_IN_CHUNK: usize = 16384;

/// Minimum-size objects in a chunk.
pub const CELLS_IN_CHUNK: usize = 524288;

/// Lines in a block.
pub const LINES_IN_BLOCK: usize = 128;

/// Minimum-size objects in a block.
pub const CELLS_IN_BLOCK: usize = 4096;

/// Minimum-size objects in a line.
pub const CELLS_IN_LINE: usize = 32;

} // verus!
