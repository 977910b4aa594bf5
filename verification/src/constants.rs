//! Sizes and limits shared by the codec.

pub use crate::buf_reader_extensions::BytesCursor;
use vstd::prelude::*;

verus! {

/// Lowest vertical floor index of a lot.
pub const MIN_LAYER: i32 = -32;

/// Highest vertical floor index of a lot.
pub const MAX_LAYER: i32 = 32;

/// Side of one block, in squares.
pub const BLOCK_SIZE_IN_SQUARE: usize = 8;

/// Side of one cell, in blocks.
pub const CELL_SIZE_IN_BLOCKS: usize = 32;

/// Number of blocks in one cell, which is also the size in bytes of the
/// spawn grid.
pub const SQR_CELL_SIZE_IN_BLOCKS: usize = CELL_SIZE_IN_BLOCKS * CELL_SIZE_IN_BLOCKS;

/// The byte that ends a line of text.
pub const LINE_END: u8 = 0x0A;

/// The byte that a line written on some systems carries before its end.
pub const CARRIAGE_RETURN: u8 = 0x0D;

/// Bytes taken by one signed 32-bit integer.
pub const I32_BYTES: usize = 4;

/// Bytes taken by one rectangle record: x, y, width, height.
pub const RECTANGLE_BYTES: usize = 16;

/// Bytes taken by one room object record: type, x, y.
pub const ROOM_OBJECT_BYTES: usize = 12;

/// Bytes taken by one room reference of a building.
pub const ROOM_ID_BYTES: usize = 4;

/// The fewest bytes a line can take: its end alone.
pub const MIN_LINE_BYTES: usize = 1;

/// The fewest bytes a room can take: an empty name line, the layer and two
/// zero counts.
pub const MIN_ROOM_BYTES: usize = 13;

/// The fewest bytes a building can take: a zero count.
pub const MIN_BUILDING_BYTES: usize = 4;

/// Length in bytes of the tag that opens a lot header.
pub const MAGIC_BYTES: usize = 4;

/// Largest number of items that a count field can state.
pub const MAX_COUNT: usize = 0x7FFF_FFFF;

pub type BytesBuf = Vec<u8>;

} // verus!
