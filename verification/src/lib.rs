//! Byte-exact codec for lot header files, and a bit-packed map coordinate.
//!
//! A lot header describes one map cell: its tile names, its rooms and
//! buildings, and a fixed grid of spawn bytes.

pub mod cell_coord;
pub mod constants;
pub mod buf_reader_extensions;
pub mod buf_writer_extensions;
pub mod error;
pub mod format;
pub mod laws;
pub mod lotheader;
pub mod wire;

pub use crate::buf_reader_extensions::{BinReader, BytesCursor};
pub use crate::buf_writer_extensions::BinWriter;
pub use crate::cell_coord::CellCoord;
pub use crate::error::{DecodeError, EncodeError};
pub use crate::lotheader::{Building, Lotheader, Rectangle, Room, RoomObject};
