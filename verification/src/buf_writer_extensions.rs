//! Writing integers and text to the end of a byte buffer.

use crate::constants::LINE_END;
use crate::wire::{i32_to_le, i32_to_le_bytes, line_bytes};
use vstd::prelude::*;
use vstd::utf8::encode_utf8;

verus! {

/// Appends `bytes` to `buffer`.
pub fn append_bytes(buffer: &mut Vec<u8>, bytes: &[u8])
    ensures
        final(buffer)@ == old(buffer)@ + bytes@,
{
    let mut i: usize = 0;
    while i < bytes.len()
        invariant
            i <= bytes.len(),
            buffer@ == old(buffer)@ + bytes@.take(i as int),
        decreases bytes.len() - i,
    {
        buffer.push(bytes[i]);
        i = i + 1;
    }
    assert(bytes@.take(bytes.len() as int) =~= bytes@);
}

/// Typed writes to a sink of bytes that grows as needed, so that no write
/// fails.
pub trait BinWriter {
    /// All the bytes written so far.
    spec fn written(&self) -> Seq<u8>;

    /// Writes a signed 32-bit integer, least significant byte first.
    fn write_i32(&mut self, value: i32)
        ensures
            final(self).written() == old(self).written() + i32_to_le(value),
    ;

    /// Writes the UTF-8 bytes of `value`: no length before them, nothing
    /// after them.
    fn write_string(&mut self, value: &str)
        ensures
            final(self).written() == old(self).written() + encode_utf8(value@),
    ;

    /// Writes the UTF-8 bytes of `value` and one line feed.
    fn write_line(&mut self, value: &str)
        ensures
            final(self).written() == old(self).written() + line_bytes(value@),
    ;
}

impl BinWriter for Vec<u8> {
    open spec fn written(&self) -> Seq<u8> {
        self@
    }

    fn write_i32(&mut self, value: i32) {
        let bytes = i32_to_le_bytes(value);
        append_bytes(self, bytes.as_slice());
    }

    fn write_string(&mut self, value: &str) {
        append_bytes(self, value.as_bytes());
    }

    fn write_line(&mut self, value: &str) {
        append_bytes(self, value.as_bytes());
        self.push(LINE_END);
        assert(self@ =~= old(self)@ + line_bytes(value@));
    }
}

} // verus!
