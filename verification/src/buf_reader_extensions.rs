//! Reading integers and text from a byte buffer held in memory.
//!
//! A [`BytesCursor`] owns the whole buffer and a position in it. A read that
//! succeeds moves the position past what it read; a read that fails leaves
//! the cursor as it was. Only the test for the end of the buffer moves the
//! cursor whatever it finds: to the end.

use crate::constants::{CARRIAGE_RETURN, LINE_END};
use crate::error::DecodeError;
use crate::wire::{
    i32_at, i32_from_le_bytes, is_line_end, lemma_line_end_unique, line_len,
    parse_count, parse_i32, parse_line, parse_text, string_from_utf8, trimmed,
};
use vstd::prelude::*;
use vstd::slice::{slice_subrange, slice_to_vec};

verus! {

/// What a cursor is, to a contract: its buffer, how many bytes of it are
/// consumed, and whether a line loses a carriage return before its end.
pub struct CursorView {
    pub bytes: Seq<u8>,
    pub position: nat,
    pub trims_carriage_return: bool,
}

impl CursorView {
    /// The bytes not yet consumed.
    pub open spec fn remaining(self) -> Seq<u8> {
        self.bytes.skip(self.position as int)
    }

    /// The same cursor, moved to `position`.
    pub open spec fn at(self, position: nat) -> CursorView {
        CursorView { position, ..self }
    }

    /// This is the cursor `before`, moved forward within its buffer or left
    /// where it was.
    pub open spec fn moved_from(self, before: CursorView) -> bool {
        &&& self.bytes == before.bytes
        &&& self.trims_carriage_return == before.trims_carriage_return
        &&& before.position <= self.position <= self.bytes.len()
    }
}

/// A byte buffer with a read position.
pub struct BytesCursor {
    data: Vec<u8>,
    pos: usize,
    trim_cr: bool,
}

impl View for BytesCursor {
    type V = CursorView;

    closed spec fn view(&self) -> CursorView {
        CursorView {
            bytes: self.data@,
            position: self.pos as nat,
            trims_carriage_return: self.trim_cr,
        }
    }
}

impl BytesCursor {
    #[verifier::type_invariant]
    spec fn position_in_buffer(self) -> bool {
        self.pos <= self.data.len()
    }

    /// A cursor at the start of `data`, whose lines end at the line feed
    /// alone.
    pub fn new(data: Vec<u8>) -> (cursor: Self)
        ensures
            cursor@ == (CursorView { bytes: data@, position: 0, trims_carriage_return: false }),
    {
        BytesCursor { data, pos: 0, trim_cr: false }
    }

    /// A cursor at the start of `data`, whose lines also lose one carriage
    /// return that stands right before the line feed.
    pub fn trimming_carriage_returns(data: Vec<u8>) -> (cursor: Self)
        ensures
            cursor@ == (CursorView { bytes: data@, position: 0, trims_carriage_return: true }),
    {
        BytesCursor { data, pos: 0, trim_cr: true }
    }

    /// Hands the buffer back.
    pub fn into_inner(self) -> (data: Vec<u8>)
        ensures
            data@ == self@.bytes,
    {
        self.data
    }

    /// Number of bytes consumed so far.
    pub fn position(&self) -> (position: usize)
        ensures
            position == self@.position,
            position <= self@.bytes.len(),
    {
        proof {
            use_type_invariant(self);
        }
        self.pos
    }

    /// Number of bytes in the buffer, consumed or not.
    pub fn total_len(&self) -> (len: usize)
        ensures
            len == self@.bytes.len(),
    {
        self.data.len()
    }

    /// Number of bytes not yet consumed.
    pub fn remaining_len(&self) -> (len: usize)
        ensures
            len == self@.remaining().len(),
            len == self@.bytes.len() - self@.position,
    {
        proof {
            use_type_invariant(self);
        }
        self.data.len() - self.pos
    }

    /// Moves to `position`, counted from the start of the buffer.
    pub(crate) fn seek_to(&mut self, position: usize)
        requires
            position <= old(self)@.bytes.len(),
        ensures
            final(self)@ == old(self)@.at(position as nat),
    {
        self.pos = position;
    }

    /// Moves back to the start of the buffer.
    pub fn rewind(&mut self)
        ensures
            final(self)@ == old(self)@.at(0),
            final(self)@.remaining() == old(self)@.bytes,
    {
        self.pos = 0;
    }

    /// Moves to the end of the buffer.
    pub fn seek_to_end(&mut self)
        ensures
            final(self)@ == old(self)@.at(old(self)@.bytes.len()),
            final(self)@.remaining() == Seq::<u8>::empty(),
    {
        self.pos = self.data.len();
    }

    /// Consumes `count` bytes without looking at them.
    pub(crate) fn advance(&mut self, count: usize)
        requires
            count <= old(self)@.remaining().len(),
        ensures
            final(self)@ == old(self)@.at(old(self)@.position + count as nat),
            final(self)@.remaining() == old(self)@.remaining().skip(count as int),
    {
        proof {
            use_type_invariant(&*self);
        }
        self.pos = self.pos + count;
    }

    /// The byte that stands `offset` bytes after the position.
    pub(crate) fn peek_u8(&self, offset: usize) -> (byte: u8)
        requires
            offset < self@.remaining().len(),
        ensures
            byte == self@.remaining()[offset as int],
    {
        proof {
            use_type_invariant(self);
        }
        self.data[self.pos + offset]
    }

    /// The integer whose four bytes start `offset` bytes after the position.
    pub(crate) fn peek_i32(&self, offset: usize) -> (value: i32)
        requires
            offset + 4 <= self@.remaining().len(),
        ensures
            value == i32_at(self@.remaining(), offset as int),
    {
        proof {
            use_type_invariant(self);
        }
        let at: usize = self.pos + offset;
        i32_from_le_bytes(self.data[at], self.data[at + 1], self.data[at + 2], self.data[at + 3])
    }

    /// Reads a count of items that take at least `unit` bytes each. A
    /// negative count is refused, and so is one whose items would need more
    /// bytes than are left after it.
    pub fn read_count(&mut self, unit: usize) -> (r: Result<usize, DecodeError>)
        ensures
            match r {
                Ok(count) => parse_count(old(self)@.remaining(), unit as nat) == Ok::<
                    _,
                    DecodeError,
                >((count as nat, final(self)@.remaining())) && final(self)@ == old(self)@.at(
                    old(self)@.position + 4,
                ) && final(self)@.moved_from(old(self)@),
                Err(e) => parse_count(old(self)@.remaining(), unit as nat) == Err::<
                    (nat, Seq<u8>),
                    _,
                >(e) && final(self)@ == old(self)@,
            },
    {
        let left: usize = self.remaining_len();
        if left < 4 {
            return Err(DecodeError::UnexpectedEof);
        }
        let value: i32 = self.peek_i32(0);
        if value < 0 {
            return Err(DecodeError::MalformedCount);
        }
        let count: usize = value as usize;
        assert(count as u128 * unit as u128 <= 0x8000_0000 * 0x1_0000_0000_0000_0000) by (nonlinear_arith)
            requires
                count < 0x8000_0000,
                unit < 0x1_0000_0000_0000_0000,
        ;
        if count as u128 * unit as u128 > (left - 4) as u128 {
            return Err(DecodeError::MalformedCount);
        }
        self.advance(4);
        Ok(count)
    }
}

/// Typed reads from a source of bytes.
pub trait BinReader {
    /// The bytes not yet consumed.
    spec fn remaining(&self) -> Seq<u8>;

    /// Whether a line loses one carriage return before its line feed.
    spec fn trims_carriage_return(&self) -> bool;

    /// Reads a signed 32-bit integer, least significant byte first.
    fn read_i32(&mut self) -> (r: Result<i32, DecodeError>)
        ensures
            final(self).trims_carriage_return() == old(self).trims_carriage_return(),
            match r {
                Ok(value) => parse_i32(old(self).remaining()) == Ok::<_, DecodeError>(
                    (value, final(self).remaining()),
                ),
                Err(e) => parse_i32(old(self).remaining()) == Err::<(i32, Seq<u8>), _>(e)
                    && final(self).remaining() == old(self).remaining(),
            },
    ;

    /// Reads text up to the next line feed, which is consumed and left out.
    /// Where the source trims carriage returns, one that stands right before
    /// the line feed is left out too.
    fn read_line_trimmed(&mut self) -> (r: Result<String, DecodeError>)
        ensures
            final(self).trims_carriage_return() == old(self).trims_carriage_return(),
            match r {
                Ok(text) => parse_line(old(self).remaining(), old(self).trims_carriage_return())
                    == Ok::<_, DecodeError>((text@, final(self).remaining())),
                Err(e) => parse_line(old(self).remaining(), old(self).trims_carriage_return())
                    == Err::<(Seq<char>, Seq<u8>), _>(e) && final(self).remaining() == old(
                    self,
                ).remaining(),
            },
    ;

    /// Reads text that takes exactly `size` bytes.
    fn read_n_chars(&mut self, size: usize) -> (r: Result<String, DecodeError>)
        ensures
            final(self).trims_carriage_return() == old(self).trims_carriage_return(),
            match r {
                Ok(text) => parse_text(old(self).remaining(), size as nat) == Ok::<_, DecodeError>(
                    (text@, final(self).remaining()),
                ),
                Err(e) => parse_text(old(self).remaining(), size as nat) == Err::<
                    (Seq<char>, Seq<u8>),
                    _,
                >(e) && final(self).remaining() == old(self).remaining(),
            },
    ;

    /// Succeeds if nothing is left to read and fails with
    /// `DecodeError::TrailingData` otherwise. Either way the source is at its
    /// end afterwards.
    fn ensure_end_reached(&mut self) -> (r: Result<(), DecodeError>)
        ensures
            final(self).trims_carriage_return() == old(self).trims_carriage_return(),
            final(self).remaining() == Seq::<u8>::empty(),
            r is Ok <==> old(self).remaining().len() == 0,
            r is Err ==> r == Err::<(), _>(DecodeError::TrailingData),
    ;
}

impl BinReader for BytesCursor {
    open spec fn remaining(&self) -> Seq<u8> {
        self@.remaining()
    }

    open spec fn trims_carriage_return(&self) -> bool {
        self@.trims_carriage_return
    }

    fn read_i32(&mut self) -> (r: Result<i32, DecodeError>)
        ensures
            r is Ok ==> final(self)@ == old(self)@.at(old(self)@.position + 4),
            r is Ok ==> final(self)@.moved_from(old(self)@),
            r is Err ==> final(self)@ == old(self)@,
    {
        if self.remaining_len() < 4 {
            return Err(DecodeError::UnexpectedEof);
        }
        let value: i32 = self.peek_i32(0);
        self.advance(4);
        Ok(value)
    }

    fn read_line_trimmed(&mut self) -> (r: Result<String, DecodeError>)
        ensures
            r is Ok ==> final(self)@ == old(self)@.at(
                old(self)@.position + line_len(old(self)@.remaining()) as nat + 1,
            ),
            r is Ok ==> final(self)@.moved_from(old(self)@),
            r is Err ==> final(self)@ == old(self)@,
    {
        proof {
            use_type_invariant(&*self);
            reveal(parse_line);
        }
        let ghost rest = self@.remaining();
        let len: usize = self.data.len();
        let start: usize = self.pos;
        let mut end: usize = start;
        while end < len && self.data[end] != LINE_END
            invariant
                start <= end <= len,
                len == self.data.len(),
                start == self.pos,
                self@ == old(self)@,
                forall|j: int| start <= j < end ==> self.data@[j] != LINE_END,
            decreases len - end,
        {
            end = end + 1;
        }
        if end >= len {
            proof {
                assert forall|k: int| !is_line_end(rest, k) by {
                    if 0 <= k < rest.len() {
                        assert(rest[k] == self.data@[start + k]);
                    }
                }
            }
            return Err(DecodeError::UnexpectedEof);
        }
        proof {
            assert forall|j: int| 0 <= j < end - start implies rest[j] != LINE_END by {
                assert(rest[j] == self.data@[start + j]);
            }
            assert(rest[end - start] == self.data@[end as int]);
            lemma_line_end_unique(rest, end - start);
        }
        let text_end: usize = if self.trim_cr && end > start && self.data[end - 1] == CARRIAGE_RETURN {
            end - 1
        } else {
            end
        };
        let body = slice_to_vec(slice_subrange(self.data.as_slice(), start, text_end));
        proof {
            let line = rest.take(end - start);
            assert(line =~= self.data@.subrange(start as int, end as int));
            assert(body@ =~= trimmed(line, self.trim_cr));
        }
        match string_from_utf8(body) {
            None => Err(DecodeError::InvalidText),
            Some(text) => {
                self.pos = end + 1;
                proof {
                    assert(self@.remaining() =~= rest.skip(end - start + 1));
                }
                Ok(text)
            },
        }
    }

    fn read_n_chars(&mut self, size: usize) -> (r: Result<String, DecodeError>)
        ensures
            r is Ok ==> final(self)@ == old(self)@.at(old(self)@.position + size as nat),
            r is Ok ==> final(self)@.moved_from(old(self)@),
            r is Err ==> final(self)@ == old(self)@,
    {
        proof {
            use_type_invariant(&*self);
        }
        let ghost rest = self@.remaining();
        if self.remaining_len() < size {
            return Err(DecodeError::UnexpectedEof);
        }
        let start: usize = self.pos;
        let body = slice_to_vec(slice_subrange(self.data.as_slice(), start, start + size));
        proof {
            assert(body@ =~= rest.take(size as int));
        }
        match string_from_utf8(body) {
            None => Err(DecodeError::InvalidText),
            Some(text) => {
                self.advance(size);
                Ok(text)
            },
        }
    }

    fn ensure_end_reached(&mut self) -> (r: Result<(), DecodeError>)
        ensures
            final(self)@ == old(self)@.at(old(self)@.bytes.len()),
    {
        let left: usize = self.remaining_len();
        self.seek_to_end();
        if left != 0 {
            return Err(DecodeError::TrailingData);
        }
        Ok(())
    }
}

} // verus!
