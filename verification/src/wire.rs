//! How integers and text lie in the bytes of a lot header.
//!
//! Every integer is a signed 32-bit value, least significant byte first.
//! Text is UTF-8, either of a length known beforehand or ended by a line
//! feed. A reader is described by a function from the bytes in front of it
//! to the value read and the bytes that follow, or to the reason why no value
//! can be read there.

use crate::constants::{CARRIAGE_RETURN, LINE_END};
use crate::error::DecodeError;
use vstd::prelude::*;
use vstd::utf8::*;

verus! {

/// What reading one value from the front of a byte sequence gives: the value
/// and the bytes after it, or the reason why there is none.
pub type Parsed<T> = Result<(T, Seq<u8>), DecodeError>;

/// The number below 2^32 that has the same 32 bits as `v`.
pub open spec fn unsigned_of(v: i32) -> int {
    if v >= 0 {
        v as int
    } else {
        v + 0x1_0000_0000
    }
}

/// The signed number that has the same 32 bits as `u`, for `u` below 2^32.
pub open spec fn signed_of(u: int) -> i32 {
    if u < 0x8000_0000 {
        u as i32
    } else {
        (u - 0x1_0000_0000) as i32
    }
}

/// The four bytes of `v`, least significant first.
#[verifier::opaque]
pub open spec fn i32_to_le(v: i32) -> Seq<u8> {
    let u = unsigned_of(v);
    seq![
        (u % 0x100) as u8,
        (u / 0x100 % 0x100) as u8,
        (u / 0x1_0000 % 0x100) as u8,
        (u / 0x100_0000 % 0x100) as u8,
    ]
}

/// The integer stated by four bytes, least significant first.
#[verifier::opaque]
pub open spec fn i32_of_bytes(b0: u8, b1: u8, b2: u8, b3: u8) -> i32 {
    signed_of(b0 + 0x100 * b1 + 0x1_0000 * b2 + 0x100_0000 * b3)
}

/// The integer whose four bytes stand at `at` in `s`.
pub open spec fn i32_at(s: Seq<u8>, at: int) -> i32
    recommends
        0 <= at,
        at + 4 <= s.len(),
{
    i32_of_bytes(s[at], s[at + 1], s[at + 2], s[at + 3])
}

/// The integer whose four bytes open `s`.
pub open spec fn i32_from_le(s: Seq<u8>) -> i32
    recommends
        s.len() >= 4,
{
    i32_at(s, 0)
}

/// Reading an integer: four bytes, or exhaustion.
pub open spec fn parse_i32(s: Seq<u8>) -> Parsed<i32> {
    if s.len() < 4 {
        Err(DecodeError::UnexpectedEof)
    } else {
        Ok((i32_from_le(s), s.skip(4)))
    }
}

/// Reading a count of items that take at least `unit` bytes each: an
/// integer, refused if it is negative or if that many items would need more
/// bytes than follow it.
pub open spec fn parse_count(s: Seq<u8>, unit: nat) -> Parsed<nat> {
    match parse_i32(s) {
        Err(e) => Err(e),
        Ok((count, rest)) => if count < 0 || count * unit > rest.len() {
            Err(DecodeError::MalformedCount)
        } else {
            Ok((count as nat, rest))
        },
    }
}

/// An integer takes four bytes.
pub proof fn lemma_i32_le_len(v: i32)
    ensures
        i32_to_le(v).len() == 4,
{
    reveal(i32_to_le);
}

/// An integer is read back from its own bytes, whatever follows them.
pub proof fn lemma_i32_le_round_trip(v: i32, rest: Seq<u8>)
    ensures
        i32_to_le(v).len() == 4,
        i32_from_le(i32_to_le(v) + rest) == v,
        parse_i32(i32_to_le(v) + rest) == Ok::<_, DecodeError>((v, rest)),
{
    reveal(i32_to_le);
    reveal(i32_of_bytes);
    let b = i32_to_le(v);
    let s = b + rest;
    assert(s[0] == b[0] && s[1] == b[1] && s[2] == b[2] && s[3] == b[3]);
    assert(s.skip(4) =~= rest);
}

/// Four bytes are written back from the integer they state.
pub proof fn lemma_i32_of_bytes_round_trip(b0: u8, b1: u8, b2: u8, b3: u8)
    ensures
        i32_to_le(i32_of_bytes(b0, b1, b2, b3)) == seq![b0, b1, b2, b3],
{
    reveal(i32_to_le);
    reveal(i32_of_bytes);
    let u: int = b0 + 0x100 * b1 + 0x1_0000 * b2 + 0x100_0000 * b3;
    assert(unsigned_of(signed_of(u)) == u);
    assert(u / 0x100 == b1 + 0x100 * b2 + 0x1_0000 * b3);
    assert(u / 0x1_0000 == b2 + 0x100 * b3);
    assert(u / 0x100_0000 == b3);
    assert(i32_to_le(i32_of_bytes(b0, b1, b2, b3)) =~= seq![b0, b1, b2, b3]);
}

/// The bytes of an integer that is read from `s` are the bytes that it was
/// read from.
pub proof fn lemma_i32_le_bytes_round_trip(s: Seq<u8>, at: int)
    requires
        0 <= at,
        at + 4 <= s.len(),
    ensures
        i32_to_le(i32_at(s, at)) == s.subrange(at, at + 4),
{
    lemma_i32_of_bytes_round_trip(s[at], s[at + 1], s[at + 2], s[at + 3]);
    assert(s.subrange(at, at + 4) =~= seq![s[at], s[at + 1], s[at + 2], s[at + 3]]);
}

/// The integer stated by four bytes, least significant first.
pub fn i32_from_le_bytes(b0: u8, b1: u8, b2: u8, b3: u8) -> (v: i32)
    ensures
        v == i32_of_bytes(b0, b1, b2, b3),
{
    proof {
        reveal(i32_of_bytes);
    }
    let u: u64 = b0 as u64 + 0x100 * (b1 as u64) + 0x1_0000 * (b2 as u64) + 0x100_0000 * (
    b3 as u64);
    if u < 0x8000_0000 {
        u as i32
    } else {
        (u as i64 - 0x1_0000_0000) as i32
    }
}

/// The four bytes of an integer, least significant first.
pub fn i32_to_le_bytes(v: i32) -> (b: [u8; 4])
    ensures
        b@ == i32_to_le(v),
{
    let u: u64 = if v >= 0 {
        v as u64
    } else {
        (v as i64 + 0x1_0000_0000) as u64
    };
    let b = [
        (u % 0x100) as u8,
        (u / 0x100 % 0x100) as u8,
        (u / 0x1_0000 % 0x100) as u8,
        (u / 0x100_0000 % 0x100) as u8,
    ];
    proof {
        reveal(i32_to_le);
    }
    assert(b@ =~= i32_to_le(v));
    b
}

/// Reading text of a known length in bytes: exhaustion if fewer bytes are
/// left, then a fault if the bytes are not UTF-8.
pub open spec fn parse_text(s: Seq<u8>, n: nat) -> Parsed<Seq<char>> {
    if s.len() < n {
        Err(DecodeError::UnexpectedEof)
    } else if !valid_utf8(s.take(n as int)) {
        Err(DecodeError::InvalidText)
    } else {
        Ok((decode_utf8(s.take(n as int)), s.skip(n as int)))
    }
}

/// `k` is where the first line of `s` ends: a line feed with none before it.
pub open spec fn is_line_end(s: Seq<u8>, k: int) -> bool {
    &&& 0 <= k < s.len()
    &&& s[k] == LINE_END
    &&& forall|j: int| 0 <= j < k ==> s[j] != LINE_END
}

/// `s` holds a line feed, so a first line.
pub open spec fn has_line(s: Seq<u8>) -> bool {
    exists|k: int| is_line_end(s, k)
}

/// Number of bytes before the first line feed of `s`.
pub open spec fn line_len(s: Seq<u8>) -> int {
    choose|k: int| is_line_end(s, k)
}

/// The bytes of a line that count as its text. With `trim_cr` one carriage
/// return at the end does not.
pub open spec fn trimmed(line: Seq<u8>, trim_cr: bool) -> Seq<u8> {
    if trim_cr && line.len() > 0 && line.last() == CARRIAGE_RETURN {
        line.drop_last()
    } else {
        line
    }
}

/// Reading a line: exhaustion if no line feed is left, then a fault if the
/// bytes before the first one are not UTF-8. The line feed is consumed and
/// is no part of the text.
#[verifier::opaque]
pub open spec fn parse_line(s: Seq<u8>, trim_cr: bool) -> Parsed<Seq<char>> {
    if !has_line(s) {
        Err(DecodeError::UnexpectedEof)
    } else {
        let text = trimmed(s.take(line_len(s)), trim_cr);
        if !valid_utf8(text) {
            Err(DecodeError::InvalidText)
        } else {
            Ok((decode_utf8(text), s.skip(line_len(s) + 1)))
        }
    }
}

/// The bytes of a line of text: its UTF-8 form, then a line feed.
pub open spec fn line_bytes(text: Seq<char>) -> Seq<u8> {
    encode_utf8(text).push(LINE_END)
}

/// Text that `parse_line` gives back unchanged after `line_bytes`: it holds
/// no line feed and, where carriage returns are trimmed, does not end in one.
pub open spec fn is_line_text(text: Seq<char>, trim_cr: bool) -> bool {
    &&& !text.contains('\n')
    &&& trim_cr && text.len() > 0 ==> text.last() != '\r'
}

/// A sequence has at most one first line end.
pub proof fn lemma_line_end_unique(s: Seq<u8>, k: int)
    requires
        is_line_end(s, k),
    ensures
        has_line(s),
        line_len(s) == k,
{
    let c = line_len(s);
    assert(is_line_end(s, c));
    if c < k {
        assert(s[c] != LINE_END);
    }
    if k < c {
        assert(s[k] != LINE_END);
    }
}

/// A byte of the ASCII range occurs in the UTF-8 form of a scalar only as
/// that scalar itself.
proof fn lemma_ascii_byte_of_scalar(c: u32, b: u8)
    by (bit_vector)
    requires
        c <= 0x10FFFF,
        b < 0x80,
    ensures
        c <= 0x7F ==> (c & 0x7F) as u8 == c,
        (0xC0 | ((c >> 6) & 0x1F) as u8) != b,
        (0xE0 | ((c >> 12) & 0x0F) as u8) != b,
        (0xF0 | ((c >> 18) & 0x7) as u8) != b,
        (0x80 | (c & 0x3F) as u8) != b,
        (0x80 | ((c >> 6) & 0x3F) as u8) != b,
        (0x80 | ((c >> 12) & 0x3F) as u8) != b,
{
}

/// Where an ASCII byte stands in the UTF-8 form of a text, the text holds
/// that character.
pub proof fn lemma_ascii_byte_in_utf8(text: Seq<char>, j: int, b: u8)
    requires
        b < 0x80,
        0 <= j < encode_utf8(text).len(),
        encode_utf8(text)[j] == b,
    ensures
        text.contains(b as char),
    decreases text.len(),
{
    let c = text[0] as u32;
    let head = encode_scalar(c);
    let tail = text.drop_first();
    char_is_scalar(text[0]);
    lemma_ascii_byte_of_scalar(c, b);
    if j < head.len() {
        assert(c == b);
        char_u32_cast(text[0], c);
        assert(text[0] == b as char);
    } else {
        assert(encode_utf8(tail)[j - head.len()] == b);
        lemma_ascii_byte_in_utf8(tail, j - head.len(), b);
        let i = choose|i: int| 0 <= i < tail.len() && tail[i] == b as char;
        assert(text[i + 1] == b as char);
    }
}

/// The UTF-8 form of a text ends in an ASCII byte only where the text ends
/// in that character.
pub proof fn lemma_ascii_last_byte_of_utf8(text: Seq<char>, b: u8)
    requires
        b < 0x80,
        encode_utf8(text).len() > 0,
        encode_utf8(text).last() == b,
    ensures
        text.len() > 0,
        text.last() == b as char,
    decreases text.len(),
{
    let c = text[0] as u32;
    let head = encode_scalar(c);
    let tail = text.drop_first();
    char_is_scalar(text[0]);
    lemma_ascii_byte_of_scalar(c, b);
    if encode_utf8(tail).len() == 0 {
        assert(encode_utf8(text) =~= head);
        if tail.len() > 0 {
            char_is_scalar(tail[0]);
            assert(encode_scalar(tail[0] as u32).len() > 0);
        }
        assert(c == b);
        char_u32_cast(text[0], c);
    } else {
        assert(encode_utf8(text).last() == encode_utf8(tail).last());
        lemma_ascii_last_byte_of_utf8(tail, b);
        assert(text.last() == tail.last());
    }
}

/// Where a text holds a character of the ASCII range, its UTF-8 form holds
/// that byte.
pub proof fn lemma_ascii_char_in_utf8(text: Seq<char>, i: int, b: u8)
    requires
        b < 0x80,
        0 <= i < text.len(),
        text[i] == b as char,
    ensures
        encode_utf8(text).contains(b),
    decreases text.len(),
{
    let c = text[0] as u32;
    let head = encode_scalar(c);
    let tail = text.drop_first();
    char_is_scalar(text[0]);
    lemma_ascii_byte_of_scalar(c, b);
    if i == 0 {
        assert(c == b);
        assert(head[0] == b);
        assert(encode_utf8(text)[0] == b);
    } else {
        assert(tail[i - 1] == b as char);
        lemma_ascii_char_in_utf8(tail, i - 1, b);
        let j = choose|j: int| 0 <= j < encode_utf8(tail).len() && encode_utf8(tail)[j] == b;
        assert(encode_utf8(text)[head.len() + j] == b);
    }
}

/// Where a line was read, the input is the bytes of its text and a line
/// feed, then what was left, if no carriage return is trimmed.
pub proof fn lemma_line_parsed_was_written(s: Seq<u8>, text: Seq<char>, rest: Seq<u8>)
    requires
        parse_line(s, false) == Ok::<_, DecodeError>((text, rest)),
    ensures
        s == line_bytes(text) + rest,
        is_line_text(text, false),
{
    reveal(parse_line);
    let k = line_len(s);
    let body = s.take(k);
    assert(is_line_end(s, k));
    decode_utf8_encode_utf8(body);
    assert(s =~= line_bytes(text) + s.skip(k + 1));
    if text.contains('\n') {
        let i = choose|i: int| 0 <= i < text.len() && text[i] == '\n';
        lemma_ascii_char_in_utf8(text, i, LINE_END);
        let j = choose|j: int| 0 <= j < body.len() && body[j] == LINE_END;
        assert(s[j] == LINE_END);
    }
}

/// Where text of a known length was read, the input is the bytes of the
/// text, then what was left.
pub proof fn lemma_text_parsed_was_written(s: Seq<u8>, n: nat, text: Seq<char>, rest: Seq<u8>)
    requires
        parse_text(s, n) == Ok::<_, DecodeError>((text, rest)),
    ensures
        s == encode_utf8(text) + rest,
        encode_utf8(text).len() == n,
{
    let body = s.take(n as int);
    decode_utf8_encode_utf8(body);
    assert(s =~= body + s.skip(n as int));
}

/// Where an integer was read, the input is the bytes of the integer, then
/// what was left.
pub proof fn lemma_i32_parsed_was_written(s: Seq<u8>, value: i32, rest: Seq<u8>)
    requires
        parse_i32(s) == Ok::<_, DecodeError>((value, rest)),
    ensures
        s == i32_to_le(value) + rest,
{
    lemma_i32_le_bytes_round_trip(s, 0);
    assert(s =~= s.subrange(0, 4) + s.skip(4));
}

/// Where a count was read, the input is the bytes of the count, then what
/// was left, and that many items of `unit` bytes fit in what was left.
pub proof fn lemma_count_parsed_was_written(s: Seq<u8>, unit: nat, count: nat, rest: Seq<u8>)
    requires
        parse_count(s, unit) == Ok::<_, DecodeError>((count, rest)),
    ensures
        s == i32_to_le(count as i32) + rest,
        count <= 0x7FFF_FFFF,
        count * unit <= rest.len(),
{
    lemma_i32_parsed_was_written(s, count as i32, rest);
}

/// A line of text is read back from its own bytes, whatever follows them.
pub proof fn lemma_line_round_trip(text: Seq<char>, trim_cr: bool, rest: Seq<u8>)
    requires
        is_line_text(text, trim_cr),
    ensures
        parse_line(line_bytes(text) + rest, trim_cr) == Ok::<_, DecodeError>((text, rest)),
{
    reveal(parse_line);
    let body = encode_utf8(text);
    let s = line_bytes(text) + rest;
    let k = body.len() as int;
    assert(s[k] == LINE_END);
    assert forall|j: int| 0 <= j < k implies s[j] != LINE_END by {
        if s[j] == LINE_END {
            assert(body[j] == LINE_END);
            lemma_ascii_byte_in_utf8(text, j, LINE_END);
        }
    }
    lemma_line_end_unique(s, k);
    assert(s.take(k) =~= body);
    assert(s.skip(k + 1) =~= rest);
    if trim_cr && body.len() > 0 && body.last() == CARRIAGE_RETURN {
        lemma_ascii_last_byte_of_utf8(text, CARRIAGE_RETURN);
    }
    encode_utf8_valid_utf8(text);
    encode_utf8_decode_utf8(text);
}

/// Text of a known length is read back from its own bytes, whatever follows
/// them.
pub proof fn lemma_text_round_trip(text: Seq<char>, rest: Seq<u8>)
    ensures
        parse_text(encode_utf8(text) + rest, encode_utf8(text).len()) == Ok::<_, DecodeError>(
            (text, rest),
        ),
{
    let body = encode_utf8(text);
    let s = body + rest;
    assert(s.take(body.len() as int) =~= body);
    assert(s.skip(body.len() as int) =~= rest);
    encode_utf8_valid_utf8(text);
    encode_utf8_decode_utf8(text);
}

/// `String::from_utf8` of the standard library. Believed of it: it accepts
/// exactly the byte strings that are valid UTF-8, and the text it returns is
/// the one those bytes encode.
#[verifier::external_body]
pub(crate) fn string_from_utf8(bytes: Vec<u8>) -> (text: Option<String>)
    ensures
        text is Some <==> valid_utf8(bytes@),
        text matches Some(t) ==> t@ == decode_utf8(bytes@),
{
    String::from_utf8(bytes).ok()
}

} // verus!
