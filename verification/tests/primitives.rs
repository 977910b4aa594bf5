use lotheader::buf_reader_extensions::{BinReader, BytesCursor};
use lotheader::buf_writer_extensions::{append_bytes, BinWriter};
use lotheader::error::DecodeError;
use lotheader::wire::{i32_from_le_bytes, i32_to_le_bytes};

#[test]
fn i32_bytes_are_least_significant_first() {
    assert_eq!(i32_to_le_bytes(1), [1, 0, 0, 0]);
    assert_eq!(i32_to_le_bytes(0x12345678), [0x78, 0x56, 0x34, 0x12]);
    assert_eq!(i32_to_le_bytes(-1), [0xFF, 0xFF, 0xFF, 0xFF]);
    assert_eq!(i32_to_le_bytes(-2), [0xFE, 0xFF, 0xFF, 0xFF]);
    assert_eq!(i32_to_le_bytes(i32::MIN), [0, 0, 0, 0x80]);
    assert_eq!(i32_to_le_bytes(i32::MAX), [0xFF, 0xFF, 0xFF, 0x7F]);
    assert_eq!(i32_to_le_bytes(0), [0, 0, 0, 0]);
}

#[test]
fn i32_is_read_from_its_bytes() {
    assert_eq!(i32_from_le_bytes(1, 0, 0, 0), 1);
    assert_eq!(i32_from_le_bytes(0x78, 0x56, 0x34, 0x12), 0x12345678);
    assert_eq!(i32_from_le_bytes(0xFF, 0xFF, 0xFF, 0xFF), -1);
    assert_eq!(i32_from_le_bytes(0, 0, 0, 0x80), i32::MIN);
    assert_eq!(i32_from_le_bytes(0xFF, 0xFF, 0xFF, 0x7F), i32::MAX);
    assert_eq!(i32_from_le_bytes(0, 1, 0, 0), 256);
}

#[test]
fn i32_bytes_agree_with_the_standard_library() {
    for &v in &[0, 1, -1, 255, 256, -256, 65535, 65536, 1 << 24, -(1 << 24), i32::MAX, i32::MIN, 42, -42]
    {
        let b = i32_to_le_bytes(v);
        assert_eq!(b, v.to_le_bytes());
        assert_eq!(i32_from_le_bytes(b[0], b[1], b[2], b[3]), v);
    }
}

#[test]
fn write_i32_appends_four_bytes() {
    let mut buffer: Vec<u8> = vec![9];
    buffer.write_i32(0x0A0B0C0D);
    buffer.write_i32(-1);
    assert_eq!(buffer, vec![9, 0x0D, 0x0C, 0x0B, 0x0A, 0xFF, 0xFF, 0xFF, 0xFF]);
}

#[test]
fn write_string_appends_the_utf8_bytes_only() {
    let mut buffer: Vec<u8> = Vec::new();
    buffer.write_string("LOTH");
    buffer.write_string("");
    buffer.write_string("\u{e9}");
    assert_eq!(buffer, vec![b'L', b'O', b'T', b'H', 0xC3, 0xA9]);
}

#[test]
fn write_line_appends_one_line_feed() {
    let mut buffer: Vec<u8> = Vec::new();
    buffer.write_line("ab");
    buffer.write_line("");
    assert_eq!(buffer, vec![b'a', b'b', 0x0A, 0x0A]);
}

#[test]
fn append_bytes_keeps_what_was_there() {
    let mut buffer: Vec<u8> = vec![1, 2];
    append_bytes(&mut buffer, &[3, 4, 5]);
    append_bytes(&mut buffer, &[]);
    assert_eq!(buffer, vec![1, 2, 3, 4, 5]);
}

#[test]
fn read_i32_consumes_four_bytes() {
    let mut cursor = BytesCursor::new(vec![0x78, 0x56, 0x34, 0x12, 0xFE, 0xFF, 0xFF, 0xFF, 7]);
    assert_eq!(cursor.read_i32(), Ok(0x12345678));
    assert_eq!(cursor.position(), 4);
    assert_eq!(cursor.read_i32(), Ok(-2));
    assert_eq!(cursor.position(), 8);
    assert_eq!(cursor.remaining_len(), 1);
}

#[test]
fn read_i32_fails_when_fewer_than_four_bytes_are_left() {
    let mut cursor = BytesCursor::new(vec![1, 2, 3]);
    assert_eq!(cursor.read_i32(), Err(DecodeError::UnexpectedEof));
    assert_eq!(cursor.position(), 0);
    let mut empty = BytesCursor::new(Vec::new());
    assert_eq!(empty.read_i32(), Err(DecodeError::UnexpectedEof));
}

#[test]
fn read_line_trimmed_stops_at_the_first_line_feed() {
    let mut cursor = BytesCursor::new(b"first\nsecond\n\nrest".to_vec());
    assert_eq!(cursor.read_line_trimmed(), Ok("first".to_string()));
    assert_eq!(cursor.position(), 6);
    assert_eq!(cursor.read_line_trimmed(), Ok("second".to_string()));
    assert_eq!(cursor.read_line_trimmed(), Ok(String::new()));
    assert_eq!(cursor.position(), 14);
    assert_eq!(cursor.read_line_trimmed(), Err(DecodeError::UnexpectedEof));
    assert_eq!(cursor.position(), 14);
}

#[test]
fn read_line_trimmed_fails_on_empty_input() {
    let mut cursor = BytesCursor::new(Vec::new());
    assert_eq!(cursor.read_line_trimmed(), Err(DecodeError::UnexpectedEof));
}

#[test]
fn read_line_trimmed_keeps_a_carriage_return_by_default() {
    let mut cursor = BytesCursor::new(b"name\r\nnext\n".to_vec());
    assert_eq!(cursor.read_line_trimmed(), Ok("name\r".to_string()));
    assert_eq!(cursor.read_line_trimmed(), Ok("next".to_string()));
}

#[test]
fn read_line_trimmed_can_drop_one_carriage_return() {
    let mut cursor = BytesCursor::trimming_carriage_returns(b"name\r\nnext\n\r\r\n\r\n".to_vec());
    assert_eq!(cursor.read_line_trimmed(), Ok("name".to_string()));
    assert_eq!(cursor.position(), 6);
    assert_eq!(cursor.read_line_trimmed(), Ok("next".to_string()));
    assert_eq!(cursor.read_line_trimmed(), Ok("\r".to_string()));
    assert_eq!(cursor.read_line_trimmed(), Ok(String::new()));
    assert_eq!(cursor.remaining_len(), 0);
}

#[test]
fn read_line_trimmed_decodes_utf8() {
    let mut cursor = BytesCursor::new(vec![0xC3, 0xA9, b't', 0xC3, 0xA9, 0x0A, 0xE2, 0x82, 0xAC, 0x0A]);
    assert_eq!(cursor.read_line_trimmed(), Ok("\u{e9}t\u{e9}".to_string()));
    assert_eq!(cursor.read_line_trimmed(), Ok("\u{20ac}".to_string()));
}

#[test]
fn read_line_trimmed_refuses_bytes_that_are_not_text() {
    let mut cursor = BytesCursor::new(vec![b'a', 0xFF, b'b', 0x0A, b'c', 0x0A]);
    assert_eq!(cursor.read_line_trimmed(), Err(DecodeError::InvalidText));
    assert_eq!(cursor.position(), 0);
    let mut cut = BytesCursor::new(vec![0xC3, 0x0A]);
    assert_eq!(cut.read_line_trimmed(), Err(DecodeError::InvalidText));
}

#[test]
fn read_n_chars_reads_exactly_that_many_bytes() {
    let mut cursor = BytesCursor::new(b"LOTHrest".to_vec());
    assert_eq!(cursor.read_n_chars(4), Ok("LOTH".to_string()));
    assert_eq!(cursor.position(), 4);
    assert_eq!(cursor.read_n_chars(0), Ok(String::new()));
    assert_eq!(cursor.position(), 4);
    assert_eq!(cursor.read_n_chars(4), Ok("rest".to_string()));
    assert_eq!(cursor.read_n_chars(1), Err(DecodeError::UnexpectedEof));
}

#[test]
fn read_n_chars_counts_bytes_not_characters() {
    let mut cursor = BytesCursor::new(vec![b'a', b'b', 0xC3, 0xA9, b'z']);
    assert_eq!(cursor.read_n_chars(4), Ok("ab\u{e9}".to_string()));
    assert_eq!(cursor.remaining_len(), 1);
}

#[test]
fn read_n_chars_fails_when_too_few_bytes_are_left() {
    let mut cursor = BytesCursor::new(b"LOT".to_vec());
    assert_eq!(cursor.read_n_chars(4), Err(DecodeError::UnexpectedEof));
    assert_eq!(cursor.position(), 0);
}

#[test]
fn read_n_chars_refuses_bytes_that_are_not_text() {
    let mut cursor = BytesCursor::new(vec![b'L', b'O', 0xC3, b'H', b'!']);
    assert_eq!(cursor.read_n_chars(4), Err(DecodeError::InvalidText));
    assert_eq!(cursor.position(), 0);
    let mut split = BytesCursor::new(vec![b'a', b'b', b'c', 0xC3, 0xA9]);
    assert_eq!(split.read_n_chars(4), Err(DecodeError::InvalidText));
    let mut surrogate = BytesCursor::new(vec![0xED, 0xA0, 0x80, b'x']);
    assert_eq!(surrogate.read_n_chars(4), Err(DecodeError::InvalidText));
}

#[test]
fn ensure_end_reached_accepts_only_the_end() {
    let mut cursor = BytesCursor::new(vec![1, 0, 0, 0]);
    assert_eq!(cursor.ensure_end_reached(), Err(DecodeError::TrailingData));
    assert_eq!(cursor.position(), 4);
    assert_eq!(cursor.ensure_end_reached(), Ok(()));

    let mut read = BytesCursor::new(vec![1, 0, 0, 0]);
    assert_eq!(read.read_i32(), Ok(1));
    assert_eq!(read.ensure_end_reached(), Ok(()));

    let mut empty = BytesCursor::new(Vec::new());
    assert_eq!(empty.ensure_end_reached(), Ok(()));
}

#[test]
fn read_count_accepts_a_count_that_the_rest_can_hold() {
    let mut bytes = vec![2, 0, 0, 0];
    bytes.extend_from_slice(&[0u8; 32]);
    let mut cursor = BytesCursor::new(bytes);
    assert_eq!(cursor.read_count(16), Ok(2));
    assert_eq!(cursor.position(), 4);

    let mut zero = BytesCursor::new(vec![0, 0, 0, 0]);
    assert_eq!(zero.read_count(16), Ok(0));
}

#[test]
fn read_count_refuses_a_negative_count() {
    let mut cursor = BytesCursor::new(vec![0xFF, 0xFF, 0xFF, 0xFF, 0, 0, 0, 0]);
    assert_eq!(cursor.read_count(1), Err(DecodeError::MalformedCount));
    assert_eq!(cursor.position(), 0);
    let mut lowest = BytesCursor::new(vec![0, 0, 0, 0x80]);
    assert_eq!(lowest.read_count(0), Err(DecodeError::MalformedCount));
}

#[test]
fn read_count_refuses_a_count_that_the_rest_cannot_hold() {
    let mut bytes = vec![2, 0, 0, 0];
    bytes.extend_from_slice(&[0u8; 31]);
    let mut cursor = BytesCursor::new(bytes);
    assert_eq!(cursor.read_count(16), Err(DecodeError::MalformedCount));
    assert_eq!(cursor.position(), 0);

    let mut huge = BytesCursor::new(vec![0xFF, 0xFF, 0xFF, 0x7F, 1, 2, 3]);
    assert_eq!(huge.read_count(16), Err(DecodeError::MalformedCount));
    assert_eq!(huge.read_count(usize::MAX), Err(DecodeError::MalformedCount));
}

#[test]
fn read_count_fails_when_the_count_itself_is_cut() {
    let mut cursor = BytesCursor::new(vec![1, 0, 0]);
    assert_eq!(cursor.read_count(4), Err(DecodeError::UnexpectedEof));
}

#[test]
fn cursor_moves_as_told() {
    let mut cursor = BytesCursor::new(vec![10, 20, 30, 40, 50, 60, 70, 80]);
    assert_eq!(cursor.total_len(), 8);
    assert_eq!(cursor.position(), 0);
    assert_eq!(cursor.remaining_len(), 8);
    assert_eq!(cursor.read_i32(), Ok(i32::from_le_bytes([10, 20, 30, 40])));
    assert_eq!(cursor.position(), 4);
    assert_eq!(cursor.remaining_len(), 4);
    cursor.seek_to_end();
    assert_eq!(cursor.position(), 8);
    assert_eq!(cursor.remaining_len(), 0);
    cursor.rewind();
    assert_eq!(cursor.position(), 0);
    assert_eq!(cursor.read_i32(), Ok(i32::from_le_bytes([10, 20, 30, 40])));
    assert_eq!(cursor.read_i32(), Ok(i32::from_le_bytes([50, 60, 70, 80])));
    assert_eq!(cursor.into_inner(), vec![10, 20, 30, 40, 50, 60, 70, 80]);
}
