//! Reading never looks past what it consumes.
//!
//! Each lemma says of one part of the layout what happens when bytes are
//! added behind the input. From this follow the two laws at the end: a
//! buffer that holds a header holds none any more when bytes are added to
//! it, nor when bytes are taken from its end.

use crate::constants::LINE_END;
use crate::error::DecodeError;
use crate::format::{
    decode, parse_building, parse_buildings, parse_buildings_n, parse_extent, parse_header,
    parse_lines, parse_rectangles, parse_room, parse_room_objects, parse_rooms, parse_rooms_n,
    parse_spawns, parse_tile_names, rectangle_at, rectangles_in, room_ids_in, room_object_at,
    room_objects_in,
};
use crate::lotheader::LotheaderView;
use crate::wire::{
    has_line, i32_at, is_line_end, lemma_line_end_unique, line_len, parse_count, parse_i32,
    parse_line, parse_text, Parsed,
};
use vstd::prelude::*;

verus! {

/// How a reader behaves when bytes are added behind its input, if it never
/// looks past what it consumes: a value that it read is read again, and the
/// added bytes follow it; text that it found faulty is found faulty again.
/// No reader of a field reports bytes in excess.
pub open spec fn looks_no_further<T>(short: Parsed<T>, long: Parsed<T>, extra: Seq<u8>) -> bool {
    match short {
        Ok((value, rest)) => long == Ok::<_, DecodeError>((value, rest + extra)),
        Err(e) => e != DecodeError::TrailingData && (e == DecodeError::InvalidText ==> long
            == short),
    }
}

/// Reading an integer looks no further than its four bytes.
pub proof fn lemma_i32_looks_no_further(s: Seq<u8>, extra: Seq<u8>)
    ensures
        looks_no_further(parse_i32(s), parse_i32(s + extra), extra),
{
    if s.len() >= 4 {
        assert((s + extra).skip(4) =~= s.skip(4) + extra);
    }
}

/// Reading text of a known length looks no further than that length.
pub proof fn lemma_text_looks_no_further(s: Seq<u8>, n: nat, extra: Seq<u8>)
    ensures
        looks_no_further(parse_text(s, n), parse_text(s + extra, n), extra),
{
    if s.len() >= n {
        assert((s + extra).take(n as int) =~= s.take(n as int));
        assert((s + extra).skip(n as int) =~= s.skip(n as int) + extra);
    }
}

/// Reading a line looks no further than its line feed.
pub proof fn lemma_line_looks_no_further(s: Seq<u8>, trim_cr: bool, extra: Seq<u8>)
    ensures
        looks_no_further(parse_line(s, trim_cr), parse_line(s + extra, trim_cr), extra),
{
    reveal(parse_line);
    if has_line(s) {
        let k = line_len(s);
        assert(is_line_end(s, k));
        assert(is_line_end(s + extra, k)) by {
            assert((s + extra)[k] == s[k]);
            assert forall|j: int| 0 <= j < k implies (s + extra)[j] != LINE_END by {
                assert((s + extra)[j] == s[j]);
            }
        }
        lemma_line_end_unique(s + extra, k);
        assert((s + extra).take(k) =~= s.take(k));
        assert((s + extra).skip(k + 1) =~= s.skip(k + 1) + extra);
    }
}

/// Reading a count looks no further than its four bytes, and a count that
/// was feasible stays so when more bytes follow.
pub proof fn lemma_count_looks_no_further(s: Seq<u8>, unit: nat, extra: Seq<u8>)
    ensures
        looks_no_further(parse_count(s, unit), parse_count(s + extra, unit), extra),
{
    lemma_i32_looks_no_further(s, extra);
}

/// Reading the rectangles of a room looks no further than their block.
pub proof fn lemma_rectangles_look_no_further(s: Seq<u8>, extra: Seq<u8>)
    ensures
        looks_no_further(parse_rectangles(s), parse_rectangles(s + extra), extra),
{
    lemma_count_looks_no_further(s, 16, extra);
    if let Ok((count, block)) = parse_count(s, 16) {
        assert(rectangles_in(block + extra, count) =~= rectangles_in(block, count)) by {
            assert forall|i: int| 0 <= i < count implies rectangle_at(block + extra, i)
                == rectangle_at(block, i) by {
                lemma_i32_at_looks_no_further(block, 16 * i, extra);
                lemma_i32_at_looks_no_further(block, 16 * i + 4, extra);
                lemma_i32_at_looks_no_further(block, 16 * i + 8, extra);
                lemma_i32_at_looks_no_further(block, 16 * i + 12, extra);
            }
        }
        assert((block + extra).skip(16 * count as int) =~= block.skip(16 * count as int) + extra);
    }
}

/// An integer that lies within `s` is the same when bytes follow `s`.
proof fn lemma_i32_at_looks_no_further(s: Seq<u8>, at: int, extra: Seq<u8>)
    requires
        0 <= at,
        at + 4 <= s.len(),
    ensures
        i32_at(s + extra, at) == i32_at(s, at),
{
}

/// Reading the objects of a room looks no further than their block.
pub proof fn lemma_room_objects_look_no_further(s: Seq<u8>, extra: Seq<u8>)
    ensures
        looks_no_further(parse_room_objects(s), parse_room_objects(s + extra), extra),
{
    lemma_count_looks_no_further(s, 12, extra);
    if let Ok((count, block)) = parse_count(s, 12) {
        assert(room_objects_in(block + extra, count) =~= room_objects_in(block, count)) by {
            assert forall|i: int| 0 <= i < count implies room_object_at(block + extra, i)
                == room_object_at(block, i) by {
                lemma_i32_at_looks_no_further(block, 12 * i, extra);
                lemma_i32_at_looks_no_further(block, 12 * i + 4, extra);
                lemma_i32_at_looks_no_further(block, 12 * i + 8, extra);
            }
        }
        assert((block + extra).skip(12 * count as int) =~= block.skip(12 * count as int) + extra);
    }
}

/// Reading a building looks no further than its block of room references.
pub proof fn lemma_building_looks_no_further(s: Seq<u8>, id: i32, extra: Seq<u8>)
    ensures
        looks_no_further(parse_building(s, id), parse_building(s + extra, id), extra),
{
    lemma_count_looks_no_further(s, 4, extra);
    if let Ok((count, block)) = parse_count(s, 4) {
        assert(room_ids_in(block + extra, count) =~= room_ids_in(block, count)) by {
            assert forall|i: int| 0 <= i < count implies #[trigger] room_ids_in(
                block + extra,
                count,
            )[i] == room_ids_in(block, count)[i] by {
                lemma_i32_at_looks_no_further(block, 4 * i, extra);
            }
        }
        assert((block + extra).skip(4 * count as int) =~= block.skip(4 * count as int) + extra);
    }
}

/// Reading lines looks no further than the last of them.
pub proof fn lemma_lines_look_no_further(s: Seq<u8>, count: nat, trim_cr: bool, extra: Seq<u8>)
    ensures
        looks_no_further(
            parse_lines(s, count, trim_cr),
            parse_lines(s + extra, count, trim_cr),
            extra,
        ),
    decreases count,
{
    if count > 0 {
        lemma_lines_look_no_further(s, (count - 1) as nat, trim_cr, extra);
        if let Ok((lines, rest)) = parse_lines(s, (count - 1) as nat, trim_cr) {
            lemma_line_looks_no_further(rest, trim_cr, extra);
        }
    }
}

/// Reading the tile names looks no further than the last of them.
pub proof fn lemma_tile_names_look_no_further(s: Seq<u8>, trim_cr: bool, extra: Seq<u8>)
    ensures
        looks_no_further(
            parse_tile_names(s, trim_cr),
            parse_tile_names(s + extra, trim_cr),
            extra,
        ),
{
    lemma_count_looks_no_further(s, 1, extra);
    if let Ok((count, rest)) = parse_count(s, 1) {
        lemma_lines_look_no_further(rest, count, trim_cr, extra);
    }
}

/// Reading a room looks no further than its objects.
pub proof fn lemma_room_looks_no_further(s: Seq<u8>, id: i32, trim_cr: bool, extra: Seq<u8>)
    ensures
        looks_no_further(parse_room(s, id, trim_cr), parse_room(s + extra, id, trim_cr), extra),
{
    reveal(parse_room);
    lemma_line_looks_no_further(s, trim_cr, extra);
    if let Ok((name, after_name)) = parse_line(s, trim_cr) {
        lemma_i32_looks_no_further(after_name, extra);
        if let Ok((layer, after_layer)) = parse_i32(after_name) {
            lemma_rectangles_look_no_further(after_layer, extra);
            if let Ok((rectangles, after_rectangles)) = parse_rectangles(after_layer) {
                lemma_room_objects_look_no_further(after_rectangles, extra);
            }
        }
    }
}

/// Reading rooms looks no further than the last of them.
pub proof fn lemma_room_list_looks_no_further(
    s: Seq<u8>,
    count: nat,
    trim_cr: bool,
    extra: Seq<u8>,
)
    ensures
        looks_no_further(
            parse_rooms_n(s, count, trim_cr),
            parse_rooms_n(s + extra, count, trim_cr),
            extra,
        ),
    decreases count,
{
    if count > 0 {
        lemma_room_list_looks_no_further(s, (count - 1) as nat, trim_cr, extra);
        if let Ok((rooms, rest)) = parse_rooms_n(s, (count - 1) as nat, trim_cr) {
            lemma_room_looks_no_further(rest, (count - 1) as i32, trim_cr, extra);
        }
    }
}

/// Reading the rooms of a header looks no further than the last of them.
pub proof fn lemma_rooms_look_no_further(s: Seq<u8>, trim_cr: bool, extra: Seq<u8>)
    ensures
        looks_no_further(parse_rooms(s, trim_cr), parse_rooms(s + extra, trim_cr), extra),
{
    lemma_count_looks_no_further(s, 13, extra);
    if let Ok((count, rest)) = parse_count(s, 13) {
        lemma_room_list_looks_no_further(rest, count, trim_cr, extra);
    }
}

/// Reading buildings looks no further than the last of them.
pub proof fn lemma_building_list_looks_no_further(s: Seq<u8>, count: nat, extra: Seq<u8>)
    ensures
        looks_no_further(parse_buildings_n(s, count), parse_buildings_n(s + extra, count), extra),
    decreases count,
{
    if count > 0 {
        lemma_building_list_looks_no_further(s, (count - 1) as nat, extra);
        if let Ok((buildings, rest)) = parse_buildings_n(s, (count - 1) as nat) {
            lemma_building_looks_no_further(rest, (count - 1) as i32, extra);
        }
    }
}

/// Reading the buildings of a header looks no further than the last of
/// them.
pub proof fn lemma_buildings_look_no_further(s: Seq<u8>, extra: Seq<u8>)
    ensures
        looks_no_further(parse_buildings(s), parse_buildings(s + extra), extra),
{
    lemma_count_looks_no_further(s, 4, extra);
    if let Ok((count, rest)) = parse_count(s, 4) {
        lemma_building_list_looks_no_further(rest, count, extra);
    }
}

/// Reading width, height and the two layers looks no further than their
/// sixteen bytes.
pub proof fn lemma_extent_looks_no_further(s: Seq<u8>, extra: Seq<u8>)
    ensures
        looks_no_further(parse_extent(s), parse_extent(s + extra), extra),
{
    lemma_i32_looks_no_further(s, extra);
    if let Ok((width, after_width)) = parse_i32(s) {
        lemma_i32_looks_no_further(after_width, extra);
        if let Ok((height, after_height)) = parse_i32(after_width) {
            lemma_i32_looks_no_further(after_height, extra);
            if let Ok((min_layer, after_min)) = parse_i32(after_height) {
                lemma_i32_looks_no_further(after_min, extra);
            }
        }
    }
}

/// Reading the spawn grid looks no further than its 1024 bytes.
pub proof fn lemma_spawns_look_no_further(s: Seq<u8>, extra: Seq<u8>)
    ensures
        looks_no_further(parse_spawns(s), parse_spawns(s + extra), extra),
{
    if s.len() >= 1024 {
        assert((s + extra).take(1024) =~= s.take(1024));
        assert((s + extra).skip(1024) =~= s.skip(1024) + extra);
    }
}

/// Reading the fields of a header looks no further than the spawn grid.
pub proof fn lemma_header_looks_no_further(s: Seq<u8>, trim_cr: bool, extra: Seq<u8>)
    ensures
        looks_no_further(parse_header(s, trim_cr), parse_header(s + extra, trim_cr), extra),
{
    lemma_text_looks_no_further(s, 4, extra);
    if let Ok((magic, after_magic)) = parse_text(s, 4) {
        lemma_i32_looks_no_further(after_magic, extra);
        if let Ok((version, after_version)) = parse_i32(after_magic) {
            lemma_tile_names_look_no_further(after_version, trim_cr, extra);
            if let Ok((tile_names, after_tiles)) = parse_tile_names(after_version, trim_cr) {
                lemma_extent_looks_no_further(after_tiles, extra);
                if let Ok((extent, after_extent)) = parse_extent(after_tiles) {
                    lemma_rooms_look_no_further(after_extent, trim_cr, extra);
                    if let Ok((rooms, after_rooms)) = parse_rooms(after_extent, trim_cr) {
                        lemma_buildings_look_no_further(after_rooms, extra);
                        if let Ok((buildings, after_buildings)) = parse_buildings(after_rooms) {
                            lemma_spawns_look_no_further(after_buildings, extra);
                        }
                    }
                }
            }
        }
    }
}

/// A buffer that holds a header, with any bytes added behind it, is refused
/// for its bytes in excess.
pub proof fn lemma_trailing_bytes_are_refused(bytes: Seq<u8>, trim_cr: bool, extra: Seq<u8>)
    requires
        decode(bytes, trim_cr) is Ok,
        extra.len() > 0,
    ensures
        decode(bytes + extra, trim_cr) == Err::<LotheaderView, _>(DecodeError::TrailingData),
{
    lemma_header_looks_no_further(bytes, trim_cr, extra);
}

/// A buffer that holds a header, cut short anywhere, is refused: for want
/// of bytes, or for a count that what is left cannot hold.
pub proof fn lemma_truncation_is_refused(bytes: Seq<u8>, trim_cr: bool, kept: int)
    requires
        decode(bytes, trim_cr) is Ok,
        0 <= kept < bytes.len(),
    ensures
        decode(bytes.take(kept), trim_cr) == Err::<LotheaderView, _>(DecodeError::UnexpectedEof)
            || decode(bytes.take(kept), trim_cr) == Err::<LotheaderView, _>(
            DecodeError::MalformedCount,
        ),
{
    let short = bytes.take(kept);
    let cut = bytes.skip(kept);
    assert(short + cut =~= bytes);
    lemma_header_looks_no_further(short, trim_cr, cut);
}

} // verus!
