//! The layout of a lot header file, as functions on byte sequences.
//!
//! `encode` says which bytes stand for a header. `decode` says what a buffer
//! holds, field after field, and which fault is reported where it holds no
//! header. Both speak of views only; the executable codec is held to them.
//!
//! In file order: the magic (4 bytes of text), the version, the tile names
//! (a count, then one line each), width, height, lowest layer, highest layer
//! (one less than the number kept in memory), the rooms (a count, then for
//! each a name line, the layer, a counted block of rectangles and a counted
//! block of room objects), the buildings (a count, then for each a counted
//! block of room references), and 1024 spawn bytes.

use crate::constants::MAX_COUNT;
use crate::error::DecodeError;
use crate::lotheader::{BuildingView, LotheaderView, Rectangle, RoomObject, RoomView};
use crate::wire::{
    i32_at, i32_to_le, is_line_text, line_bytes, parse_count, parse_i32, parse_line, parse_text,
    Parsed,
};
use vstd::prelude::*;
use vstd::utf8::encode_utf8;
use vstd::wrapping::i32_specs;

verus! {

/// Largest number of items that a count field can state.
pub open spec fn max_count() -> int {
    MAX_COUNT as int
}

/* Rooms: what is derived while reading */

/// Sum of width times height over `rectangles`, as an unbounded integer.
pub open spec fn exact_area(rectangles: Seq<Rectangle>) -> int
    decreases rectangles.len(),
{
    if rectangles.len() == 0 {
        0
    } else {
        exact_area(rectangles.drop_last()) + rectangles.last().width * rectangles.last().heigth
    }
}

/// The area kept with a room: the exact sum, cut down to 32 bits in two's
/// complement.
pub open spec fn area_of(rectangles: Seq<Rectangle>) -> i32 {
    i32_specs::signed_crop(exact_area(rectangles))
}

/* Blocks of records of a fixed size */

/// The rectangle held by record `i` of a block of 16-byte records.
pub open spec fn rectangle_at(block: Seq<u8>, i: int) -> Rectangle {
    Rectangle {
        x: i32_at(block, 16 * i),
        y: i32_at(block, 16 * i + 4),
        width: i32_at(block, 16 * i + 8),
        heigth: i32_at(block, 16 * i + 12),
    }
}

/// The first `count` rectangles of a block.
pub open spec fn rectangles_in(block: Seq<u8>, count: nat) -> Seq<Rectangle> {
    Seq::new(count, |i: int| rectangle_at(block, i))
}

/// Reading the rectangles of a room: a count, then that many records.
pub open spec fn parse_rectangles(s: Seq<u8>) -> Parsed<Seq<Rectangle>> {
    match parse_count(s, 16) {
        Err(e) => Err(e),
        Ok((count, block)) => Ok((rectangles_in(block, count), block.skip(16 * count as int))),
    }
}

/// The room object held by record `i` of a block of 12-byte records.
pub open spec fn room_object_at(block: Seq<u8>, i: int) -> RoomObject {
    RoomObject {
        room_type: i32_at(block, 12 * i),
        x: i32_at(block, 12 * i + 4),
        y: i32_at(block, 12 * i + 8),
    }
}

/// The first `count` room objects of a block.
pub open spec fn room_objects_in(block: Seq<u8>, count: nat) -> Seq<RoomObject> {
    Seq::new(count, |i: int| room_object_at(block, i))
}

/// Reading the objects of a room: a count, then that many records.
pub open spec fn parse_room_objects(s: Seq<u8>) -> Parsed<Seq<RoomObject>> {
    match parse_count(s, 12) {
        Err(e) => Err(e),
        Ok((count, block)) => Ok((room_objects_in(block, count), block.skip(12 * count as int))),
    }
}

/// The first `count` room references of a block of 4-byte records.
pub open spec fn room_ids_in(block: Seq<u8>, count: nat) -> Seq<i32> {
    Seq::new(count, |i: int| i32_at(block, 4 * i))
}

/// Reading one building, the one at place `id`: a count, then that many
/// room references.
pub open spec fn parse_building(s: Seq<u8>, id: i32) -> Parsed<BuildingView> {
    match parse_count(s, 4) {
        Err(e) => Err(e),
        Ok((count, block)) => Ok(
            (BuildingView { id, room_ids: room_ids_in(block, count) }, block.skip(4 * count as int)),
        ),
    }
}

/* Lists of items of varying size */

/// Reading `count` lines, one after the other.
pub open spec fn parse_lines(s: Seq<u8>, count: nat, trim_cr: bool) -> Parsed<Seq<Seq<char>>>
    decreases count,
{
    if count == 0 {
        Ok((Seq::empty(), s))
    } else {
        match parse_lines(s, (count - 1) as nat, trim_cr) {
            Err(e) => Err(e),
            Ok((lines, rest)) => match parse_line(rest, trim_cr) {
                Err(e) => Err(e),
                Ok((line, after)) => Ok((lines.push(line), after)),
            },
        }
    }
}

/// Once a line cannot be read, reading more lines fails in the same way.
pub proof fn lemma_parse_lines_stays_failed(s: Seq<u8>, failed: nat, count: nat, trim_cr: bool)
    requires
        parse_lines(s, failed, trim_cr) is Err,
        failed <= count,
    ensures
        parse_lines(s, count, trim_cr) == parse_lines(s, failed, trim_cr),
    decreases count,
{
    if failed < count {
        lemma_parse_lines_stays_failed(s, failed, (count - 1) as nat, trim_cr);
    }
}

/// Reading the tile names: a count, then one line each.
pub open spec fn parse_tile_names(s: Seq<u8>, trim_cr: bool) -> Parsed<Seq<Seq<char>>> {
    match parse_count(s, 1) {
        Err(e) => Err(e),
        Ok((count, rest)) => parse_lines(rest, count, trim_cr),
    }
}

/// Reading one room, the one at place `id`: its name line, its layer, its
/// rectangles and its objects. The area is computed from the rectangles.
#[verifier::opaque]
pub open spec fn parse_room(s: Seq<u8>, id: i32, trim_cr: bool) -> Parsed<RoomView> {
    match parse_line(s, trim_cr) {
        Err(e) => Err(e),
        Ok((name, after_name)) => match parse_i32(after_name) {
            Err(e) => Err(e),
            Ok((layer, after_layer)) => match parse_rectangles(after_layer) {
                Err(e) => Err(e),
                Ok((rectangles, after_rectangles)) => match parse_room_objects(after_rectangles) {
                    Err(e) => Err(e),
                    Ok((room_objects, after)) => Ok(
                        (
                            RoomView {
                                id,
                                name,
                                layer,
                                area: area_of(rectangles),
                                rectangles,
                                room_objects,
                            },
                            after,
                        ),
                    ),
                },
            },
        },
    }
}

/// Reading `count` rooms, one after the other: places 0 to `count - 1`.
pub open spec fn parse_rooms_n(s: Seq<u8>, count: nat, trim_cr: bool) -> Parsed<Seq<RoomView>>
    decreases count,
{
    if count == 0 {
        Ok((Seq::empty(), s))
    } else {
        match parse_rooms_n(s, (count - 1) as nat, trim_cr) {
            Err(e) => Err(e),
            Ok((rooms, rest)) => match parse_room(rest, (count - 1) as i32, trim_cr) {
                Err(e) => Err(e),
                Ok((room, after)) => Ok((rooms.push(room), after)),
            },
        }
    }
}

/// Once a room cannot be read, reading more rooms fails in the same way.
pub proof fn lemma_parse_rooms_stays_failed(s: Seq<u8>, failed: nat, count: nat, trim_cr: bool)
    requires
        parse_rooms_n(s, failed, trim_cr) is Err,
        failed <= count,
    ensures
        parse_rooms_n(s, count, trim_cr) == parse_rooms_n(s, failed, trim_cr),
    decreases count,
{
    if failed < count {
        lemma_parse_rooms_stays_failed(s, failed, (count - 1) as nat, trim_cr);
    }
}

/// Reading the rooms: a count, then the rooms.
pub open spec fn parse_rooms(s: Seq<u8>, trim_cr: bool) -> Parsed<Seq<RoomView>> {
    match parse_count(s, 13) {
        Err(e) => Err(e),
        Ok((count, rest)) => parse_rooms_n(rest, count, trim_cr),
    }
}

/// Reading `count` buildings, one after the other: places 0 to `count - 1`.
pub open spec fn parse_buildings_n(s: Seq<u8>, count: nat) -> Parsed<Seq<BuildingView>>
    decreases count,
{
    if count == 0 {
        Ok((Seq::empty(), s))
    } else {
        match parse_buildings_n(s, (count - 1) as nat) {
            Err(e) => Err(e),
            Ok((buildings, rest)) => match parse_building(rest, (count - 1) as i32) {
                Err(e) => Err(e),
                Ok((building, after)) => Ok((buildings.push(building), after)),
            },
        }
    }
}

/// Once a building cannot be read, reading more buildings fails in the same
/// way.
pub proof fn lemma_parse_buildings_stays_failed(s: Seq<u8>, failed: nat, count: nat)
    requires
        parse_buildings_n(s, failed) is Err,
        failed <= count,
    ensures
        parse_buildings_n(s, count) == parse_buildings_n(s, failed),
    decreases count,
{
    if failed < count {
        lemma_parse_buildings_stays_failed(s, failed, (count - 1) as nat);
    }
}

/// Reading the buildings: a count, then the buildings.
pub open spec fn parse_buildings(s: Seq<u8>) -> Parsed<Seq<BuildingView>> {
    match parse_count(s, 4) {
        Err(e) => Err(e),
        Ok((count, rest)) => parse_buildings_n(rest, count),
    }
}

/// Reading the spawn grid: 1024 bytes, taken as they are.
pub open spec fn parse_spawns(s: Seq<u8>) -> Parsed<Seq<u8>> {
    if s.len() < 1024 {
        Err(DecodeError::UnexpectedEof)
    } else {
        Ok((s.take(1024), s.skip(1024)))
    }
}

/* The whole header */

/// The four integers between the tile names and the rooms.
pub struct Extent {
    pub width: i32,
    pub height: i32,
    pub min_layer: i32,
    pub max_layer: i32,
}

/// Reading width, height, lowest and highest layer. The highest layer is
/// kept as one more than the number read, in 32-bit arithmetic that wraps.
pub open spec fn parse_extent(s: Seq<u8>) -> Parsed<Extent> {
    match parse_i32(s) {
        Err(e) => Err(e),
        Ok((width, after_width)) => match parse_i32(after_width) {
            Err(e) => Err(e),
            Ok((height, after_height)) => match parse_i32(after_height) {
                Err(e) => Err(e),
                Ok((min_layer, after_min)) => match parse_i32(after_min) {
                    Err(e) => Err(e),
                    Ok((stated_max, after)) => Ok(
                        (
                            Extent {
                                width,
                                height,
                                min_layer,
                                max_layer: i32_specs::wrapping_add(stated_max, 1),
                            },
                            after,
                        ),
                    ),
                },
            },
        },
    }
}

/// Reading every field of a header, in file order. Bytes may be left over.
pub open spec fn parse_header(s: Seq<u8>, trim_cr: bool) -> Parsed<LotheaderView> {
    match parse_text(s, 4) {
        Err(e) => Err(e),
        Ok((magic, after_magic)) => match parse_i32(after_magic) {
            Err(e) => Err(e),
            Ok((version, after_version)) => match parse_tile_names(after_version, trim_cr) {
                Err(e) => Err(e),
                Ok((tile_names, after_tiles)) => match parse_extent(after_tiles) {
                    Err(e) => Err(e),
                    Ok((extent, after_extent)) => match parse_rooms(after_extent, trim_cr) {
                        Err(e) => Err(e),
                        Ok((rooms, after_rooms)) => match parse_buildings(after_rooms) {
                            Err(e) => Err(e),
                            Ok((buildings, after_buildings)) => match parse_spawns(
                                after_buildings,
                            ) {
                                Err(e) => Err(e),
                                Ok((spawns, after)) => Ok(
                                    (
                                        LotheaderView {
                                            magic,
                                            version,
                                            tile_names,
                                            width: extent.width,
                                            height: extent.height,
                                            min_layer: extent.min_layer,
                                            max_layer: extent.max_layer,
                                            rooms,
                                            buildings,
                                            spawns,
                                        },
                                        after,
                                    ),
                                ),
                            },
                        },
                    },
                },
            },
        },
    }
}

/// What a whole buffer holds: the header that its fields state, provided
/// that the last field ends where the buffer ends.
pub open spec fn decode(bytes: Seq<u8>, trim_cr: bool) -> Result<LotheaderView, DecodeError> {
    match parse_header(bytes, trim_cr) {
        Err(e) => Err(e),
        Ok((header, rest)) => if rest.len() == 0 {
            Ok(header)
        } else {
            Err(DecodeError::TrailingData)
        },
    }
}

/* Writing */

/// The bytes of a count field.
pub open spec fn count_bytes(count: nat) -> Seq<u8> {
    i32_to_le(count as i32)
}

/// The 16 bytes of one rectangle record.
pub open spec fn rectangle_bytes(r: Rectangle) -> Seq<u8> {
    i32_to_le(r.x) + i32_to_le(r.y) + i32_to_le(r.width) + i32_to_le(r.heigth)
}

/// The records of `rectangles`, one after the other.
pub open spec fn rectangle_records(rectangles: Seq<Rectangle>) -> Seq<u8>
    decreases rectangles.len(),
{
    if rectangles.len() == 0 {
        Seq::empty()
    } else {
        rectangle_records(rectangles.drop_last()) + rectangle_bytes(rectangles.last())
    }
}

/// The 12 bytes of one room object record.
pub open spec fn room_object_bytes(o: RoomObject) -> Seq<u8> {
    i32_to_le(o.room_type) + i32_to_le(o.x) + i32_to_le(o.y)
}

/// The records of `objects`, one after the other.
pub open spec fn room_object_records(objects: Seq<RoomObject>) -> Seq<u8>
    decreases objects.len(),
{
    if objects.len() == 0 {
        Seq::empty()
    } else {
        room_object_records(objects.drop_last()) + room_object_bytes(objects.last())
    }
}

/// The records of `room_ids`, one after the other.
pub open spec fn room_id_records(room_ids: Seq<i32>) -> Seq<u8>
    decreases room_ids.len(),
{
    if room_ids.len() == 0 {
        Seq::empty()
    } else {
        room_id_records(room_ids.drop_last()) + i32_to_le(room_ids.last())
    }
}

/// The lines of `texts`, one after the other.
pub open spec fn lines_bytes(texts: Seq<Seq<char>>) -> Seq<u8>
    decreases texts.len(),
{
    if texts.len() == 0 {
        Seq::empty()
    } else {
        lines_bytes(texts.drop_last()) + line_bytes(texts.last())
    }
}

/// The bytes of one room. Neither its place nor its area is written.
pub open spec fn room_bytes(room: RoomView) -> Seq<u8> {
    line_bytes(room.name) + i32_to_le(room.layer) + count_bytes(room.rectangles.len())
        + rectangle_records(room.rectangles) + count_bytes(room.room_objects.len())
        + room_object_records(room.room_objects)
}

/// The bytes of `rooms`, one after the other.
pub open spec fn room_list_bytes(rooms: Seq<RoomView>) -> Seq<u8>
    decreases rooms.len(),
{
    if rooms.len() == 0 {
        Seq::empty()
    } else {
        room_list_bytes(rooms.drop_last()) + room_bytes(rooms.last())
    }
}

/// The bytes of one building. Its place is not written.
pub open spec fn building_bytes(building: BuildingView) -> Seq<u8> {
    count_bytes(building.room_ids.len()) + room_id_records(building.room_ids)
}

/// The bytes of `buildings`, one after the other.
pub open spec fn building_list_bytes(buildings: Seq<BuildingView>) -> Seq<u8>
    decreases buildings.len(),
{
    if buildings.len() == 0 {
        Seq::empty()
    } else {
        building_list_bytes(buildings.drop_last()) + building_bytes(buildings.last())
    }
}

/// The tile names as written: their count, then their lines.
pub open spec fn tile_names_bytes(tile_names: Seq<Seq<char>>) -> Seq<u8> {
    count_bytes(tile_names.len()) + lines_bytes(tile_names)
}

/// The rooms as written: their count, then the rooms.
pub open spec fn rooms_bytes(rooms: Seq<RoomView>) -> Seq<u8> {
    count_bytes(rooms.len()) + room_list_bytes(rooms)
}

/// The buildings as written: their count, then the buildings.
pub open spec fn buildings_bytes(buildings: Seq<BuildingView>) -> Seq<u8> {
    count_bytes(buildings.len()) + building_list_bytes(buildings)
}

/// Width, height, lowest and highest layer as written. The highest layer is
/// written as one less than the number kept in memory, in 32-bit arithmetic
/// that wraps.
pub open spec fn extent_bytes(header: LotheaderView) -> Seq<u8> {
    i32_to_le(header.width) + i32_to_le(header.height) + i32_to_le(header.min_layer) + i32_to_le(
        i32_specs::wrapping_sub(header.max_layer, 1),
    )
}

/// The bytes that stand for `header`.
pub open spec fn encode(header: LotheaderView) -> Seq<u8> {
    encode_utf8(header.magic) + i32_to_le(header.version) + tile_names_bytes(header.tile_names)
        + extent_bytes(header) + rooms_bytes(header.rooms) + buildings_bytes(header.buildings)
        + header.spawns
}

/* Which headers can be written */

/// Each block of the room has a length that its count field can state.
pub open spec fn room_counts_fit(room: RoomView) -> bool {
    &&& room.rectangles.len() <= max_count()
    &&& room.room_objects.len() <= max_count()
}

/// The list and every room in it have a length that a count field can state.
pub open spec fn rooms_counts_fit(rooms: Seq<RoomView>) -> bool {
    &&& rooms.len() <= max_count()
    &&& forall|i: int| 0 <= i < rooms.len() ==> room_counts_fit(#[trigger] rooms[i])
}

/// The list and every building in it have a length that a count field can
/// state.
pub open spec fn buildings_counts_fit(buildings: Seq<BuildingView>) -> bool {
    &&& buildings.len() <= max_count()
    &&& forall|i: int|
        0 <= i < buildings.len() ==> (#[trigger] buildings[i]).room_ids.len() <= max_count()
}

/// Every collection of the header has a length that its count field can
/// state. These are the headers that can be written.
pub open spec fn counts_fit(header: LotheaderView) -> bool {
    &&& header.tile_names.len() <= max_count()
    &&& rooms_counts_fit(header.rooms)
    &&& buildings_counts_fit(header.buildings)
}

/* What reading gives back */

/// Every text of the list can stand on a line of its own.
pub open spec fn are_line_texts(texts: Seq<Seq<char>>, trim_cr: bool) -> bool {
    forall|i: int| 0 <= i < texts.len() ==> is_line_text(#[trigger] texts[i], trim_cr)
}

/// A room as it is read at place `id`: the room, with that id and with the
/// area of its rectangles.
pub open spec fn room_as_read(room: RoomView, id: i32) -> RoomView {
    RoomView { id, area: area_of(room.rectangles), ..room }
}

/// A room that is read back from its bytes: its name can stand on a line
/// and its blocks have lengths that can be stated.
pub open spec fn room_is_representable(room: RoomView, trim_cr: bool) -> bool {
    &&& is_line_text(room.name, trim_cr)
    &&& room_counts_fit(room)
}

/// The rooms as they are read: each with its place as its id and with the
/// area of its rectangles.
pub open spec fn rooms_as_read(rooms: Seq<RoomView>) -> Seq<RoomView> {
    Seq::new(rooms.len(), |i: int| room_as_read(rooms[i], i as i32))
}

/// The list and each room in it are read back from their bytes.
pub open spec fn rooms_are_representable(rooms: Seq<RoomView>, trim_cr: bool) -> bool {
    &&& rooms.len() <= max_count()
    &&& forall|i: int| 0 <= i < rooms.len() ==> room_is_representable(#[trigger] rooms[i], trim_cr)
}

/// The buildings as they are read: each with its place as its id.
pub open spec fn buildings_as_read(buildings: Seq<BuildingView>) -> Seq<BuildingView> {
    Seq::new(
        buildings.len(),
        |i: int| BuildingView { id: i as i32, room_ids: buildings[i].room_ids },
    )
}

/// A header as it is read: the header, with each room and building given
/// its place as its id and each room the area of its rectangles.
pub open spec fn header_as_read(header: LotheaderView) -> LotheaderView {
    LotheaderView {
        rooms: rooms_as_read(header.rooms),
        buildings: buildings_as_read(header.buildings),
        ..header
    }
}

/// The headers that their bytes state in full: the magic takes four bytes,
/// every name can stand on a line, every collection has a length that can
/// be stated, and the spawn grid has 1024 bytes.
pub open spec fn is_representable(header: LotheaderView, trim_cr: bool) -> bool {
    &&& encode_utf8(header.magic).len() == 4
    &&& header.tile_names.len() <= max_count()
    &&& are_line_texts(header.tile_names, trim_cr)
    &&& rooms_are_representable(header.rooms, trim_cr)
    &&& buildings_counts_fit(header.buildings)
    &&& header.spawns.len() == 1024
}

} // verus!
