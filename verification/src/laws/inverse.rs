//! A buffer that holds a header is made of the bytes of that header.
//!
//! Each lemma says of one part of the layout that where a value was read,
//! the input was the bytes of that value, then what was left. The last ones
//! say it of whole buffers: encoding undoes decoding. All of them hold where
//! no carriage return is trimmed; where one is, two buffers can state one
//! header.

use crate::error::DecodeError;
use crate::format::{
    are_line_texts, building_bytes, building_list_bytes, buildings_as_read, buildings_bytes,
    buildings_counts_fit, count_bytes, counts_fit, decode, encode, extent_bytes, header_as_read,
    is_representable, lines_bytes, max_count, parse_building, parse_buildings, parse_buildings_n,
    parse_extent, parse_header, parse_lines, parse_rectangles, parse_room, parse_room_objects,
    parse_rooms, parse_rooms_n, parse_spawns, parse_tile_names, rectangle_at, rectangle_bytes,
    rectangle_records, rectangles_in, room_as_read, room_bytes, room_id_records, room_ids_in,
    room_is_representable, room_list_bytes, room_object_at, room_object_bytes,
    room_object_records, room_objects_in, rooms_are_representable, rooms_as_read, rooms_bytes,
    tile_names_bytes, Extent,
};
use crate::laws::{lemma_regroup, lemma_regroup_room};
use crate::lotheader::{BuildingView, LotheaderView, Rectangle, RoomObject, RoomView};
use crate::wire::{
    i32_to_le, is_line_text, lemma_count_parsed_was_written, lemma_i32_le_bytes_round_trip,
    lemma_i32_parsed_was_written, lemma_line_parsed_was_written, lemma_text_parsed_was_written,
    line_bytes, parse_count, parse_i32, parse_line, parse_text,
};
use vstd::prelude::*;
use vstd::utf8::encode_utf8;
use vstd::wrapping::i32_specs;

verus! {

/// The record of a rectangle that is read from a block is the bytes that it
/// is read from.
proof fn lemma_rectangle_was_written(block: Seq<u8>, i: int)
    requires
        0 <= i,
        16 * i + 16 <= block.len(),
    ensures
        rectangle_bytes(rectangle_at(block, i)) == block.subrange(16 * i, 16 * i + 16),
{
    let at = 16 * i;
    lemma_i32_le_bytes_round_trip(block, at);
    lemma_i32_le_bytes_round_trip(block, at + 4);
    lemma_i32_le_bytes_round_trip(block, at + 8);
    lemma_i32_le_bytes_round_trip(block, at + 12);
    assert(block.subrange(at, at + 4) + block.subrange(at + 4, at + 8) + block.subrange(
        at + 8,
        at + 12,
    ) + block.subrange(at + 12, at + 16) =~= block.subrange(at, at + 16));
}

/// The records of the rectangles that are read from a block are the bytes
/// that they are read from.
pub proof fn lemma_rectangles_were_written(block: Seq<u8>, count: nat)
    requires
        16 * count <= block.len(),
    ensures
        rectangle_records(rectangles_in(block, count)) == block.take(16 * count as int),
    decreases count,
{
    let read = rectangles_in(block, count);
    if count > 0 {
        let fewer = (count - 1) as nat;
        lemma_rectangles_were_written(block, fewer);
        lemma_rectangle_was_written(block, fewer as int);
        assert(read.drop_last() =~= rectangles_in(block, fewer));
        assert(block.take(16 * count as int) =~= block.take(16 * fewer as int) + block.subrange(
            16 * fewer as int,
            16 * fewer as int + 16,
        ));
    } else {
        assert(block.take(0) =~= Seq::<u8>::empty());
    }
}

/// Where the rectangles of a room were read, the input is their bytes, then
/// what was left.
pub proof fn lemma_rectangles_parsed_were_written(
    s: Seq<u8>,
    rectangles: Seq<Rectangle>,
    rest: Seq<u8>,
)
    requires
        parse_rectangles(s) == Ok::<_, DecodeError>((rectangles, rest)),
    ensures
        rectangles.len() <= max_count(),
        s == count_bytes(rectangles.len()) + rectangle_records(rectangles) + rest,
{
    let (count, block) = parse_count(s, 16)->Ok_0;
    lemma_count_parsed_was_written(s, 16, count, block);
    lemma_rectangles_were_written(block, count);
    assert(block =~= block.take(16 * count as int) + block.skip(16 * count as int));
    assert(s =~= count_bytes(count) + rectangle_records(rectangles) + rest);
}

/// The record of a room object that is read from a block is the bytes that
/// it is read from.
proof fn lemma_room_object_was_written(block: Seq<u8>, i: int)
    requires
        0 <= i,
        12 * i + 12 <= block.len(),
    ensures
        room_object_bytes(room_object_at(block, i)) == block.subrange(12 * i, 12 * i + 12),
{
    let at = 12 * i;
    lemma_i32_le_bytes_round_trip(block, at);
    lemma_i32_le_bytes_round_trip(block, at + 4);
    lemma_i32_le_bytes_round_trip(block, at + 8);
    assert(block.subrange(at, at + 4) + block.subrange(at + 4, at + 8) + block.subrange(
        at + 8,
        at + 12,
    ) =~= block.subrange(at, at + 12));
}

/// The records of the room objects that are read from a block are the bytes
/// that they are read from.
pub proof fn lemma_room_objects_were_written(block: Seq<u8>, count: nat)
    requires
        12 * count <= block.len(),
    ensures
        room_object_records(room_objects_in(block, count)) == block.take(12 * count as int),
    decreases count,
{
    let read = room_objects_in(block, count);
    if count > 0 {
        let fewer = (count - 1) as nat;
        lemma_room_objects_were_written(block, fewer);
        lemma_room_object_was_written(block, fewer as int);
        assert(read.drop_last() =~= room_objects_in(block, fewer));
        assert(block.take(12 * count as int) =~= block.take(12 * fewer as int) + block.subrange(
            12 * fewer as int,
            12 * fewer as int + 12,
        ));
    } else {
        assert(block.take(0) =~= Seq::<u8>::empty());
    }
}

/// Where the objects of a room were read, the input is their bytes, then
/// what was left.
pub proof fn lemma_room_objects_parsed_were_written(
    s: Seq<u8>,
    objects: Seq<RoomObject>,
    rest: Seq<u8>,
)
    requires
        parse_room_objects(s) == Ok::<_, DecodeError>((objects, rest)),
    ensures
        objects.len() <= max_count(),
        s == count_bytes(objects.len()) + room_object_records(objects) + rest,
{
    let (count, block) = parse_count(s, 12)->Ok_0;
    lemma_count_parsed_was_written(s, 12, count, block);
    lemma_room_objects_were_written(block, count);
    assert(block =~= block.take(12 * count as int) + block.skip(12 * count as int));
    assert(s =~= count_bytes(count) + room_object_records(objects) + rest);
}

/// The records of the room references that are read from a block are the
/// bytes that they are read from.
pub proof fn lemma_room_ids_were_written(block: Seq<u8>, count: nat)
    requires
        4 * count <= block.len(),
    ensures
        room_id_records(room_ids_in(block, count)) == block.take(4 * count as int),
    decreases count,
{
    let read = room_ids_in(block, count);
    if count > 0 {
        let fewer = (count - 1) as nat;
        lemma_room_ids_were_written(block, fewer);
        lemma_i32_le_bytes_round_trip(block, 4 * fewer as int);
        assert(read.drop_last() =~= room_ids_in(block, fewer));
        assert(block.take(4 * count as int) =~= block.take(4 * fewer as int) + block.subrange(
            4 * fewer as int,
            4 * fewer as int + 4,
        ));
    } else {
        assert(block.take(0) =~= Seq::<u8>::empty());
    }
}

/// Where a building was read, the input is its bytes, then what was left,
/// and the building has the place it was read at as its id.
pub proof fn lemma_building_parsed_was_written(
    s: Seq<u8>,
    id: i32,
    building: BuildingView,
    rest: Seq<u8>,
)
    requires
        parse_building(s, id) == Ok::<_, DecodeError>((building, rest)),
    ensures
        building.id == id,
        building.room_ids.len() <= max_count(),
        s == building_bytes(building) + rest,
{
    let (count, block) = parse_count(s, 4)->Ok_0;
    lemma_count_parsed_was_written(s, 4, count, block);
    lemma_room_ids_were_written(block, count);
    assert(block =~= block.take(4 * count as int) + block.skip(4 * count as int));
    assert(s =~= building_bytes(building) + rest);
}

/// Where lines were read, the input is their bytes, then what was left, and
/// each text can stand on a line.
pub proof fn lemma_lines_parsed_were_written(
    s: Seq<u8>,
    count: nat,
    texts: Seq<Seq<char>>,
    rest: Seq<u8>,
)
    requires
        parse_lines(s, count, false) == Ok::<_, DecodeError>((texts, rest)),
    ensures
        texts.len() == count,
        are_line_texts(texts, false),
        s == lines_bytes(texts) + rest,
    decreases count,
{
    if count > 0 {
        let fewer = (count - 1) as nat;
        let (init, middle) = parse_lines(s, fewer, false)->Ok_0;
        let (last, after) = parse_line(middle, false)->Ok_0;
        lemma_lines_parsed_were_written(s, fewer, init, middle);
        lemma_line_parsed_was_written(middle, last, rest);
        assert(texts.drop_last() =~= init);
        assert(texts.last() == last);
        assert forall|i: int| 0 <= i < texts.len() implies is_line_text(
            #[trigger] texts[i],
            false,
        ) by {
            if i < init.len() {
                assert(texts[i] == init[i]);
            }
        }
        assert(s =~= lines_bytes(texts) + rest);
    } else {
        assert(s =~= lines_bytes(texts) + rest);
    }
}

/// Where the tile names were read, the input is their bytes, then what was
/// left.
pub proof fn lemma_tile_names_parsed_were_written(
    s: Seq<u8>,
    texts: Seq<Seq<char>>,
    rest: Seq<u8>,
)
    requires
        parse_tile_names(s, false) == Ok::<_, DecodeError>((texts, rest)),
    ensures
        texts.len() <= max_count(),
        are_line_texts(texts, false),
        s == tile_names_bytes(texts) + rest,
{
    let (count, lines) = parse_count(s, 1)->Ok_0;
    lemma_count_parsed_was_written(s, 1, count, lines);
    lemma_lines_parsed_were_written(lines, count, texts, rest);
    assert(s =~= tile_names_bytes(texts) + rest);
}

/// Where a room was read, the input is its bytes, then what was left; the
/// room has the place it was read at as its id and the area of its
/// rectangles.
pub proof fn lemma_room_parsed_was_written(s: Seq<u8>, id: i32, room: RoomView, rest: Seq<u8>)
    requires
        parse_room(s, id, false) == Ok::<_, DecodeError>((room, rest)),
    ensures
        room_is_representable(room, false),
        room_as_read(room, id) == room,
        s == room_bytes(room) + rest,
{
    reveal(parse_room);
    let (name, after_name) = parse_line(s, false)->Ok_0;
    let (layer, after_layer) = parse_i32(after_name)->Ok_0;
    let (rectangles, after_rectangles) = parse_rectangles(after_layer)->Ok_0;
    let (objects, after) = parse_room_objects(after_rectangles)->Ok_0;
    lemma_line_parsed_was_written(s, name, after_name);
    lemma_i32_parsed_was_written(after_name, layer, after_layer);
    lemma_rectangles_parsed_were_written(after_layer, rectangles, after_rectangles);
    lemma_room_objects_parsed_were_written(after_rectangles, objects, rest);
    lemma_regroup_room(
        line_bytes(name),
        i32_to_le(layer),
        count_bytes(rectangles.len()),
        rectangle_records(rectangles),
        count_bytes(objects.len()),
        room_object_records(objects),
        rest,
    );
}

/// Where rooms were read, the input is their bytes, then what was left;
/// each room has its place as its id and the area of its rectangles.
#[verifier::rlimit(40)]
pub proof fn lemma_room_list_parsed_was_written(
    s: Seq<u8>,
    count: nat,
    rooms: Seq<RoomView>,
    rest: Seq<u8>,
)
    requires
        count <= max_count(),
        parse_rooms_n(s, count, false) == Ok::<_, DecodeError>((rooms, rest)),
    ensures
        rooms.len() == count,
        rooms_are_representable(rooms, false),
        rooms_as_read(rooms) == rooms,
        s == room_list_bytes(rooms) + rest,
    decreases count,
{
    if count > 0 {
        let fewer = (count - 1) as nat;
        let (init, middle) = parse_rooms_n(s, fewer, false)->Ok_0;
        let (last, after) = parse_room(middle, fewer as i32, false)->Ok_0;
        lemma_room_list_parsed_was_written(s, fewer, init, middle);
        lemma_room_parsed_was_written(middle, fewer as i32, last, rest);
        assert(rooms.drop_last() =~= init);
        assert(rooms.last() == last);
        assert forall|i: int| 0 <= i < rooms.len() implies room_is_representable(
            #[trigger] rooms[i],
            false,
        ) && rooms_as_read(rooms)[i] == rooms[i] by {
            if i < init.len() {
                assert(rooms[i] == init[i]);
                assert(rooms_as_read(init)[i] == init[i]);
            }
        }
        assert(rooms_as_read(rooms) =~= rooms);
        assert(s =~= room_list_bytes(rooms) + rest);
    } else {
        assert(rooms_as_read(rooms) =~= rooms);
        assert(s =~= room_list_bytes(rooms) + rest);
    }
}

/// Where the rooms of a header were read, the input is their bytes, then
/// what was left.
pub proof fn lemma_rooms_parsed_were_written(s: Seq<u8>, rooms: Seq<RoomView>, rest: Seq<u8>)
    requires
        parse_rooms(s, false) == Ok::<_, DecodeError>((rooms, rest)),
    ensures
        rooms_are_representable(rooms, false),
        rooms_as_read(rooms) == rooms,
        s == rooms_bytes(rooms) + rest,
{
    let (count, list) = parse_count(s, 13)->Ok_0;
    lemma_count_parsed_was_written(s, 13, count, list);
    lemma_room_list_parsed_was_written(list, count, rooms, rest);
    assert(s =~= rooms_bytes(rooms) + rest);
}

/// Where buildings were read, the input is their bytes, then what was left;
/// each building has its place as its id.
#[verifier::rlimit(40)]
pub proof fn lemma_building_list_parsed_was_written(
    s: Seq<u8>,
    count: nat,
    buildings: Seq<BuildingView>,
    rest: Seq<u8>,
)
    requires
        count <= max_count(),
        parse_buildings_n(s, count) == Ok::<_, DecodeError>((buildings, rest)),
    ensures
        buildings.len() == count,
        buildings_counts_fit(buildings),
        buildings_as_read(buildings) == buildings,
        s == building_list_bytes(buildings) + rest,
    decreases count,
{
    if count > 0 {
        let fewer = (count - 1) as nat;
        let (init, middle) = parse_buildings_n(s, fewer)->Ok_0;
        let (last, after) = parse_building(middle, fewer as i32)->Ok_0;
        lemma_building_list_parsed_was_written(s, fewer, init, middle);
        lemma_building_parsed_was_written(middle, fewer as i32, last, rest);
        assert(buildings.drop_last() =~= init);
        assert(buildings.last() == last);
        assert forall|i: int| 0 <= i < buildings.len() implies (#[trigger] buildings[i]).room_ids.len()
            <= max_count() && buildings_as_read(buildings)[i] == buildings[i] by {
            if i < init.len() {
                assert(buildings[i] == init[i]);
                assert(buildings_as_read(init)[i] == init[i]);
            }
        }
        assert(buildings_as_read(buildings) =~= buildings);
        assert(s =~= building_list_bytes(buildings) + rest);
    } else {
        assert(buildings_as_read(buildings) =~= buildings);
        assert(s =~= building_list_bytes(buildings) + rest);
    }
}

/// Where the buildings of a header were read, the input is their bytes,
/// then what was left.
pub proof fn lemma_buildings_parsed_were_written(
    s: Seq<u8>,
    buildings: Seq<BuildingView>,
    rest: Seq<u8>,
)
    requires
        parse_buildings(s) == Ok::<_, DecodeError>((buildings, rest)),
    ensures
        buildings_counts_fit(buildings),
        buildings_as_read(buildings) == buildings,
        s == buildings_bytes(buildings) + rest,
{
    let (count, list) = parse_count(s, 4)->Ok_0;
    lemma_count_parsed_was_written(s, 4, count, list);
    lemma_building_list_parsed_was_written(list, count, buildings, rest);
    assert(s =~= buildings_bytes(buildings) + rest);
}

/// Where width, height and the two layers were read, the input is their
/// bytes, then what was left: taking one off the highest layer gives the
/// number that was read.
pub proof fn lemma_extent_parsed_was_written(
    s: Seq<u8>,
    header: LotheaderView,
    extent: Extent,
    rest: Seq<u8>,
)
    requires
        parse_extent(s) == Ok::<_, DecodeError>((extent, rest)),
        header.width == extent.width,
        header.height == extent.height,
        header.min_layer == extent.min_layer,
        header.max_layer == extent.max_layer,
    ensures
        s == extent_bytes(header) + rest,
{
    let (width, after_width) = parse_i32(s)->Ok_0;
    let (height, after_height) = parse_i32(after_width)->Ok_0;
    let (min_layer, after_min) = parse_i32(after_height)->Ok_0;
    let (stated_max, after) = parse_i32(after_min)->Ok_0;
    lemma_i32_parsed_was_written(s, width, after_width);
    lemma_i32_parsed_was_written(after_width, height, after_height);
    lemma_i32_parsed_was_written(after_height, min_layer, after_min);
    lemma_i32_parsed_was_written(after_min, stated_max, rest);
    assert(i32_specs::wrapping_sub(i32_specs::wrapping_add(stated_max, 1), 1) == stated_max);
    assert(s =~= extent_bytes(header) + rest);
}

/// Where the fields of a header were read, the input is the bytes of that
/// header, then what was left, and the header is one that its bytes state in
/// full, with the ids and areas that reading gives.
#[verifier::rlimit(40)]
pub proof fn lemma_header_parsed_was_written(s: Seq<u8>, header: LotheaderView, rest: Seq<u8>)
    requires
        parse_header(s, false) == Ok::<_, DecodeError>((header, rest)),
    ensures
        is_representable(header, false),
        header_as_read(header) == header,
        s == encode(header) + rest,
{
    let (magic, after_magic) = parse_text(s, 4)->Ok_0;
    let (version, after_version) = parse_i32(after_magic)->Ok_0;
    let (tile_names, after_tiles) = parse_tile_names(after_version, false)->Ok_0;
    let (extent, after_extent) = parse_extent(after_tiles)->Ok_0;
    let (rooms, after_rooms) = parse_rooms(after_extent, false)->Ok_0;
    let (buildings, after_buildings) = parse_buildings(after_rooms)->Ok_0;
    let (spawns, after) = parse_spawns(after_buildings)->Ok_0;
    lemma_text_parsed_was_written(s, 4, magic, after_magic);
    lemma_i32_parsed_was_written(after_magic, version, after_version);
    lemma_tile_names_parsed_were_written(after_version, tile_names, after_tiles);
    lemma_extent_parsed_was_written(after_tiles, header, extent, after_extent);
    lemma_rooms_parsed_were_written(after_extent, rooms, after_rooms);
    lemma_buildings_parsed_were_written(after_rooms, buildings, after_buildings);
    assert(after_buildings =~= spawns + rest);
    lemma_regroup(
        encode_utf8(header.magic),
        i32_to_le(header.version),
        tile_names_bytes(header.tile_names),
        extent_bytes(header),
        rooms_bytes(header.rooms),
        buildings_bytes(header.buildings),
        header.spawns,
        rest,
    );
}

/// A buffer that holds a header is the encoding of that header, byte for
/// byte, where no carriage return is trimmed. The header is one that its
/// bytes state in full, and it has the ids and areas that reading gives.
pub proof fn lemma_encode_of_decode(bytes: Seq<u8>, header: LotheaderView)
    requires
        decode(bytes, false) == Ok::<_, DecodeError>(header),
    ensures
        is_representable(header, false),
        header_as_read(header) == header,
        counts_fit(header),
        encode(header) == bytes,
{
    let rest = parse_header(bytes, false)->Ok_0.1;
    lemma_header_parsed_was_written(bytes, header, rest);
    assert(encode(header) + rest =~= encode(header));
}

/// Two buffers that hold the same header are the same buffer, where no
/// carriage return is trimmed.
pub proof fn lemma_decode_is_injective(a: Seq<u8>, b: Seq<u8>)
    requires
        decode(a, false) is Ok,
        decode(a, false) == decode(b, false),
    ensures
        a == b,
{
    let header = decode(a, false)->Ok_0;
    lemma_encode_of_decode(a, header);
    lemma_encode_of_decode(b, header);
}

} // verus!
