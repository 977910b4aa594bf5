//! A header is read back from its own bytes.
//!
//! Each lemma says of one part of the layout that reading the bytes of a
//! value gives that value and leaves what followed the bytes. The last one
//! says it of whole headers: decoding undoes encoding, but for the ids and
//! areas, which reading sets.

use crate::error::DecodeError;
use crate::format::{
    are_line_texts, building_bytes, building_list_bytes, buildings_as_read, buildings_bytes,
    buildings_counts_fit, count_bytes, counts_fit, decode, encode, extent_bytes, header_as_read,
    is_representable, lines_bytes, max_count, parse_building, parse_buildings, parse_buildings_n,
    parse_extent, parse_header, parse_lines, parse_rectangles, parse_room, parse_room_objects,
    parse_rooms, parse_rooms_n, parse_spawns, parse_tile_names, rectangle_at, rectangle_bytes,
    rectangle_records, rectangles_in, room_as_read, room_bytes, room_id_records, room_ids_in,
    room_is_representable, room_list_bytes, room_object_at, room_object_bytes,
    room_object_records, room_objects_in, rooms_are_representable, rooms_as_read, rooms_bytes,
    tile_names_bytes, Extent,
};
use crate::laws::{lemma_regroup, lemma_regroup_room};
use crate::lotheader::{BuildingView, LotheaderView, Rectangle, RoomObject, RoomView};
use crate::wire::{
    i32_at, i32_to_le, lemma_i32_le_len, lemma_i32_le_round_trip, lemma_line_round_trip,
    lemma_text_round_trip, line_bytes, parse_count, parse_i32, parse_line, parse_text,
};
use vstd::prelude::*;
use vstd::utf8::encode_utf8;
use vstd::wrapping::i32_specs;

verus! {

/// Where the four bytes of `v` stand at `at` in `s`, `v` is read there.
proof fn lemma_i32_at(s: Seq<u8>, at: int, v: i32)
    requires
        0 <= at,
        at + 4 <= s.len(),
        s.subrange(at, at + 4) == i32_to_le(v),
    ensures
        i32_at(s, at) == v,
{
    let b = s.subrange(at, at + 4);
    assert(b[0] == s[at] && b[1] == s[at + 1] && b[2] == s[at + 2] && b[3] == s[at + 3]);
    lemma_i32_le_round_trip(v, Seq::empty());
    let t = i32_to_le(v) + Seq::<u8>::empty();
    assert(t[0] == b[0] && t[1] == b[1] && t[2] == b[2] && t[3] == b[3]);
}

/// A count is read back from its own bytes, if it can be stated and that
/// many items could follow.
pub proof fn lemma_count_round_trip(count: nat, unit: nat, rest: Seq<u8>)
    requires
        count <= max_count(),
        count * unit <= rest.len(),
    ensures
        parse_count(count_bytes(count) + rest, unit) == Ok::<_, DecodeError>((count, rest)),
{
    lemma_i32_le_round_trip(count as i32, rest);
}

/// A rectangle is read back from its record, wherever the record stands
/// in a block.
proof fn lemma_rectangle_at(before: Seq<u8>, r: Rectangle, after: Seq<u8>, i: int)
    requires
        0 <= i,
        before.len() == 16 * i,
    ensures
        rectangle_bytes(r).len() == 16,
        rectangle_at(before + rectangle_bytes(r) + after, i) == r,
{
    lemma_i32_le_len(r.x);
    lemma_i32_le_len(r.y);
    lemma_i32_le_len(r.width);
    lemma_i32_le_len(r.heigth);
    let block = before + rectangle_bytes(r) + after;
    let at = 16 * i;
    assert(block.subrange(at, at + 4) =~= i32_to_le(r.x));
    assert(block.subrange(at + 4, at + 8) =~= i32_to_le(r.y));
    assert(block.subrange(at + 8, at + 12) =~= i32_to_le(r.width));
    assert(block.subrange(at + 12, at + 16) =~= i32_to_le(r.heigth));
    lemma_i32_at(block, at, r.x);
    lemma_i32_at(block, at + 4, r.y);
    lemma_i32_at(block, at + 8, r.width);
    lemma_i32_at(block, at + 12, r.heigth);
}

/// Every record of a block of rectangles is read where it was written.
pub proof fn lemma_rectangle_records(rectangles: Seq<Rectangle>, rest: Seq<u8>)
    ensures
        rectangle_records(rectangles).len() == 16 * rectangles.len(),
        rectangles_in(rectangle_records(rectangles) + rest, rectangles.len()) == rectangles,
    decreases rectangles.len(),
{
    let block = rectangle_records(rectangles) + rest;
    if rectangles.len() > 0 {
        let init = rectangles.drop_last();
        let last = rectangles.last();
        let tail = rectangle_bytes(last) + rest;
        lemma_rectangle_records(init, tail);
        lemma_rectangle_at(rectangle_records(init), last, rest, init.len() as int);
        assert(block =~= rectangle_records(init) + tail);
        assert(block =~= rectangle_records(init) + rectangle_bytes(last) + rest);
        assert forall|i: int| 0 <= i < rectangles.len() implies rectangle_at(block, i)
            == rectangles[i] by {
            if i < init.len() {
                assert(rectangles_in(block, init.len())[i] == init[i]);
            }
        }
    }
    assert(rectangles_in(block, rectangles.len()) =~= rectangles);
}

/// The rectangles of a room are read back from their own bytes, whatever
/// follows them.
pub proof fn lemma_rectangles_round_trip(rectangles: Seq<Rectangle>, rest: Seq<u8>)
    requires
        rectangles.len() <= max_count(),
    ensures
        parse_rectangles(
            count_bytes(rectangles.len()) + rectangle_records(rectangles) + rest,
        ) == Ok::<_, DecodeError>((rectangles, rest)),
{
    let block = rectangle_records(rectangles) + rest;
    lemma_rectangle_records(rectangles, rest);
    lemma_count_round_trip(rectangles.len(), 16, block);
    assert(count_bytes(rectangles.len()) + rectangle_records(rectangles) + rest =~= count_bytes(
        rectangles.len(),
    ) + block);
    assert(block.skip(16 * rectangles.len() as int) =~= rest);
}

/// A room object is read back from its record, wherever the record stands
/// in a block.
proof fn lemma_room_object_at(before: Seq<u8>, o: RoomObject, after: Seq<u8>, i: int)
    requires
        0 <= i,
        before.len() == 12 * i,
    ensures
        room_object_bytes(o).len() == 12,
        room_object_at(before + room_object_bytes(o) + after, i) == o,
{
    lemma_i32_le_len(o.room_type);
    lemma_i32_le_len(o.x);
    lemma_i32_le_len(o.y);
    let block = before + room_object_bytes(o) + after;
    let at = 12 * i;
    assert(block.subrange(at, at + 4) =~= i32_to_le(o.room_type));
    assert(block.subrange(at + 4, at + 8) =~= i32_to_le(o.x));
    assert(block.subrange(at + 8, at + 12) =~= i32_to_le(o.y));
    lemma_i32_at(block, at, o.room_type);
    lemma_i32_at(block, at + 4, o.x);
    lemma_i32_at(block, at + 8, o.y);
}

/// Every record of a block of room objects is read where it was written.
pub proof fn lemma_room_object_records(objects: Seq<RoomObject>, rest: Seq<u8>)
    ensures
        room_object_records(objects).len() == 12 * objects.len(),
        room_objects_in(room_object_records(objects) + rest, objects.len()) == objects,
    decreases objects.len(),
{
    let block = room_object_records(objects) + rest;
    if objects.len() > 0 {
        let init = objects.drop_last();
        let last = objects.last();
        let tail = room_object_bytes(last) + rest;
        lemma_room_object_records(init, tail);
        lemma_room_object_at(room_object_records(init), last, rest, init.len() as int);
        assert(block =~= room_object_records(init) + tail);
        assert(block =~= room_object_records(init) + room_object_bytes(last) + rest);
        assert forall|i: int| 0 <= i < objects.len() implies room_object_at(block, i)
            == objects[i] by {
            if i < init.len() {
                assert(room_objects_in(block, init.len())[i] == init[i]);
            }
        }
    }
    assert(room_objects_in(block, objects.len()) =~= objects);
}

/// The objects of a room are read back from their own bytes, whatever
/// follows them.
pub proof fn lemma_room_objects_round_trip(objects: Seq<RoomObject>, rest: Seq<u8>)
    requires
        objects.len() <= max_count(),
    ensures
        parse_room_objects(count_bytes(objects.len()) + room_object_records(objects) + rest)
            == Ok::<_, DecodeError>((objects, rest)),
{
    let block = room_object_records(objects) + rest;
    lemma_room_object_records(objects, rest);
    lemma_count_round_trip(objects.len(), 12, block);
    assert(count_bytes(objects.len()) + room_object_records(objects) + rest =~= count_bytes(
        objects.len(),
    ) + block);
    assert(block.skip(12 * objects.len() as int) =~= rest);
}

/// Every record of a block of room references is read where it was written.
pub proof fn lemma_room_id_records(room_ids: Seq<i32>, rest: Seq<u8>)
    ensures
        room_id_records(room_ids).len() == 4 * room_ids.len(),
        room_ids_in(room_id_records(room_ids) + rest, room_ids.len()) == room_ids,
    decreases room_ids.len(),
{
    let block = room_id_records(room_ids) + rest;
    if room_ids.len() > 0 {
        let init = room_ids.drop_last();
        let last = room_ids.last();
        let tail = i32_to_le(last) + rest;
        lemma_room_id_records(init, tail);
        lemma_i32_le_len(last);
        assert(block =~= room_id_records(init) + tail);
        let at = 4 * init.len() as int;
        assert(block.subrange(at, at + 4) =~= i32_to_le(last));
        lemma_i32_at(block, at, last);
        assert forall|i: int| 0 <= i < room_ids.len() implies i32_at(block, 4 * i)
            == room_ids[i] by {
            if i < init.len() {
                assert(room_ids_in(block, init.len())[i] == init[i]);
            }
        }
    }
    assert(room_ids_in(block, room_ids.len()) =~= room_ids);
}

/// A building is read back from its own bytes, whatever follows them, at
/// the place it is read at.
pub proof fn lemma_building_round_trip(building: BuildingView, id: i32, rest: Seq<u8>)
    requires
        building.room_ids.len() <= max_count(),
    ensures
        building_bytes(building).len() >= 4,
        parse_building(building_bytes(building) + rest, id) == Ok::<_, DecodeError>(
            (BuildingView { id, room_ids: building.room_ids }, rest),
        ),
{
    let ids = building.room_ids;
    let block = room_id_records(ids) + rest;
    lemma_room_id_records(ids, rest);
    lemma_count_round_trip(ids.len(), 4, block);
    lemma_i32_le_len(ids.len() as i32);
    assert(building_bytes(building) + rest =~= count_bytes(ids.len()) + block);
    assert(block.skip(4 * ids.len() as int) =~= rest);
}

/// Lines are read back from their own bytes, whatever follows them.
pub proof fn lemma_lines_round_trip(texts: Seq<Seq<char>>, trim_cr: bool, rest: Seq<u8>)
    requires
        are_line_texts(texts, trim_cr),
    ensures
        lines_bytes(texts).len() >= texts.len(),
        parse_lines(lines_bytes(texts) + rest, texts.len(), trim_cr) == Ok::<_, DecodeError>(
            (texts, rest),
        ),
    decreases texts.len(),
{
    if texts.len() > 0 {
        let init = texts.drop_last();
        let last = texts.last();
        let tail = line_bytes(last) + rest;
        lemma_lines_round_trip(init, trim_cr, tail);
        lemma_line_round_trip(last, trim_cr, rest);
        assert(lines_bytes(texts) + rest =~= lines_bytes(init) + tail);
        assert(init.push(last) =~= texts);
    } else {
        assert(lines_bytes(texts) + rest =~= rest);
        assert(texts =~= Seq::empty());
    }
}

/// The tile names are read back from their own bytes, whatever follows
/// them.
pub proof fn lemma_tile_names_round_trip(texts: Seq<Seq<char>>, trim_cr: bool, rest: Seq<u8>)
    requires
        texts.len() <= max_count(),
        are_line_texts(texts, trim_cr),
    ensures
        parse_tile_names(tile_names_bytes(texts) + rest, trim_cr) == Ok::<_, DecodeError>(
            (texts, rest),
        ),
{
    let lines = lines_bytes(texts) + rest;
    lemma_lines_round_trip(texts, trim_cr, rest);
    lemma_count_round_trip(texts.len(), 1, lines);
    assert(tile_names_bytes(texts) + rest =~= count_bytes(texts.len()) + lines);
}

/// A room is read back from its own bytes, whatever follows them, but for
/// its id and its area.
pub proof fn lemma_room_round_trip(room: RoomView, id: i32, trim_cr: bool, rest: Seq<u8>)
    requires
        room_is_representable(room, trim_cr),
    ensures
        room_bytes(room).len() >= 13,
        parse_room(room_bytes(room) + rest, id, trim_cr) == Ok::<_, DecodeError>(
            (room_as_read(room, id), rest),
        ),
{
    let objects = count_bytes(room.room_objects.len()) + room_object_records(room.room_objects)
        + rest;
    let rectangles = count_bytes(room.rectangles.len()) + rectangle_records(room.rectangles)
        + objects;
    let layer = i32_to_le(room.layer) + rectangles;
    reveal(parse_room);
    let whole = room_bytes(room) + rest;
    assert(whole == line_bytes(room.name) + layer) by {
        lemma_regroup_room(
            line_bytes(room.name),
            i32_to_le(room.layer),
            count_bytes(room.rectangles.len()),
            rectangle_records(room.rectangles),
            count_bytes(room.room_objects.len()),
            room_object_records(room.room_objects),
            rest,
        );
    }
    assert(parse_line(whole, trim_cr) == Ok::<_, DecodeError>((room.name, layer))) by {
        lemma_line_round_trip(room.name, trim_cr, layer);
    }
    assert(parse_i32(layer) == Ok::<_, DecodeError>((room.layer, rectangles))) by {
        lemma_i32_le_round_trip(room.layer, rectangles);
    }
    assert(parse_rectangles(rectangles) == Ok::<_, DecodeError>((room.rectangles, objects))) by {
        lemma_rectangles_round_trip(room.rectangles, objects);
    }
    assert(parse_room_objects(objects) == Ok::<_, DecodeError>((room.room_objects, rest))) by {
        lemma_room_objects_round_trip(room.room_objects, rest);
    }
    assert(room_bytes(room).len() >= 13) by {
        lemma_i32_le_len(room.layer);
        lemma_i32_le_len(room.rectangles.len() as i32);
        lemma_i32_le_len(room.room_objects.len() as i32);
    }
}

/// Rooms are read back from their own bytes, whatever follows them, but
/// for their ids and areas.
#[verifier::rlimit(40)]
pub proof fn lemma_room_list_round_trip(rooms: Seq<RoomView>, trim_cr: bool, rest: Seq<u8>)
    requires
        rooms_are_representable(rooms, trim_cr),
    ensures
        room_list_bytes(rooms).len() >= 13 * rooms.len(),
        parse_rooms_n(room_list_bytes(rooms) + rest, rooms.len(), trim_cr) == Ok::<
            _,
            DecodeError,
        >((rooms_as_read(rooms), rest)),
    decreases rooms.len(),
{
    if rooms.len() > 0 {
        let init = rooms.drop_last();
        let last = rooms.last();
        let tail = room_bytes(last) + rest;
        let id = (rooms.len() - 1) as i32;
        let whole = room_list_bytes(rooms) + rest;
        assert(whole =~= room_list_bytes(init) + tail);
        assert(rooms_are_representable(init, trim_cr)) by {
            assert forall|i: int| 0 <= i < init.len() implies room_is_representable(
                #[trigger] init[i],
                trim_cr,
            ) by {
                assert(init[i] == rooms[i]);
            }
        }
        lemma_room_list_round_trip(init, trim_cr, tail);
        lemma_room_round_trip(last, id, trim_cr, rest);
        assert(rooms_as_read(init).push(room_as_read(last, id)) =~= rooms_as_read(rooms));
    } else {
        assert(room_list_bytes(rooms) + rest =~= rest);
        assert(rooms_as_read(rooms) =~= Seq::empty());
    }
}

/// The rooms of a header are read back from their own bytes, whatever
/// follows them, but for their ids and areas.
pub proof fn lemma_rooms_round_trip(rooms: Seq<RoomView>, trim_cr: bool, rest: Seq<u8>)
    requires
        rooms_are_representable(rooms, trim_cr),
    ensures
        parse_rooms(rooms_bytes(rooms) + rest, trim_cr) == Ok::<_, DecodeError>(
            (rooms_as_read(rooms), rest),
        ),
{
    let list = room_list_bytes(rooms) + rest;
    lemma_room_list_round_trip(rooms, trim_cr, rest);
    lemma_count_round_trip(rooms.len(), 13, list);
    assert(rooms_bytes(rooms) + rest =~= count_bytes(rooms.len()) + list);
}

/// Buildings are read back from their own bytes, whatever follows them, but
/// for their ids.
pub proof fn lemma_building_list_round_trip(buildings: Seq<BuildingView>, rest: Seq<u8>)
    requires
        buildings_counts_fit(buildings),
    ensures
        building_list_bytes(buildings).len() >= 4 * buildings.len(),
        parse_buildings_n(building_list_bytes(buildings) + rest, buildings.len()) == Ok::<
            _,
            DecodeError,
        >((buildings_as_read(buildings), rest)),
    decreases buildings.len(),
{
    if buildings.len() > 0 {
        let init = buildings.drop_last();
        let last = buildings.last();
        let tail = building_bytes(last) + rest;
        let id = (buildings.len() - 1) as i32;
        assert forall|i: int| 0 <= i < init.len() implies (#[trigger] init[i]).room_ids.len()
            <= max_count() by {
            assert(init[i] == buildings[i]);
        }
        lemma_building_list_round_trip(init, tail);
        lemma_building_round_trip(last, id, rest);
        assert(building_list_bytes(buildings) + rest =~= building_list_bytes(init) + tail);
        assert(buildings_as_read(init).push(BuildingView { id, room_ids: last.room_ids })
            =~= buildings_as_read(buildings));
    } else {
        assert(buildings_as_read(buildings) =~= Seq::empty());
    }
}

/// The buildings of a header are read back from their own bytes, whatever
/// follows them, but for their ids.
pub proof fn lemma_buildings_round_trip(buildings: Seq<BuildingView>, rest: Seq<u8>)
    requires
        buildings_counts_fit(buildings),
    ensures
        parse_buildings(buildings_bytes(buildings) + rest) == Ok::<_, DecodeError>(
            (buildings_as_read(buildings), rest),
        ),
{
    let list = building_list_bytes(buildings) + rest;
    lemma_building_list_round_trip(buildings, rest);
    lemma_count_round_trip(buildings.len(), 4, list);
    assert(buildings_bytes(buildings) + rest =~= count_bytes(buildings.len()) + list);
}

/// Width, height and the two layers are read back from their own bytes,
/// whatever follows them: taking one off the highest layer on writing undoes
/// adding one on reading.
pub proof fn lemma_extent_round_trip(header: LotheaderView, rest: Seq<u8>)
    ensures
        parse_extent(extent_bytes(header) + rest) == Ok::<_, DecodeError>(
            (
                Extent {
                    width: header.width,
                    height: header.height,
                    min_layer: header.min_layer,
                    max_layer: header.max_layer,
                },
                rest,
            ),
        ),
{
    let stated_max = i32_specs::wrapping_sub(header.max_layer, 1);
    let after_min = i32_to_le(stated_max) + rest;
    let after_height = i32_to_le(header.min_layer) + after_min;
    let after_width = i32_to_le(header.height) + after_height;
    let whole = extent_bytes(header) + rest;
    assert(whole =~= i32_to_le(header.width) + after_width);
    lemma_i32_le_round_trip(header.width, after_width);
    lemma_i32_le_round_trip(header.height, after_height);
    lemma_i32_le_round_trip(header.min_layer, after_min);
    lemma_i32_le_round_trip(stated_max, rest);
    assert(i32_specs::wrapping_add(stated_max, 1) == header.max_layer);
}

/// A spawn grid is read back from its own bytes, whatever follows them.
pub proof fn lemma_spawns_round_trip(spawns: Seq<u8>, rest: Seq<u8>)
    requires
        spawns.len() == 1024,
    ensures
        parse_spawns(spawns + rest) == Ok::<_, DecodeError>((spawns, rest)),
{
    assert((spawns + rest).take(1024) =~= spawns);
    assert((spawns + rest).skip(1024) =~= rest);
}

/// The fields of a header are read back from its own bytes, whatever
/// follows them, but for ids and areas.
pub proof fn lemma_header_round_trip(header: LotheaderView, trim_cr: bool, rest: Seq<u8>)
    requires
        is_representable(header, trim_cr),
    ensures
        parse_header(encode(header) + rest, trim_cr) == Ok::<_, DecodeError>(
            (header_as_read(header), rest),
        ),
{
    let after_buildings = header.spawns + rest;
    let after_rooms = buildings_bytes(header.buildings) + after_buildings;
    let after_extent = rooms_bytes(header.rooms) + after_rooms;
    let after_tiles = extent_bytes(header) + after_extent;
    let after_version = tile_names_bytes(header.tile_names) + after_tiles;
    let after_magic = i32_to_le(header.version) + after_version;
    let whole = encode(header) + rest;
    assert(whole == encode_utf8(header.magic) + after_magic) by {
        lemma_regroup(
            encode_utf8(header.magic),
            i32_to_le(header.version),
            tile_names_bytes(header.tile_names),
            extent_bytes(header),
            rooms_bytes(header.rooms),
            buildings_bytes(header.buildings),
            header.spawns,
            rest,
        );
    }
    assert(parse_text(whole, 4) == Ok::<_, DecodeError>((header.magic, after_magic))) by {
        lemma_text_round_trip(header.magic, after_magic);
    }
    assert(parse_i32(after_magic) == Ok::<_, DecodeError>((header.version, after_version))) by {
        lemma_i32_le_round_trip(header.version, after_version);
    }
    assert(parse_tile_names(after_version, trim_cr) == Ok::<_, DecodeError>(
        (header.tile_names, after_tiles),
    )) by {
        lemma_tile_names_round_trip(header.tile_names, trim_cr, after_tiles);
    }
    assert(parse_extent(after_tiles) == Ok::<_, DecodeError>(
        (
            Extent {
                width: header.width,
                height: header.height,
                min_layer: header.min_layer,
                max_layer: header.max_layer,
            },
            after_extent,
        ),
    )) by {
        lemma_extent_round_trip(header, after_extent);
    }
    assert(parse_rooms(after_extent, trim_cr) == Ok::<_, DecodeError>(
        (rooms_as_read(header.rooms), after_rooms),
    )) by {
        lemma_rooms_round_trip(header.rooms, trim_cr, after_rooms);
    }
    assert(parse_buildings(after_rooms) == Ok::<_, DecodeError>(
        (buildings_as_read(header.buildings), after_buildings),
    )) by {
        lemma_buildings_round_trip(header.buildings, after_buildings);
    }
    assert(parse_spawns(after_buildings) == Ok::<_, DecodeError>((header.spawns, rest))) by {
        lemma_spawns_round_trip(header.spawns, rest);
    }
}

/// Decoding what encoding gave returns the header, but for ids and areas:
/// each room and building has its place in its list as its id, and each room
/// the area of its rectangles. Every other field is the one that was
/// encoded.
pub proof fn lemma_decode_of_encode(header: LotheaderView, trim_cr: bool)
    requires
        is_representable(header, trim_cr),
    ensures
        counts_fit(header),
        decode(encode(header), trim_cr) == Ok::<_, DecodeError>(header_as_read(header)),
{
    lemma_header_round_trip(header, trim_cr, Seq::empty());
    assert(encode(header) + Seq::<u8>::empty() =~= encode(header));
}

/// A header that was decoded is read back from its own bytes unchanged: its
/// ids and areas are already the ones that reading gives.
pub proof fn lemma_as_read_is_stable(header: LotheaderView)
    ensures
        header_as_read(header_as_read(header)) == header_as_read(header),
{
    let once = header_as_read(header);
    assert(rooms_as_read(once.rooms) =~= once.rooms);
    assert(buildings_as_read(once.buildings) =~= once.buildings);
}

} // verus!
