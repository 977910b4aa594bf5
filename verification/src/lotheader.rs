//! The lot header and its parts, with the codec that reads and writes them.

use crate::buf_reader_extensions::{BinReader, BytesCursor};
use crate::buf_writer_extensions::{append_bytes, BinWriter};
use crate::constants::{
    I32_BYTES, MAGIC_BYTES, MAX_COUNT, MIN_BUILDING_BYTES, MIN_LINE_BYTES, MIN_ROOM_BYTES, RECTANGLE_BYTES,
    ROOM_ID_BYTES, ROOM_OBJECT_BYTES, SQR_CELL_SIZE_IN_BLOCKS,
};
use crate::error::{DecodeError, EncodeError};
use crate::format::{
    area_of, building_bytes, building_list_bytes, buildings_bytes, buildings_counts_fit,
    count_bytes, counts_fit, decode, encode, exact_area, lines_bytes, max_count,
    rectangle_bytes, rectangle_records, room_bytes, room_counts_fit, room_id_records,
    room_list_bytes, room_object_bytes, room_object_records, rooms_bytes, rooms_counts_fit,
    tile_names_bytes, lemma_parse_buildings_stays_failed,
    lemma_parse_lines_stays_failed, lemma_parse_rooms_stays_failed, parse_building,
    parse_buildings, parse_buildings_n, parse_extent, parse_header, parse_lines, parse_rectangles,
    parse_room, parse_room_objects, parse_rooms, parse_rooms_n, parse_spawns, parse_tile_names,
    rectangles_in, room_ids_in, room_objects_in, Extent,
};
use crate::wire::parse_count;
use vstd::arithmetic::div_mod::lemma_add_mod_noop;
use vstd::prelude::*;
use vstd::wrapping::i32_specs;

verus! {

/// An axis-aligned region of a room.
#[derive(Clone, Copy, Debug, PartialEq, Eq, Structural)]
pub struct Rectangle {
    pub x: i32,
    pub y: i32,
    pub width: i32,
    pub heigth: i32,
}

/// A point placement inside a room.
#[derive(Clone, Copy, Debug, PartialEq, Eq, Structural)]
pub struct RoomObject {
    pub room_type: i32,
    pub x: i32,
    pub y: i32,
}

/// A building: the rooms it is made of, by their place in the room list.
/// Nothing checks that such a place exists.
#[derive(Debug, PartialEq, Eq)]
pub struct Building {
    /// Place of the building in the list it was read from.
    pub id: i32,
    pub room_ids: Vec<i32>,
}

/// A room of a lot.
#[derive(Debug, PartialEq, Eq)]
pub struct Room {
    /// Place of the room in the list it was read from.
    pub id: i32,
    pub name: String,
    /// The floor that the room is on.
    pub layer: i32,
    /// Sum of width times height over the rectangles, as computed when the
    /// room was read. It is never written.
    pub area: i32,
    pub rectangles: Vec<Rectangle>,
    pub room_objects: Vec<RoomObject>,
}

/// The spawn grid of a cell: one byte for each of its blocks.
pub type ZSpawnArray = [u8; SQR_CELL_SIZE_IN_BLOCKS];

/// The header of one lot.
#[derive(Debug, PartialEq, Eq)]
pub struct Lotheader {
    /// A tag of four bytes. Any text of that length is accepted.
    pub magic: String,
    pub version: i32,
    pub tile_names: Vec<String>,
    pub width: i32,
    pub height: i32,
    pub min_layer: i32,
    /// One more than the number that the file states.
    pub max_layer: i32,
    pub rooms: Vec<Room>,
    pub buildings: Vec<Building>,
    pub spawns: ZSpawnArray,
}

/// A building as contracts see it.
pub struct BuildingView {
    pub id: i32,
    pub room_ids: Seq<i32>,
}

/// A room as contracts see it.
pub struct RoomView {
    pub id: i32,
    pub name: Seq<char>,
    pub layer: i32,
    pub area: i32,
    pub rectangles: Seq<Rectangle>,
    pub room_objects: Seq<RoomObject>,
}

/// A lot header as contracts see it.
pub struct LotheaderView {
    pub magic: Seq<char>,
    pub version: i32,
    pub tile_names: Seq<Seq<char>>,
    pub width: i32,
    pub height: i32,
    pub min_layer: i32,
    pub max_layer: i32,
    pub rooms: Seq<RoomView>,
    pub buildings: Seq<BuildingView>,
    pub spawns: Seq<u8>,
}

impl View for Building {
    type V = BuildingView;

    open spec fn view(&self) -> BuildingView {
        BuildingView { id: self.id, room_ids: self.room_ids@ }
    }
}

impl View for Room {
    type V = RoomView;

    open spec fn view(&self) -> RoomView {
        RoomView {
            id: self.id,
            name: self.name@,
            layer: self.layer,
            area: self.area,
            rectangles: self.rectangles@,
            room_objects: self.room_objects@,
        }
    }
}

/// The texts of a list of strings.
pub open spec fn texts_view(texts: Seq<String>) -> Seq<Seq<char>> {
    Seq::new(texts.len(), |i: int| texts[i]@)
}

/// The views of a list of rooms.
pub open spec fn rooms_view(rooms: Seq<Room>) -> Seq<RoomView> {
    Seq::new(rooms.len(), |i: int| rooms[i]@)
}

/// The views of a list of buildings.
pub open spec fn buildings_view(buildings: Seq<Building>) -> Seq<BuildingView> {
    Seq::new(buildings.len(), |i: int| buildings[i]@)
}

impl View for Lotheader {
    type V = LotheaderView;

    open spec fn view(&self) -> LotheaderView {
        LotheaderView {
            magic: self.magic@,
            version: self.version,
            tile_names: texts_view(self.tile_names@),
            width: self.width,
            height: self.height,
            min_layer: self.min_layer,
            max_layer: self.max_layer,
            rooms: rooms_view(self.rooms@),
            buildings: buildings_view(self.buildings@),
            spawns: self.spawns@,
        }
    }
}

/// Adding two numbers that were cut down to 32 bits, in arithmetic that
/// wraps, gives their exact sum cut down to 32 bits.
proof fn lemma_wrapping_add_of_cropped(a: int, b: int)
    ensures
        i32_specs::wrapping_add(i32_specs::signed_crop(a), i32_specs::signed_crop(b))
            == i32_specs::signed_crop(a + b),
{
    lemma_add_mod_noop(a, b, 0x1_0000_0000);
}

/// The area of `rectangles`: width times height, summed in 32-bit arithmetic
/// that wraps.
pub fn rectangles_area(rectangles: &Vec<Rectangle>) -> (area: i32)
    ensures
        area == area_of(rectangles@),
{
    let mut area: i32 = 0;
    let mut i: usize = 0;
    while i < rectangles.len()
        invariant
            i <= rectangles.len(),
            area == area_of(rectangles@.take(i as int)),
        decreases rectangles.len() - i,
    {
        let r = rectangles[i];
        proof {
            let done = rectangles@.take(i as int);
            let next = rectangles@.take(i + 1);
            assert(next.drop_last() =~= done);
            assert(next.last() == r);
            lemma_wrapping_add_of_cropped(exact_area(done), r.width * r.heigth);
        }
        area = area.wrapping_add(r.width.wrapping_mul(r.heigth));
        i = i + 1;
    }
    assert(rectangles@.take(rectangles.len() as int) =~= rectangles@);
    area
}

// Reading
impl Lotheader {
    /// Reads the tile names: a count, then one line each.
    pub fn read_tilenames(cursor: &mut BytesCursor) -> (r: Result<Vec<String>, DecodeError>)
        ensures
            match r {
                Ok(names) => parse_tile_names(
                    old(cursor)@.remaining(),
                    old(cursor)@.trims_carriage_return,
                ) == Ok::<_, DecodeError>((texts_view(names@), final(cursor)@.remaining()))
                    && final(cursor)@.moved_from(old(cursor)@),
                Err(e) => parse_tile_names(
                    old(cursor)@.remaining(),
                    old(cursor)@.trims_carriage_return,
                ) == Err::<(Seq<Seq<char>>, Seq<u8>), _>(e) && final(cursor)@ == old(cursor)@,
            },
    {
        let start: usize = cursor.position();
        let ghost trim_cr = cursor@.trims_carriage_return;
        let ghost before = cursor@;
        let count: usize = cursor.read_count(MIN_LINE_BYTES)?;
        let ghost lines = cursor@.remaining();
        let mut names: Vec<String> = Vec::new();
        let mut i: usize = 0;
        assert(texts_view(names@) =~= Seq::empty());
        while i < count
            invariant
                i <= count,
                before == old(cursor)@,
                start == before.position,
                cursor@.moved_from(before),
                trim_cr == before.trims_carriage_return,
                parse_count(before.remaining(), 1) == Ok::<_, DecodeError>((count as nat, lines)),
                parse_lines(lines, i as nat, trim_cr) == Ok::<_, DecodeError>(
                    (texts_view(names@), cursor@.remaining()),
                ),
            decreases count - i,
        {
            let ghost read = texts_view(names@);
            match cursor.read_line_trimmed() {
                Ok(name) => {
                    names.push(name);
                    assert(texts_view(names@) =~= read.push(name@));
                },
                Err(e) => {
                    proof {
                        lemma_parse_lines_stays_failed(
                            lines,
                            (i + 1) as nat,
                            count as nat,
                            trim_cr,
                        );
                    }
                    cursor.seek_to(start);
                    return Err(e);
                },
            }
            i = i + 1;
        }
        Ok(names)
    }

    /// Reads the rectangles of a room: a count, then that many records of
    /// 16 bytes, taken as one block.
    pub fn read_rectangles(cursor: &mut BytesCursor) -> (r: Result<Vec<Rectangle>, DecodeError>)
        ensures
            match r {
                Ok(rectangles) => parse_rectangles(old(cursor)@.remaining()) == Ok::<
                    _,
                    DecodeError,
                >((rectangles@, final(cursor)@.remaining())) && final(cursor)@.moved_from(
                    old(cursor)@,
                ),
                Err(e) => parse_rectangles(old(cursor)@.remaining()) == Err::<
                    (Seq<Rectangle>, Seq<u8>),
                    _,
                >(e) && final(cursor)@ == old(cursor)@,
            },
    {
        let count: usize = cursor.read_count(RECTANGLE_BYTES)?;
        let left: usize = cursor.remaining_len();
        let ghost block = cursor@.remaining();
        let mut rectangles: Vec<Rectangle> = Vec::new();
        let mut i: usize = 0;
        while i < count
            invariant
                i <= count,
                16 * count <= left == block.len(),
                block == cursor@.remaining(),
                rectangles@ == rectangles_in(block, i as nat),
            decreases count - i,
        {
            let at: usize = 16 * i;
            rectangles.push(
                Rectangle {
                    x: cursor.peek_i32(at),
                    y: cursor.peek_i32(at + 4),
                    width: cursor.peek_i32(at + 8),
                    heigth: cursor.peek_i32(at + 12),
                },
            );
            assert(rectangles@ =~= rectangles_in(block, (i + 1) as nat));
            i = i + 1;
        }
        cursor.advance(16 * count);
        Ok(rectangles)
    }

    /// Reads the objects of a room: a count, then that many records of
    /// 12 bytes, taken as one block.
    pub fn read_room_objects(cursor: &mut BytesCursor) -> (r: Result<Vec<RoomObject>, DecodeError>)
        ensures
            match r {
                Ok(objects) => parse_room_objects(old(cursor)@.remaining()) == Ok::<
                    _,
                    DecodeError,
                >((objects@, final(cursor)@.remaining())) && final(cursor)@.moved_from(
                    old(cursor)@,
                ),
                Err(e) => parse_room_objects(old(cursor)@.remaining()) == Err::<
                    (Seq<RoomObject>, Seq<u8>),
                    _,
                >(e) && final(cursor)@ == old(cursor)@,
            },
    {
        let count: usize = cursor.read_count(ROOM_OBJECT_BYTES)?;
        let left: usize = cursor.remaining_len();
        let ghost block = cursor@.remaining();
        let mut objects: Vec<RoomObject> = Vec::new();
        let mut i: usize = 0;
        while i < count
            invariant
                i <= count,
                12 * count <= left == block.len(),
                block == cursor@.remaining(),
                objects@ == room_objects_in(block, i as nat),
            decreases count - i,
        {
            let at: usize = 12 * i;
            objects.push(
                RoomObject {
                    room_type: cursor.peek_i32(at),
                    x: cursor.peek_i32(at + 4),
                    y: cursor.peek_i32(at + 8),
                },
            );
            assert(objects@ =~= room_objects_in(block, (i + 1) as nat));
            i = i + 1;
        }
        cursor.advance(12 * count);
        Ok(objects)
    }

    /// Reads one room, which gets the place `id`. Its area is computed from
    /// its rectangles.
    pub fn read_room(cursor: &mut BytesCursor, id: i32) -> (r: Result<Room, DecodeError>)
        ensures
            match r {
                Ok(room) => parse_room(
                    old(cursor)@.remaining(),
                    id,
                    old(cursor)@.trims_carriage_return,
                ) == Ok::<_, DecodeError>((room@, final(cursor)@.remaining()))
                    && final(cursor)@.moved_from(old(cursor)@),
                Err(e) => parse_room(
                    old(cursor)@.remaining(),
                    id,
                    old(cursor)@.trims_carriage_return,
                ) == Err::<(RoomView, Seq<u8>), _>(e) && final(cursor)@ == old(cursor)@,
            },
    {
        proof {
            reveal(parse_room);
        }
        let start: usize = cursor.position();
        let name = cursor.read_line_trimmed()?;
        let layer: i32 = match cursor.read_i32() {
            Ok(layer) => layer,
            Err(e) => {
                cursor.seek_to(start);
                return Err(e);
            },
        };
        let rectangles = match Lotheader::read_rectangles(cursor) {
            Ok(rectangles) => rectangles,
            Err(e) => {
                cursor.seek_to(start);
                return Err(e);
            },
        };
        let room_objects = match Lotheader::read_room_objects(cursor) {
            Ok(room_objects) => room_objects,
            Err(e) => {
                cursor.seek_to(start);
                return Err(e);
            },
        };
        let area: i32 = rectangles_area(&rectangles);
        Ok(Room { id, name, layer, area, rectangles, room_objects })
    }

    /// Reads the rooms: a count, then the rooms, each of which gets its
    /// place in the list as its id.
    pub fn read_rooms(cursor: &mut BytesCursor) -> (r: Result<Vec<Room>, DecodeError>)
        ensures
            match r {
                Ok(rooms) => parse_rooms(
                    old(cursor)@.remaining(),
                    old(cursor)@.trims_carriage_return,
                ) == Ok::<_, DecodeError>((rooms_view(rooms@), final(cursor)@.remaining()))
                    && final(cursor)@.moved_from(old(cursor)@),
                Err(e) => parse_rooms(old(cursor)@.remaining(), old(cursor)@.trims_carriage_return)
                    == Err::<(Seq<RoomView>, Seq<u8>), _>(e) && final(cursor)@ == old(cursor)@,
            },
    {
        let start: usize = cursor.position();
        let ghost trim_cr = cursor@.trims_carriage_return;
        let ghost before = cursor@;
        let count: usize = cursor.read_count(MIN_ROOM_BYTES)?;
        let ghost list = cursor@.remaining();
        let mut rooms: Vec<Room> = Vec::new();
        let mut i: usize = 0;
        assert(rooms_view(rooms@) =~= Seq::empty());
        while i < count
            invariant
                i <= count <= 0x7FFF_FFFF,
                before == old(cursor)@,
                start == before.position,
                cursor@.moved_from(before),
                trim_cr == before.trims_carriage_return,
                parse_count(before.remaining(), 13) == Ok::<_, DecodeError>((count as nat, list)),
                parse_rooms_n(list, i as nat, trim_cr) == Ok::<_, DecodeError>(
                    (rooms_view(rooms@), cursor@.remaining()),
                ),
            decreases count - i,
        {
            let ghost read = rooms_view(rooms@);
            let ghost here = cursor@.remaining();
            assert(parse_rooms_n(list, (i + 1) as nat, trim_cr) == match parse_room(
                here,
                i as i32,
                trim_cr,
            ) {
                Err(e) => Err::<(Seq<RoomView>, Seq<u8>), _>(e),
                Ok((room, after)) => Ok((read.push(room), after)),
            });
            match Lotheader::read_room(cursor, i as i32) {
                Ok(room) => {
                    rooms.push(room);
                    assert(rooms_view(rooms@) =~= read.push(room@));
                },
                Err(e) => {
                    proof {
                        lemma_parse_rooms_stays_failed(
                            list,
                            (i + 1) as nat,
                            count as nat,
                            trim_cr,
                        );
                    }
                    cursor.seek_to(start);
                    return Err(e);
                },
            }
            i = i + 1;
        }
        Ok(rooms)
    }

    /// Reads one building, which gets the place `id`: a count, then that
    /// many room references of 4 bytes, taken as one block.
    pub fn read_building(cursor: &mut BytesCursor, id: i32) -> (r: Result<Building, DecodeError>)
        ensures
            match r {
                Ok(building) => parse_building(old(cursor)@.remaining(), id) == Ok::<
                    _,
                    DecodeError,
                >((building@, final(cursor)@.remaining())) && final(cursor)@.moved_from(
                    old(cursor)@,
                ),
                Err(e) => parse_building(old(cursor)@.remaining(), id) == Err::<
                    (BuildingView, Seq<u8>),
                    _,
                >(e) && final(cursor)@ == old(cursor)@,
            },
    {
        let count: usize = cursor.read_count(ROOM_ID_BYTES)?;
        let left: usize = cursor.remaining_len();
        let ghost block = cursor@.remaining();
        let mut room_ids: Vec<i32> = Vec::new();
        let mut i: usize = 0;
        while i < count
            invariant
                i <= count,
                4 * count <= left == block.len(),
                block == cursor@.remaining(),
                room_ids@ == room_ids_in(block, i as nat),
            decreases count - i,
        {
            room_ids.push(cursor.peek_i32(4 * i));
            assert(room_ids@ =~= room_ids_in(block, (i + 1) as nat));
            i = i + 1;
        }
        cursor.advance(4 * count);
        Ok(Building { id, room_ids })
    }

    /// Reads the buildings: a count, then the buildings, each of which gets
    /// its place in the list as its id.
    pub fn read_buildings(cursor: &mut BytesCursor) -> (r: Result<Vec<Building>, DecodeError>)
        ensures
            match r {
                Ok(buildings) => parse_buildings(old(cursor)@.remaining()) == Ok::<
                    _,
                    DecodeError,
                >((buildings_view(buildings@), final(cursor)@.remaining()))
                    && final(cursor)@.moved_from(old(cursor)@),
                Err(e) => parse_buildings(old(cursor)@.remaining()) == Err::<
                    (Seq<BuildingView>, Seq<u8>),
                    _,
                >(e) && final(cursor)@ == old(cursor)@,
            },
    {
        let start: usize = cursor.position();
        let ghost before = cursor@;
        let count: usize = cursor.read_count(MIN_BUILDING_BYTES)?;
        let ghost list = cursor@.remaining();
        let mut buildings: Vec<Building> = Vec::new();
        let mut i: usize = 0;
        assert(buildings_view(buildings@) =~= Seq::empty());
        while i < count
            invariant
                i <= count <= 0x7FFF_FFFF,
                before == old(cursor)@,
                start == before.position,
                cursor@.moved_from(before),
                parse_count(before.remaining(), 4) == Ok::<_, DecodeError>((count as nat, list)),
                parse_buildings_n(list, i as nat) == Ok::<_, DecodeError>(
                    (buildings_view(buildings@), cursor@.remaining()),
                ),
            decreases count - i,
        {
            let ghost read = buildings_view(buildings@);
            match Lotheader::read_building(cursor, i as i32) {
                Ok(building) => {
                    buildings.push(building);
                    assert(buildings_view(buildings@) =~= read.push(building@));
                },
                Err(e) => {
                    proof {
                        lemma_parse_buildings_stays_failed(list, (i + 1) as nat, count as nat);
                    }
                    cursor.seek_to(start);
                    return Err(e);
                },
            }
            i = i + 1;
        }
        Ok(buildings)
    }

    /// Reads the spawn grid: 1024 bytes, taken as they are.
    pub fn read_spawns(cursor: &mut BytesCursor) -> (r: Result<ZSpawnArray, DecodeError>)
        ensures
            match r {
                Ok(spawns) => parse_spawns(old(cursor)@.remaining()) == Ok::<_, DecodeError>(
                    (spawns@, final(cursor)@.remaining()),
                ) && final(cursor)@.moved_from(old(cursor)@),
                Err(e) => parse_spawns(old(cursor)@.remaining()) == Err::<(Seq<u8>, Seq<u8>), _>(e)
                    && final(cursor)@ == old(cursor)@,
            },
    {
        if cursor.remaining_len() < SQR_CELL_SIZE_IN_BLOCKS {
            return Err(DecodeError::UnexpectedEof);
        }
        let mut spawns: ZSpawnArray = [0u8; SQR_CELL_SIZE_IN_BLOCKS];
        let mut i: usize = 0;
        while i < SQR_CELL_SIZE_IN_BLOCKS
            invariant
                i <= SQR_CELL_SIZE_IN_BLOCKS,
                SQR_CELL_SIZE_IN_BLOCKS <= cursor@.remaining().len(),
                forall|j: int| 0 <= j < i ==> spawns@[j] == cursor@.remaining()[j],
            decreases SQR_CELL_SIZE_IN_BLOCKS - i,
        {
            spawns[i] = cursor.peek_u8(i);
            i = i + 1;
        }
        assert(spawns@ =~= cursor@.remaining().take(1024));
        cursor.advance(SQR_CELL_SIZE_IN_BLOCKS);
        Ok(spawns)
    }

    /// Reads width, height, lowest and highest layer. The highest layer is
    /// kept as one more than the number read, in arithmetic that wraps.
    pub fn read_extent(cursor: &mut BytesCursor) -> (r: Result<Extent, DecodeError>)
        ensures
            match r {
                Ok(extent) => parse_extent(old(cursor)@.remaining()) == Ok::<_, DecodeError>(
                    (extent, final(cursor)@.remaining()),
                ) && final(cursor)@.moved_from(old(cursor)@),
                Err(e) => parse_extent(old(cursor)@.remaining()) == Err::<(Extent, Seq<u8>), _>(e)
                    && final(cursor)@ == old(cursor)@,
            },
    {
        if cursor.remaining_len() < 4 * I32_BYTES {
            proof {
                let s = cursor@.remaining();
                if s.len() >= 4 {
                    assert(s.skip(4).len() == s.len() - 4);
                    if s.len() >= 8 {
                        assert(s.skip(4).skip(4).len() == s.len() - 8);
                        if s.len() >= 12 {
                            assert(s.skip(4).skip(4).skip(4).len() == s.len() - 12);
                        }
                    }
                }
            }
            return Err(DecodeError::UnexpectedEof);
        }
        let width: i32 = cursor.peek_i32(0);
        let height: i32 = cursor.peek_i32(4);
        let min_layer: i32 = cursor.peek_i32(8);
        let stated_max: i32 = cursor.peek_i32(12);
        proof {
            let s = cursor@.remaining();
            assert(s.skip(4).skip(4) =~= s.skip(8));
            assert(s.skip(8).skip(4) =~= s.skip(12));
            assert(s.skip(12).skip(4) =~= s.skip(16));
        }
        cursor.advance(4 * I32_BYTES);
        Ok(Extent { width, height, min_layer, max_layer: stated_max.wrapping_add(1) })
    }

    /// Reads every field of a header, in file order, from where the cursor
    /// stands. Bytes may be left over.
    pub fn read_header(cursor: &mut BytesCursor) -> (r: Result<Lotheader, DecodeError>)
        ensures
            match r {
                Ok(header) => parse_header(
                    old(cursor)@.remaining(),
                    old(cursor)@.trims_carriage_return,
                ) == Ok::<_, DecodeError>((header@, final(cursor)@.remaining()))
                    && final(cursor)@.moved_from(old(cursor)@),
                Err(e) => parse_header(
                    old(cursor)@.remaining(),
                    old(cursor)@.trims_carriage_return,
                ) == Err::<(LotheaderView, Seq<u8>), _>(e) && final(cursor)@ == old(cursor)@,
            },
    {
        let start: usize = cursor.position();
        let magic = cursor.read_n_chars(MAGIC_BYTES)?;
        let version: i32 = match cursor.read_i32() {
            Ok(version) => version,
            Err(e) => {
                cursor.seek_to(start);
                return Err(e);
            },
        };
        let tile_names = match Lotheader::read_tilenames(cursor) {
            Ok(tile_names) => tile_names,
            Err(e) => {
                cursor.seek_to(start);
                return Err(e);
            },
        };
        let extent = match Lotheader::read_extent(cursor) {
            Ok(extent) => extent,
            Err(e) => {
                cursor.seek_to(start);
                return Err(e);
            },
        };
        let rooms = match Lotheader::read_rooms(cursor) {
            Ok(rooms) => rooms,
            Err(e) => {
                cursor.seek_to(start);
                return Err(e);
            },
        };
        let buildings = match Lotheader::read_buildings(cursor) {
            Ok(buildings) => buildings,
            Err(e) => {
                cursor.seek_to(start);
                return Err(e);
            },
        };
        let spawns = match Lotheader::read_spawns(cursor) {
            Ok(spawns) => spawns,
            Err(e) => {
                cursor.seek_to(start);
                return Err(e);
            },
        };
        Ok(
            Lotheader {
                magic,
                version,
                tile_names,
                width: extent.width,
                height: extent.height,
                min_layer: extent.min_layer,
                max_layer: extent.max_layer,
                rooms,
                buildings,
                spawns,
            },
        )
    }

    /// Decodes the whole buffer of `cursor`, from its first byte, wherever
    /// the cursor stood. The header must end where the buffer ends. The
    /// cursor is left at the end of the buffer, whatever the outcome.
    pub fn from_bytes(cursor: &mut BytesCursor) -> (r: Result<Lotheader, DecodeError>)
        ensures
            final(cursor)@ == old(cursor)@.at(old(cursor)@.bytes.len()),
            match r {
                Ok(header) => decode(old(cursor)@.bytes, old(cursor)@.trims_carriage_return)
                    == Ok::<_, DecodeError>(header@),
                Err(e) => decode(old(cursor)@.bytes, old(cursor)@.trims_carriage_return) == Err::<
                    LotheaderView,
                    _,
                >(e),
            },
    {
        cursor.rewind();
        match Lotheader::read_header(cursor) {
            Ok(header) => match cursor.ensure_end_reached() {
                Ok(()) => Ok(header),
                Err(e) => Err(e),
            },
            Err(e) => {
                cursor.seek_to_end();
                Err(e)
            },
        }
    }
}

/// Writes a count field.
fn write_count(buffer: &mut Vec<u8>, count: usize)
    requires
        count <= max_count(),
    ensures
        final(buffer)@ == old(buffer)@ + count_bytes(count as nat),
{
    buffer.write_i32(count as i32);
}

/// Writes the rectangles of a room: their count, then one record each.
fn write_rectangles(rectangles: &Vec<Rectangle>, buffer: &mut Vec<u8>)
    requires
        rectangles@.len() <= max_count(),
    ensures
        final(buffer)@ == old(buffer)@ + count_bytes(rectangles@.len()) + rectangle_records(
            rectangles@,
        ),
{
    write_count(buffer, rectangles.len());
    let ghost start = buffer@;
    let mut i: usize = 0;
    while i < rectangles.len()
        invariant
            i <= rectangles.len(),
            buffer@ == start + rectangle_records(rectangles@.take(i as int)),
        decreases rectangles.len() - i,
    {
        let r = rectangles[i];
        let ghost so_far = buffer@;
        buffer.write_i32(r.x);
        buffer.write_i32(r.y);
        buffer.write_i32(r.width);
        buffer.write_i32(r.heigth);
        proof {
            let next = rectangles@.take(i + 1);
            assert(next.drop_last() =~= rectangles@.take(i as int));
            assert(next.last() == r);
            assert(buffer@ =~= so_far + rectangle_bytes(r));
            assert(buffer@ =~= start + rectangle_records(next));
        }
        i = i + 1;
    }
    assert(rectangles@.take(rectangles.len() as int) =~= rectangles@);
}

/// Writes the objects of a room: their count, then one record each.
fn write_room_objects(objects: &Vec<RoomObject>, buffer: &mut Vec<u8>)
    requires
        objects@.len() <= max_count(),
    ensures
        final(buffer)@ == old(buffer)@ + count_bytes(objects@.len()) + room_object_records(
            objects@,
        ),
{
    write_count(buffer, objects.len());
    let ghost start = buffer@;
    let mut i: usize = 0;
    while i < objects.len()
        invariant
            i <= objects.len(),
            buffer@ == start + room_object_records(objects@.take(i as int)),
        decreases objects.len() - i,
    {
        let o = objects[i];
        let ghost so_far = buffer@;
        buffer.write_i32(o.room_type);
        buffer.write_i32(o.x);
        buffer.write_i32(o.y);
        proof {
            let next = objects@.take(i + 1);
            assert(next.drop_last() =~= objects@.take(i as int));
            assert(next.last() == o);
            assert(buffer@ =~= so_far + room_object_bytes(o));
            assert(buffer@ =~= start + room_object_records(next));
        }
        i = i + 1;
    }
    assert(objects@.take(objects.len() as int) =~= objects@);
}

/// Writes one room: its name line, its layer, its rectangles and its
/// objects.
fn write_room(room: &Room, buffer: &mut Vec<u8>)
    requires
        room_counts_fit(room@),
    ensures
        final(buffer)@ == old(buffer)@ + room_bytes(room@),
{
    buffer.write_line(room.name.as_str());
    buffer.write_i32(room.layer);
    write_rectangles(&room.rectangles, buffer);
    write_room_objects(&room.room_objects, buffer);
    assert(buffer@ =~= old(buffer)@ + room_bytes(room@));
}

/// Writes one building: the count of its room references, then each of
/// them.
fn write_building(building: &Building, buffer: &mut Vec<u8>)
    requires
        building@.room_ids.len() <= max_count(),
    ensures
        final(buffer)@ == old(buffer)@ + building_bytes(building@),
{
    write_count(buffer, building.room_ids.len());
    let ghost start = buffer@;
    let mut i: usize = 0;
    while i < building.room_ids.len()
        invariant
            i <= building.room_ids.len(),
            buffer@ == start + room_id_records(building.room_ids@.take(i as int)),
        decreases building.room_ids.len() - i,
    {
        let id: i32 = building.room_ids[i];
        buffer.write_i32(id);
        proof {
            let next = building.room_ids@.take(i + 1);
            assert(next.drop_last() =~= building.room_ids@.take(i as int));
            assert(next.last() == id);
            assert(buffer@ =~= start + room_id_records(next));
        }
        i = i + 1;
    }
    assert(building.room_ids@.take(building.room_ids.len() as int) =~= building.room_ids@);
    assert(buffer@ =~= old(buffer)@ + building_bytes(building@));
}

/// Tells whether the list and the blocks of each room in it have lengths
/// that a count field can state.
fn rooms_fit(rooms: &Vec<Room>) -> (fit: bool)
    ensures
        fit == rooms_counts_fit(rooms_view(rooms@)),
{
    if rooms.len() > MAX_COUNT {
        return false;
    }
    let mut i: usize = 0;
    while i < rooms.len()
        invariant
            i <= rooms.len(),
            forall|j: int| 0 <= j < i ==> room_counts_fit(#[trigger] rooms_view(rooms@)[j]),
        decreases rooms.len() - i,
    {
        if rooms[i].rectangles.len() > MAX_COUNT || rooms[i].room_objects.len() > MAX_COUNT {
            assert(!room_counts_fit(rooms_view(rooms@)[i as int]));
            return false;
        }
        i = i + 1;
    }
    true
}

/// Tells whether the list and each building in it have lengths that a count
/// field can state.
fn buildings_fit(buildings: &Vec<Building>) -> (fit: bool)
    ensures
        fit == buildings_counts_fit(buildings_view(buildings@)),
{
    if buildings.len() > MAX_COUNT {
        return false;
    }
    let mut i: usize = 0;
    while i < buildings.len()
        invariant
            i <= buildings.len(),
            forall|j: int|
                0 <= j < i ==> (#[trigger] buildings_view(buildings@)[j]).room_ids.len()
                    <= max_count(),
        decreases buildings.len() - i,
    {
        if buildings[i].room_ids.len() > MAX_COUNT {
            assert(buildings_view(buildings@)[i as int].room_ids.len() > max_count());
            return false;
        }
        i = i + 1;
    }
    true
}

// Writing
impl Lotheader {
    /// Tells whether every collection of the header has a length that its
    /// count field can state, which is when the header can be written.
    pub fn counts_fit(&self) -> (fit: bool)
        ensures
            fit == counts_fit(self@),
    {
        self.tile_names.len() <= MAX_COUNT && rooms_fit(&self.rooms) && buildings_fit(
            &self.buildings,
        )
    }

    /// Encodes the header. The place of a room or building in its list is
    /// what counts: ids and areas are not written. This fails, with nothing
    /// written, exactly when some collection is too long for its count.
    pub fn to_bytes(&self) -> (r: Result<Vec<u8>, EncodeError>)
        ensures
            match r {
                Ok(bytes) => counts_fit(self@) && bytes@ == encode(self@),
                Err(e) => !counts_fit(self@) && e == EncodeError::CountTooLarge,
            },
    {
        if !self.counts_fit() {
            return Err(EncodeError::CountTooLarge);
        }
        let mut buffer: Vec<u8> = Vec::new();
        buffer.write_string(self.magic.as_str());
        buffer.write_i32(self.version);
        match self.write_tiles_def(&mut buffer) {
            Ok(()) => {},
            Err(e) => {
                return Err(e);
            },
        }
        buffer.write_i32(self.width);
        buffer.write_i32(self.height);
        buffer.write_i32(self.min_layer);
        buffer.write_i32(self.max_layer.wrapping_sub(1));
        match self.write_rooms(&mut buffer) {
            Ok(()) => {},
            Err(e) => {
                return Err(e);
            },
        }
        match self.write_buildings(&mut buffer) {
            Ok(()) => {},
            Err(e) => {
                return Err(e);
            },
        }
        self.write_spawns(&mut buffer);
        assert(buffer@ =~= encode(self@));
        Ok(buffer)
    }

    /// Writes the tile names: their count, then one line each. This fails,
    /// with nothing written, exactly when there are too many for the count.
    pub fn write_tiles_def(&self, buffer: &mut Vec<u8>) -> (r: Result<(), EncodeError>)
        ensures
            match r {
                Ok(()) => self@.tile_names.len() <= max_count() && final(buffer)@ == old(buffer)@
                    + tile_names_bytes(self@.tile_names),
                Err(e) => self@.tile_names.len() > max_count() && final(buffer)@ == old(buffer)@
                    && e == EncodeError::CountTooLarge,
            },
    {
        if self.tile_names.len() > MAX_COUNT {
            return Err(EncodeError::CountTooLarge);
        }
        write_count(buffer, self.tile_names.len());
        let ghost start = buffer@;
        let ghost texts = texts_view(self.tile_names@);
        let mut i: usize = 0;
        while i < self.tile_names.len()
            invariant
                i <= self.tile_names.len(),
                texts == texts_view(self.tile_names@),
                buffer@ == start + lines_bytes(texts.take(i as int)),
            decreases self.tile_names.len() - i,
        {
            buffer.write_line(self.tile_names[i].as_str());
            proof {
                let next = texts.take(i + 1);
                assert(next.drop_last() =~= texts.take(i as int));
                assert(next.last() == self.tile_names@[i as int]@);
                assert(buffer@ =~= start + lines_bytes(next));
            }
            i = i + 1;
        }
        assert(texts.take(self.tile_names.len() as int) =~= texts);
        assert(buffer@ =~= old(buffer)@ + tile_names_bytes(self@.tile_names));
        Ok(())
    }

    /// Writes the rooms: their count, then the rooms in order. This fails,
    /// with nothing written, exactly when the list or a block of one of the
    /// rooms is too long for its count.
    pub fn write_rooms(&self, buffer: &mut Vec<u8>) -> (r: Result<(), EncodeError>)
        ensures
            match r {
                Ok(()) => rooms_counts_fit(self@.rooms) && final(buffer)@ == old(buffer)@
                    + rooms_bytes(self@.rooms),
                Err(e) => !rooms_counts_fit(self@.rooms) && final(buffer)@ == old(buffer)@ && e
                    == EncodeError::CountTooLarge,
            },
    {
        if !rooms_fit(&self.rooms) {
            return Err(EncodeError::CountTooLarge);
        }
        write_count(buffer, self.rooms.len());
        let ghost start = buffer@;
        let ghost rooms = rooms_view(self.rooms@);
        let mut i: usize = 0;
        while i < self.rooms.len()
            invariant
                i <= self.rooms.len(),
                rooms == rooms_view(self.rooms@),
                rooms_counts_fit(rooms),
                buffer@ == start + room_list_bytes(rooms.take(i as int)),
            decreases self.rooms.len() - i,
        {
            assert(room_counts_fit(rooms[i as int]));
            write_room(&self.rooms[i], buffer);
            proof {
                let next = rooms.take(i + 1);
                assert(next.drop_last() =~= rooms.take(i as int));
                assert(next.last() == self.rooms@[i as int]@);
                assert(buffer@ =~= start + room_list_bytes(next));
            }
            i = i + 1;
        }
        assert(rooms.take(self.rooms.len() as int) =~= rooms);
        assert(buffer@ =~= old(buffer)@ + rooms_bytes(self@.rooms));
        Ok(())
    }

    /// Writes the buildings: their count, then the buildings in order. This
    /// fails, with nothing written, exactly when the list or the room
    /// references of one of the buildings are too many for their count.
    pub fn write_buildings(&self, buffer: &mut Vec<u8>) -> (r: Result<(), EncodeError>)
        ensures
            match r {
                Ok(()) => buildings_counts_fit(self@.buildings) && final(buffer)@ == old(buffer)@
                    + buildings_bytes(self@.buildings),
                Err(e) => !buildings_counts_fit(self@.buildings) && final(buffer)@ == old(
                    buffer,
                )@ && e == EncodeError::CountTooLarge,
            },
    {
        if !buildings_fit(&self.buildings) {
            return Err(EncodeError::CountTooLarge);
        }
        write_count(buffer, self.buildings.len());
        let ghost start = buffer@;
        let ghost buildings = buildings_view(self.buildings@);
        let mut i: usize = 0;
        while i < self.buildings.len()
            invariant
                i <= self.buildings.len(),
                buildings == buildings_view(self.buildings@),
                buildings_counts_fit(buildings),
                buffer@ == start + building_list_bytes(buildings.take(i as int)),
            decreases self.buildings.len() - i,
        {
            assert(buildings[i as int].room_ids.len() <= max_count());
            write_building(&self.buildings[i], buffer);
            proof {
                let next = buildings.take(i + 1);
                assert(next.drop_last() =~= buildings.take(i as int));
                assert(next.last() == self.buildings@[i as int]@);
                assert(buffer@ =~= start + building_list_bytes(next));
            }
            i = i + 1;
        }
        assert(buildings.take(self.buildings.len() as int) =~= buildings);
        assert(buffer@ =~= old(buffer)@ + buildings_bytes(self@.buildings));
        Ok(())
    }

    /// Writes the spawn grid as it is.
    pub fn write_spawns(&self, buffer: &mut Vec<u8>)
        ensures
            final(buffer)@ == old(buffer)@ + self@.spawns,
    {
        append_bytes(buffer, self.spawns.as_slice());
    }
}

} // verus!
