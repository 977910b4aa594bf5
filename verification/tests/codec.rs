use lotheader::buf_reader_extensions::{BinReader, BytesCursor};
use lotheader::error::DecodeError;
use lotheader::lotheader::{rectangles_area, Building, Lotheader, Rectangle, Room, RoomObject};

fn put_i32(bytes: &mut Vec<u8>, v: i32) {
    bytes.extend_from_slice(&v.to_le_bytes());
}

fn put_line(bytes: &mut Vec<u8>, text: &str) {
    bytes.extend_from_slice(text.as_bytes());
    bytes.push(0x0A);
}

fn spawn_grid() -> [u8; 1024] {
    let mut grid = [0u8; 1024];
    for (i, b) in grid.iter_mut().enumerate() {
        *b = (i % 251) as u8;
    }
    grid
}

/// The bytes of a header without tile names, rooms or buildings.
fn empty_header_bytes(stated_max_layer: i32) -> Vec<u8> {
    let mut bytes = Vec::new();
    bytes.extend_from_slice(b"LOTH");
    put_i32(&mut bytes, 1);
    put_i32(&mut bytes, 0);
    put_i32(&mut bytes, 300);
    put_i32(&mut bytes, 301);
    put_i32(&mut bytes, -2);
    put_i32(&mut bytes, stated_max_layer);
    put_i32(&mut bytes, 0);
    put_i32(&mut bytes, 0);
    bytes.extend_from_slice(&spawn_grid());
    bytes
}

/// The bytes of the header that `full_header` returns, written by hand.
fn full_header_bytes() -> Vec<u8> {
    let mut bytes = Vec::new();
    bytes.extend_from_slice(b"LOTH");
    put_i32(&mut bytes, 2);
    put_i32(&mut bytes, 3);
    put_line(&mut bytes, "floors_01_0");
    put_line(&mut bytes, "");
    put_line(&mut bytes, "caf\u{e9}_02");
    put_i32(&mut bytes, 300);
    put_i32(&mut bytes, 300);
    put_i32(&mut bytes, -1);
    put_i32(&mut bytes, 5);
    put_i32(&mut bytes, 2);
    // room 0
    put_line(&mut bytes, "kitchen");
    put_i32(&mut bytes, 0);
    put_i32(&mut bytes, 2);
    for v in [0, 0, 10, 5, 0, 0, 3, 4] {
        put_i32(&mut bytes, v);
    }
    put_i32(&mut bytes, 1);
    for v in [7, 1, 2] {
        put_i32(&mut bytes, v);
    }
    // room 1
    put_line(&mut bytes, "hall");
    put_i32(&mut bytes, -1);
    put_i32(&mut bytes, 0);
    put_i32(&mut bytes, 0);
    // buildings
    put_i32(&mut bytes, 2);
    put_i32(&mut bytes, 3);
    for v in [0, 1, 99] {
        put_i32(&mut bytes, v);
    }
    put_i32(&mut bytes, 0);
    bytes.extend_from_slice(&spawn_grid());
    bytes
}

fn full_header() -> Lotheader {
    Lotheader {
        magic: "LOTH".to_string(),
        version: 2,
        tile_names: vec!["floors_01_0".to_string(), String::new(), "caf\u{e9}_02".to_string()],
        width: 300,
        height: 300,
        min_layer: -1,
        max_layer: 6,
        rooms: vec![
            Room {
                id: 0,
                name: "kitchen".to_string(),
                layer: 0,
                area: 62,
                rectangles: vec![
                    Rectangle { x: 0, y: 0, width: 10, heigth: 5 },
                    Rectangle { x: 0, y: 0, width: 3, heigth: 4 },
                ],
                room_objects: vec![RoomObject { room_type: 7, x: 1, y: 2 }],
            },
            Room {
                id: 1,
                name: "hall".to_string(),
                layer: -1,
                area: 0,
                rectangles: Vec::new(),
                room_objects: Vec::new(),
            },
        ],
        buildings: vec![
            Building { id: 0, room_ids: vec![0, 1, 99] },
            Building { id: 1, room_ids: Vec::new() },
        ],
        spawns: spawn_grid(),
    }
}

fn decode(bytes: Vec<u8>) -> Result<Lotheader, DecodeError> {
    let mut cursor = BytesCursor::new(bytes);
    Lotheader::from_bytes(&mut cursor)
}

#[test]
fn decodes_a_header_with_empty_collections() {
    let header = decode(empty_header_bytes(5)).unwrap();
    assert_eq!(header.magic, "LOTH");
    assert_eq!(header.version, 1);
    assert!(header.tile_names.is_empty());
    assert_eq!(header.width, 300);
    assert_eq!(header.height, 301);
    assert_eq!(header.min_layer, -2);
    assert_eq!(header.max_layer, 6);
    assert!(header.rooms.is_empty());
    assert!(header.buildings.is_empty());
    assert_eq!(header.spawns, spawn_grid());
}

#[test]
fn empty_header_takes_1060_bytes() {
    let bytes = empty_header_bytes(0);
    assert_eq!(bytes.len(), 1060);
    assert_eq!(decode(bytes).unwrap().to_bytes().unwrap().len(), 1060);
}

#[test]
fn decodes_every_field_of_a_full_header() {
    assert_eq!(decode(full_header_bytes()), Ok(full_header()));
}

#[test]
fn encodes_a_full_header_byte_for_byte() {
    assert_eq!(full_header().to_bytes(), Ok(full_header_bytes()));
}

#[test]
fn stated_max_layer_is_one_less_than_the_one_kept() {
    let bytes = empty_header_bytes(5);
    let header = decode(bytes.clone()).unwrap();
    assert_eq!(header.max_layer, 6);
    let written = header.to_bytes().unwrap();
    assert_eq!(&written[24..28], &5i32.to_le_bytes());
    assert_eq!(written, bytes);
}

#[test]
fn max_layer_wraps_at_the_ends_of_the_range() {
    let header = decode(empty_header_bytes(i32::MAX)).unwrap();
    assert_eq!(header.max_layer, i32::MIN);
    assert_eq!(header.to_bytes().unwrap(), empty_header_bytes(i32::MAX));
    let lowest = decode(empty_header_bytes(i32::MIN)).unwrap();
    assert_eq!(lowest.max_layer, i32::MIN + 1);
    let minus_one = decode(empty_header_bytes(-1)).unwrap();
    assert_eq!(minus_one.max_layer, 0);
}

#[test]
fn area_is_the_sum_over_the_rectangles() {
    let header = decode(full_header_bytes()).unwrap();
    assert_eq!(header.rooms[0].area, 10 * 5 + 3 * 4);
    assert_eq!(header.rooms[0].area, 62);
    assert_eq!(header.rooms[1].area, 0);
}

#[test]
fn rectangles_area_adds_width_times_height() {
    let rects = vec![
        Rectangle { x: 9, y: 9, width: 10, heigth: 5 },
        Rectangle { x: -4, y: 2, width: 3, heigth: 4 },
        Rectangle { x: 0, y: 0, width: -2, heigth: 6 },
    ];
    assert_eq!(rectangles_area(&rects), 50);
    assert_eq!(rectangles_area(&Vec::new()), 0);
}

#[test]
fn rectangles_area_wraps_in_32_bits() {
    let square = vec![Rectangle { x: 0, y: 0, width: 65536, heigth: 65536 }];
    assert_eq!(rectangles_area(&square), 0);
    let half = vec![Rectangle { x: 0, y: 0, width: 65536, heigth: 32768 }];
    assert_eq!(rectangles_area(&half), i32::MIN);
    let two = vec![
        Rectangle { x: 0, y: 0, width: i32::MAX, heigth: 1 },
        Rectangle { x: 0, y: 0, width: 1, heigth: 1 },
    ];
    assert_eq!(rectangles_area(&two), i32::MIN);
    let back = vec![
        Rectangle { x: 0, y: 0, width: i32::MAX, heigth: 2 },
        Rectangle { x: 0, y: 0, width: 1, heigth: 2 },
        Rectangle { x: 0, y: 0, width: 7, heigth: 3 },
    ];
    assert_eq!(rectangles_area(&back), 21);
}

#[test]
fn round_trip_keeps_every_field_but_ids_and_areas() {
    let mut header = full_header();
    header.rooms[0].id = 40;
    header.rooms[0].area = -7;
    header.rooms[1].id = -3;
    header.rooms[1].area = 1234;
    header.buildings[0].id = 17;
    header.buildings[1].id = 17;
    let bytes = header.to_bytes().unwrap();
    assert_eq!(bytes, full_header_bytes());
    assert_eq!(decode(bytes), Ok(full_header()));
}

#[test]
fn round_trip_of_what_was_decoded_changes_nothing() {
    let header = decode(full_header_bytes()).unwrap();
    let again = decode(header.to_bytes().unwrap()).unwrap();
    assert_eq!(again, header);
}

#[test]
fn ids_are_the_places_in_the_lists() {
    let header = decode(full_header_bytes()).unwrap();
    for (i, room) in header.rooms.iter().enumerate() {
        assert_eq!(room.id, i as i32);
    }
    for (i, building) in header.buildings.iter().enumerate() {
        assert_eq!(building.id, i as i32);
    }
}

#[test]
fn reordering_rooms_changes_their_ids_on_the_next_decode() {
    let mut header = full_header();
    header.rooms.swap(0, 1);
    let again = decode(header.to_bytes().unwrap()).unwrap();
    assert_eq!(again.rooms[0].name, "hall");
    assert_eq!(again.rooms[0].id, 0);
    assert_eq!(again.rooms[1].name, "kitchen");
    assert_eq!(again.rooms[1].id, 1);
    assert_eq!(again.rooms[1].area, 62);
}

#[test]
fn room_references_are_not_resolved() {
    let header = decode(full_header_bytes()).unwrap();
    assert_eq!(header.buildings[0].room_ids, vec![0, 1, 99]);
    assert_eq!(header.rooms.len(), 2);
}

#[test]
fn magic_is_not_compared_with_any_tag() {
    let mut bytes = empty_header_bytes(0);
    bytes[0..4].copy_from_slice(b"zz\xC3\xA9");
    assert_eq!(decode(bytes).unwrap().magic, "zz\u{e9}");
}

#[test]
fn one_byte_in_excess_is_refused() {
    let mut bytes = full_header_bytes();
    bytes.push(0);
    assert_eq!(decode(bytes), Err(DecodeError::TrailingData));
    let mut empty = empty_header_bytes(0);
    empty.push(0x0A);
    assert_eq!(decode(empty), Err(DecodeError::TrailingData));
}

#[test]
fn many_bytes_in_excess_are_refused() {
    let mut bytes = full_header_bytes();
    bytes.extend_from_slice(&full_header_bytes());
    assert_eq!(decode(bytes), Err(DecodeError::TrailingData));
}

#[test]
fn header_cut_in_the_middle_of_a_field_is_refused_for_want_of_bytes() {
    let bytes = full_header_bytes();
    assert_eq!(decode(bytes[..2].to_vec()), Err(DecodeError::UnexpectedEof));
    assert_eq!(decode(bytes[..6].to_vec()), Err(DecodeError::UnexpectedEof));
    assert_eq!(decode(bytes[..10].to_vec()), Err(DecodeError::UnexpectedEof));
    assert_eq!(decode(bytes[..bytes.len() - 1].to_vec()), Err(DecodeError::UnexpectedEof));
    assert_eq!(decode(bytes[..bytes.len() - 1024].to_vec()), Err(DecodeError::UnexpectedEof));
    assert_eq!(decode(bytes[..bytes.len() - 500].to_vec()), Err(DecodeError::UnexpectedEof));
    assert_eq!(decode(Vec::new()), Err(DecodeError::UnexpectedEof));
}

#[test]
fn header_cut_inside_a_counted_block_is_refused_for_its_count() {
    let bytes = full_header_bytes();
    let kitchen = bytes.windows(7).position(|w| w == b"kitchen").unwrap();
    let inside_rectangles = kitchen + 8 + 4 + 4 + 20;
    assert_eq!(decode(bytes[..inside_rectangles].to_vec()), Err(DecodeError::MalformedCount));
}

#[test]
fn every_cut_of_a_header_is_refused() {
    let bytes = full_header_bytes();
    for kept in 0..bytes.len() {
        let outcome = decode(bytes[..kept].to_vec());
        assert!(
            outcome == Err(DecodeError::UnexpectedEof) || outcome == Err(DecodeError::MalformedCount),
            "kept {} bytes",
            kept
        );
    }
}

#[test]
fn negative_counts_are_refused() {
    for at in [8usize, 28, 32] {
        let mut bytes = empty_header_bytes(0);
        bytes[at..at + 4].copy_from_slice(&(-1i32).to_le_bytes());
        assert_eq!(decode(bytes), Err(DecodeError::MalformedCount), "count at {}", at);
    }
}

#[test]
fn counts_that_the_buffer_cannot_hold_are_refused() {
    let mut tiles = empty_header_bytes(0);
    tiles[8..12].copy_from_slice(&2000i32.to_le_bytes());
    assert_eq!(decode(tiles), Err(DecodeError::MalformedCount));

    let mut rooms = empty_header_bytes(0);
    rooms[28..32].copy_from_slice(&80i32.to_le_bytes());
    assert_eq!(decode(rooms), Err(DecodeError::MalformedCount));

    let mut buildings = empty_header_bytes(0);
    buildings[32..36].copy_from_slice(&i32::MAX.to_le_bytes());
    assert_eq!(decode(buildings), Err(DecodeError::MalformedCount));
}

#[test]
fn counts_that_the_buffer_could_hold_are_tried() {
    let mut bytes = Vec::new();
    bytes.extend_from_slice(b"LOTH");
    put_i32(&mut bytes, 1);
    put_i32(&mut bytes, 3);
    put_line(&mut bytes, "a");
    put_line(&mut bytes, "b");
    bytes.extend_from_slice(&[b'x'; 2000]);
    assert_eq!(decode(bytes), Err(DecodeError::UnexpectedEof));
}

#[test]
fn magic_that_is_not_text_is_refused() {
    let mut bytes = empty_header_bytes(0);
    bytes[1] = 0xFF;
    assert_eq!(decode(bytes), Err(DecodeError::InvalidText));
}

#[test]
fn names_that_are_not_text_are_refused() {
    let mut bytes = full_header_bytes();
    let floors = bytes.windows(6).position(|w| w == b"floors").unwrap();
    bytes[floors] = 0x80;
    assert_eq!(decode(bytes), Err(DecodeError::InvalidText));

    let mut room = full_header_bytes();
    let hall = room.windows(4).position(|w| w == b"hall").unwrap();
    room[hall + 3] = 0xC3;
    assert_eq!(decode(room), Err(DecodeError::InvalidText));
}

#[test]
fn from_bytes_starts_at_the_first_byte_and_ends_at_the_last() {
    let mut cursor = BytesCursor::new(full_header_bytes());
    assert_eq!(cursor.read_n_chars(4), Ok("LOTH".to_string()));
    assert_eq!(cursor.read_i32(), Ok(2));
    assert_eq!(cursor.position(), 8);
    assert_eq!(Lotheader::from_bytes(&mut cursor), Ok(full_header()));
    assert_eq!(cursor.remaining_len(), 0);
    assert_eq!(Lotheader::from_bytes(&mut cursor), Ok(full_header()));

    let mut bad = BytesCursor::new(vec![b'L', b'O', b'T', b'H', 1]);
    assert_eq!(Lotheader::from_bytes(&mut bad), Err(DecodeError::UnexpectedEof));
    assert_eq!(bad.position(), 5);
    assert_eq!(bad.into_inner(), vec![b'L', b'O', b'T', b'H', 1]);
}

#[test]
fn names_written_with_carriage_returns_are_read_as_asked() {
    let mut bytes = Vec::new();
    bytes.extend_from_slice(b"LOTH");
    put_i32(&mut bytes, 1);
    put_i32(&mut bytes, 1);
    bytes.extend_from_slice(b"tile\r\n");
    for v in [1, 2, 3, 4] {
        put_i32(&mut bytes, v);
    }
    put_i32(&mut bytes, 1);
    bytes.extend_from_slice(b"room\r\n");
    for v in [0, 0, 0] {
        put_i32(&mut bytes, v);
    }
    put_i32(&mut bytes, 0);
    bytes.extend_from_slice(&[0u8; 1024]);

    let kept = decode(bytes.clone()).unwrap();
    assert_eq!(kept.tile_names, vec!["tile\r".to_string()]);
    assert_eq!(kept.rooms[0].name, "room\r");
    assert_eq!(kept.to_bytes().unwrap(), bytes);

    let mut cursor = BytesCursor::trimming_carriage_returns(bytes);
    let trimmed = Lotheader::from_bytes(&mut cursor).unwrap();
    assert_eq!(trimmed.tile_names, vec!["tile".to_string()]);
    assert_eq!(trimmed.rooms[0].name, "room");
    assert_eq!(trimmed.max_layer, 5);
}

#[test]
fn a_name_with_a_line_feed_does_not_round_trip() {
    let mut header = full_header();
    header.tile_names = vec!["two\nlines".to_string()];
    let bytes = header.to_bytes().unwrap();
    assert!(decode(bytes) != Ok(header));
}

#[test]
fn counts_fit_for_headers_of_ordinary_size() {
    assert!(full_header().counts_fit());
    assert!(decode(empty_header_bytes(0)).unwrap().counts_fit());
}

#[test]
fn read_tilenames_reads_count_then_lines() {
    let mut bytes = Vec::new();
    put_i32(&mut bytes, 2);
    put_line(&mut bytes, "a");
    put_line(&mut bytes, "bc");
    bytes.push(9);
    let mut cursor = BytesCursor::new(bytes);
    assert_eq!(Lotheader::read_tilenames(&mut cursor), Ok(vec!["a".to_string(), "bc".to_string()]));
    assert_eq!(cursor.position(), 9);
}

#[test]
fn read_tilenames_leaves_the_cursor_on_failure() {
    let mut bytes = vec![7];
    put_i32(&mut bytes, 3);
    put_line(&mut bytes, "a");
    put_line(&mut bytes, "bc");
    bytes.extend_from_slice(b"unfinished");
    let mut cursor = BytesCursor::new(bytes);
    assert_eq!(cursor.read_n_chars(1), Ok("\u{7}".to_string()));
    assert_eq!(Lotheader::read_tilenames(&mut cursor), Err(DecodeError::UnexpectedEof));
    assert_eq!(cursor.position(), 1);
}

#[test]
fn read_rectangles_reads_records_of_16_bytes() {
    let mut bytes = Vec::new();
    put_i32(&mut bytes, 2);
    for v in [1, 2, 3, 4, -5, -6, 7, 8] {
        put_i32(&mut bytes, v);
    }
    bytes.extend_from_slice(&[1, 2, 3]);
    let mut cursor = BytesCursor::new(bytes);
    assert_eq!(
        Lotheader::read_rectangles(&mut cursor),
        Ok(vec![
            Rectangle { x: 1, y: 2, width: 3, heigth: 4 },
            Rectangle { x: -5, y: -6, width: 7, heigth: 8 },
        ])
    );
    assert_eq!(cursor.position(), 36);
    assert_eq!(Lotheader::read_rectangles(&mut cursor), Err(DecodeError::UnexpectedEof));
    assert_eq!(cursor.position(), 36);
}

#[test]
fn read_rectangles_refuses_a_block_that_is_cut() {
    let mut bytes = Vec::new();
    put_i32(&mut bytes, 1);
    bytes.extend_from_slice(&[0u8; 15]);
    let mut cursor = BytesCursor::new(bytes);
    assert_eq!(Lotheader::read_rectangles(&mut cursor), Err(DecodeError::MalformedCount));
    assert_eq!(cursor.position(), 0);
}

#[test]
fn read_room_objects_reads_records_of_12_bytes() {
    let mut bytes = Vec::new();
    put_i32(&mut bytes, 2);
    for v in [1, 2, 3, -4, 5, 6] {
        put_i32(&mut bytes, v);
    }
    let mut cursor = BytesCursor::new(bytes);
    assert_eq!(
        Lotheader::read_room_objects(&mut cursor),
        Ok(vec![RoomObject { room_type: 1, x: 2, y: 3 }, RoomObject { room_type: -4, x: 5, y: 6 }])
    );
    assert_eq!(cursor.remaining_len(), 0);

    let mut cut = Vec::new();
    put_i32(&mut cut, 1);
    cut.extend_from_slice(&[0u8; 11]);
    assert_eq!(
        Lotheader::read_room_objects(&mut BytesCursor::new(cut)),
        Err(DecodeError::MalformedCount)
    );
}

#[test]
fn read_room_gives_the_id_asked_for() {
    let mut bytes = Vec::new();
    put_line(&mut bytes, "den");
    put_i32(&mut bytes, 3);
    put_i32(&mut bytes, 1);
    for v in [0, 0, 6, 7] {
        put_i32(&mut bytes, v);
    }
    put_i32(&mut bytes, 0);
    let mut cursor = BytesCursor::new(bytes.clone());
    assert_eq!(
        Lotheader::read_room(&mut cursor, 12),
        Ok(Room {
            id: 12,
            name: "den".to_string(),
            layer: 3,
            area: 42,
            rectangles: vec![Rectangle { x: 0, y: 0, width: 6, heigth: 7 }],
            room_objects: Vec::new(),
        })
    );
    assert_eq!(cursor.remaining_len(), 0);

    bytes.truncate(bytes.len() - 2);
    let mut cut = BytesCursor::new(bytes);
    assert_eq!(Lotheader::read_room(&mut cut, 0), Err(DecodeError::UnexpectedEof));
    assert_eq!(cut.position(), 0);
}

#[test]
fn read_rooms_and_buildings_leave_the_cursor_on_failure() {
    let mut rooms = Vec::new();
    put_i32(&mut rooms, 1);
    rooms.extend_from_slice(b"no line feed in thirteen bytes");
    let mut cursor = BytesCursor::new(rooms);
    assert_eq!(Lotheader::read_rooms(&mut cursor), Err(DecodeError::UnexpectedEof));
    assert_eq!(cursor.position(), 0);

    let mut buildings = Vec::new();
    put_i32(&mut buildings, 2);
    put_i32(&mut buildings, 1);
    put_i32(&mut buildings, 5);
    put_i32(&mut buildings, 3);
    put_i32(&mut buildings, 5);
    let mut cursor = BytesCursor::new(buildings);
    assert_eq!(Lotheader::read_buildings(&mut cursor), Err(DecodeError::MalformedCount));
    assert_eq!(cursor.position(), 0);
}

#[test]
fn read_building_reads_references_of_4_bytes() {
    let mut bytes = Vec::new();
    put_i32(&mut bytes, 3);
    for v in [5, -1, 1000] {
        put_i32(&mut bytes, v);
    }
    let mut cursor = BytesCursor::new(bytes);
    assert_eq!(
        Lotheader::read_building(&mut cursor, 4),
        Ok(Building { id: 4, room_ids: vec![5, -1, 1000] })
    );
}

#[test]
fn read_extent_adds_one_to_the_stated_max_layer() {
    let mut bytes = Vec::new();
    for v in [10, 20, -3, 5] {
        put_i32(&mut bytes, v);
    }
    let mut cursor = BytesCursor::new(bytes.clone());
    let extent = Lotheader::read_extent(&mut cursor).unwrap();
    assert_eq!((extent.width, extent.height, extent.min_layer, extent.max_layer), (10, 20, -3, 6));
    assert_eq!(cursor.position(), 16);

    bytes.pop();
    let mut cut = BytesCursor::new(bytes);
    assert!(Lotheader::read_extent(&mut cut).is_err());
    assert_eq!(cut.position(), 0);
}

#[test]
fn read_spawns_takes_1024_bytes_as_they_are() {
    let mut bytes = spawn_grid().to_vec();
    bytes.push(77);
    let mut cursor = BytesCursor::new(bytes);
    assert_eq!(Lotheader::read_spawns(&mut cursor), Ok(spawn_grid()));
    assert_eq!(cursor.position(), 1024);
    assert_eq!(Lotheader::read_spawns(&mut cursor), Err(DecodeError::UnexpectedEof));
    assert_eq!(cursor.position(), 1024);
}

#[test]
fn read_header_may_leave_bytes() {
    let mut bytes = full_header_bytes();
    let len = bytes.len();
    bytes.extend_from_slice(&[1, 2, 3]);
    let mut cursor = BytesCursor::new(bytes);
    assert_eq!(Lotheader::read_header(&mut cursor), Ok(full_header()));
    assert_eq!(cursor.position(), len);
}

#[test]
fn writers_append_to_what_the_buffer_holds() {
    let header = full_header();
    let mut buffer: Vec<u8> = vec![0xAB];
    assert_eq!(header.write_tiles_def(&mut buffer), Ok(()));
    let mut expected = vec![0xAB];
    put_i32(&mut expected, 3);
    put_line(&mut expected, "floors_01_0");
    put_line(&mut expected, "");
    put_line(&mut expected, "caf\u{e9}_02");
    assert_eq!(buffer, expected);

    let mut buildings: Vec<u8> = Vec::new();
    assert_eq!(header.write_buildings(&mut buildings), Ok(()));
    let mut expected = Vec::new();
    for v in [2, 3, 0, 1, 99, 0] {
        put_i32(&mut expected, v);
    }
    assert_eq!(buildings, expected);

    let mut spawns: Vec<u8> = vec![1];
    header.write_spawns(&mut spawns);
    assert_eq!(spawns.len(), 1025);
    assert_eq!(&spawns[1..], &spawn_grid()[..]);
}

#[test]
fn write_rooms_writes_neither_ids_nor_areas() {
    let header = full_header();
    let mut buffer: Vec<u8> = Vec::new();
    assert_eq!(header.write_rooms(&mut buffer), Ok(()));
    let mut expected = Vec::new();
    put_i32(&mut expected, 2);
    put_line(&mut expected, "kitchen");
    for v in [0, 2, 0, 0, 10, 5, 0, 0, 3, 4, 1, 7, 1, 2] {
        put_i32(&mut expected, v);
    }
    put_line(&mut expected, "hall");
    for v in [-1, 0, 0] {
        put_i32(&mut expected, v);
    }
    assert_eq!(buffer, expected);
}
