use lotheader::cell_coord::CellCoord;

#[test]
fn test_cellcoord_bounds() {
    let coords: [(u16, u16, u16, i8); 7] = [
        (0, 0, 0, -32),
        (1023, 300, 300, 32),
        (512, 150, 150, -5),
        (0, 0, 0, 32),
        (1023, 0, 0, -32),
        (0, 300, 300, 0),
        (1023, 300, 300, -32),
    ];

    for &(chunk, x, y, z) in &coords {
        let coord = CellCoord::new(chunk, x, y, z);

        assert_eq!(coord.chunk_idx(), chunk);
        assert_eq!(coord.x(), x);
        assert_eq!(coord.y(), y);
        assert_eq!(coord.z(), z);

        let (c_chunk, c_x, c_y, c_z) = coord.unpack();
        assert_eq!(chunk, c_chunk);
        assert_eq!(x, c_x);
        assert_eq!(y, c_y);
        assert_eq!(z, c_z);
    }
}

#[test]
fn cellcoord_round_trips_at_the_corners_of_the_ranges() {
    for &chunk in &[0u16, 1, 511, 1023] {
        for &x in &[0u16, 1, 255, 511] {
            for &y in &[0u16, 1, 256, 511] {
                for z in -32i8..=32 {
                    let coord = CellCoord::new(chunk, x, y, z);
                    assert_eq!(coord.unpack(), (chunk, x, y, z));
                }
            }
        }
    }
}

#[test]
fn cellcoord_z_round_trips_over_its_whole_field() {
    for z in -32i8..=95 {
        assert_eq!(CellCoord::new(7, 8, 9, z).z(), z);
    }
}

#[test]
fn cellcoord_chunk_index_wraps_at_1024() {
    assert!(CellCoord::new(1024, 17, 33, 5) == CellCoord::new(0, 17, 33, 5));
    assert!(CellCoord::new(1025, 17, 33, 5) == CellCoord::new(1, 17, 33, 5));
    assert_eq!(CellCoord::new(1024, 17, 33, 5).chunk_idx(), 0);
    assert_eq!(CellCoord::new(65535, 0, 0, 0).chunk_idx(), 1023);
}

#[test]
fn cellcoord_x_and_y_wrap_at_512() {
    assert!(CellCoord::new(3, 512, 33, 5) == CellCoord::new(3, 0, 33, 5));
    assert!(CellCoord::new(3, 17, 512, 5) == CellCoord::new(3, 17, 0, 5));
    assert_eq!(CellCoord::new(3, 513, 33, 5).x(), 1);
    assert_eq!(CellCoord::new(3, 17, 1023, 5).y(), 511);
    assert_eq!(CellCoord::new(3, 513, 1023, 5).chunk_idx(), 3);
}

#[test]
fn cellcoord_z_wraps_at_128() {
    assert!(CellCoord::new(3, 17, 33, -33) == CellCoord::new(3, 17, 33, 95));
    assert_eq!(CellCoord::new(3, 17, 33, -33).z(), 95);
    assert_eq!(CellCoord::new(3, 17, 33, 96).z(), -32);
    assert_eq!(CellCoord::new(3, 17, 33, 127).z(), -1);
    assert_eq!(CellCoord::new(3, 17, 33, -128).z(), 0);
    assert_eq!(CellCoord::new(3, 17, 33, 33).z(), 33);
    assert_eq!(CellCoord::new(3, 17, 33, 127).unpack(), (3, 17, 33, -1));
}

#[test]
fn cellcoord_distinct_positions_differ() {
    assert!(CellCoord::new(1, 2, 3, 4) != CellCoord::new(1, 2, 3, 5));
    assert!(CellCoord::new(1, 2, 3, 4) != CellCoord::new(1, 2, 4, 4));
    assert!(CellCoord::new(1, 2, 3, 4) != CellCoord::new(1, 3, 3, 4));
    assert!(CellCoord::new(1, 2, 3, 4) != CellCoord::new(2, 2, 3, 4));
}

#[test]
fn cellcoord_is_a_copyable_hashable_key() {
    let mut set = std::collections::HashSet::new();
    let a = CellCoord::new(1, 2, 3, 4);
    let b = a;
    set.insert(a);
    set.insert(b);
    set.insert(CellCoord::new(1025, 514, 515, 4));
    set.insert(CellCoord::new(9, 9, 9, 9));
    assert_eq!(set.len(), 2);
}
