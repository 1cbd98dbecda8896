use slimeball_lib::{chunk_coord, index_to_coord};

#[test]
fn positions_run_along_x_then_z_then_up() {
    assert_eq!(index_to_coord(0), (0, 0, 0));
    assert_eq!(index_to_coord(1), (1, 0, 0));
    assert_eq!(index_to_coord(15), (15, 0, 0));
    assert_eq!(index_to_coord(16), (0, 0, 1));
    assert_eq!(index_to_coord(255), (15, 0, 15));
    assert_eq!(index_to_coord(256), (0, 1, 0));
    assert_eq!(index_to_coord(4095), (15, 15, 15));
    assert_eq!(index_to_coord(2 * 256 + 3 * 16 + 4), (4, 2, 3));
}

#[test]
fn every_position_of_a_section_comes_back_from_its_coordinates() {
    for i in 0..4096 {
        let (x, y, z) = index_to_coord(i);
        assert!(x < 16 && y < 16 && z < 16);
        assert_eq!(y * 256 + z * 16 + x, i);
    }
}

#[test]
fn sections_stand_sixteen_blocks_apart() {
    assert_eq!(chunk_coord(0, 0), (0, 0, 0));
    assert_eq!(chunk_coord(0, 4095), (15, 15, 15));
    assert_eq!(chunk_coord(1, 0), (0, 16, 0));
    assert_eq!(chunk_coord(3, 256 + 16 + 1), (1, 49, 1));
    assert_eq!(chunk_coord(23, 4095), (15, 383, 15));
}
