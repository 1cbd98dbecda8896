use slimeball_lib::palette::width_for;
use slimeball_lib::{BlockState, Error, PalettedContainer};

fn block(name: &str) -> BlockState {
    BlockState { name: name.to_string(), properties: Vec::new() }
}

fn names(count: usize) -> Vec<BlockState> {
    (0..count).map(|i| block(&format!("block{}", i))).collect()
}

#[test]
fn single_entry_palette_answers_every_position() {
    let container: PalettedContainer<4096, BlockState> =
        PalettedContainer { palette: vec![block("minecraft:air")], data: None };
    for index in 0..4096 {
        assert_eq!(container.get(index).unwrap().name, "minecraft:air");
    }
}

#[test]
fn single_entry_palette_does_not_look_at_index_data() {
    let container: PalettedContainer<4096, BlockState> = PalettedContainer {
        palette: vec![block("minecraft:stone")],
        data: Some(vec![-1, 0x7FFF_FFFF_FFFF_FFFF, 12345]),
    };
    for index in 0..4096 {
        assert_eq!(container.get(index).unwrap().name, "minecraft:stone");
    }
    let empty_data: PalettedContainer<4096, BlockState> =
        PalettedContainer { palette: vec![block("minecraft:stone")], data: Some(Vec::new()) };
    assert_eq!(empty_data.get(4095).unwrap().name, "minecraft:stone");
}

#[test]
fn position_at_capacity_is_out_of_range() {
    let single: PalettedContainer<4096, BlockState> =
        PalettedContainer { palette: vec![block("minecraft:air")], data: None };
    assert_eq!(single.get(4096).unwrap_err(), Error::IndexOutOfRange(4096, 4096));
    assert_eq!(
        single.get(usize::MAX).unwrap_err(),
        Error::IndexOutOfRange(usize::MAX, 4096)
    );
    let small: PalettedContainer<8, BlockState> =
        PalettedContainer { palette: names(2), data: Some(vec![0]) };
    assert!(small.get(7).is_ok());
    assert_eq!(small.get(8).unwrap_err(), Error::IndexOutOfRange(8, 8));
}

#[test]
fn index_width_is_the_bit_length_of_the_largest_index() {
    assert_eq!(width_for(0), 0);
    assert_eq!(width_for(1), 0);
    assert_eq!(width_for(2), 1);
    assert_eq!(width_for(3), 2);
    assert_eq!(width_for(4), 2);
    assert_eq!(width_for(5), 3);
    assert_eq!(width_for(8), 3);
    assert_eq!(width_for(9), 4);
    assert_eq!(width_for(16), 4);
    assert_eq!(width_for(17), 5);
    assert_eq!(width_for(256), 8);
    assert_eq!(width_for(257), 9);
    assert_eq!(width_for(4096), 12);
}

#[test]
fn five_entry_palette_unpacks_three_bit_indices() {
    // Width 3, so 21 indices a word, the first in bits 60 to 62 and the last in
    // bits 0 to 2; bit 63 is padding.
    //   1 << 60 | 2 << 57 | 3 << 54 | 4 << 51, and 2 in the lowest group.
    let first: i64 = 0x14E0_0000_0000_0002;
    //   4 << 60 | 1 << 57, the padding bit set as well.
    let second: i64 = 0xC200_0000_0000_0000u64 as i64;
    let container: PalettedContainer<4096, BlockState> =
        PalettedContainer { palette: names(5), data: Some(vec![first, second]) };
    let mut expected: Vec<usize> = vec![1, 2, 3, 4];
    expected.extend(std::iter::repeat(0).take(16));
    expected.push(2);
    expected.push(4);
    expected.push(1);
    expected.extend(std::iter::repeat(0).take(19));
    assert_eq!(expected.len(), 42);
    let decoded: Vec<String> =
        (0..42).map(|index| container.get(index).unwrap().name.clone()).collect();
    let wanted: Vec<String> = expected.iter().map(|i| format!("block{}", i)).collect();
    assert_eq!(decoded, wanted);
}

#[test]
fn two_entry_palette_reads_one_bit_from_the_top_down() {
    // Width 1: 64 indices a word, position 0 in the highest bit.
    let word: i64 = 0xA000_0000_0000_0001u64 as i64;
    let container: PalettedContainer<64, BlockState> =
        PalettedContainer { palette: names(2), data: Some(vec![word]) };
    assert_eq!(container.get(0).unwrap().name, "block1");
    assert_eq!(container.get(1).unwrap().name, "block0");
    assert_eq!(container.get(2).unwrap().name, "block1");
    assert_eq!(container.get(3).unwrap().name, "block0");
    assert_eq!(container.get(62).unwrap().name, "block0");
    assert_eq!(container.get(63).unwrap().name, "block1");
}

#[test]
fn sixteen_entry_palette_fills_the_word_without_padding() {
    let word: i64 = 0x0123_4567_89AB_CDEF;
    let container: PalettedContainer<16, BlockState> =
        PalettedContainer { palette: names(16), data: Some(vec![word]) };
    for index in 0..16 {
        assert_eq!(container.get(index).unwrap().name, format!("block{}", index));
    }
}

#[test]
fn all_bits_set_reads_as_the_largest_index() {
    let container: PalettedContainer<128, BlockState> =
        PalettedContainer { palette: names(4), data: Some(vec![-1, -1, -1, -1]) };
    for index in 0..128 {
        assert_eq!(container.get(index).unwrap().name, "block3");
    }
}

#[test]
fn missing_index_data_is_reported() {
    let none: PalettedContainer<4096, BlockState> =
        PalettedContainer { palette: names(2), data: None };
    assert_eq!(none.get(0).unwrap_err(), Error::MissingIndexData(0));
    assert_eq!(none.get(130).unwrap_err(), Error::MissingIndexData(2));
    let short: PalettedContainer<4096, BlockState> =
        PalettedContainer { palette: names(2), data: Some(vec![0]) };
    assert!(short.get(63).is_ok());
    assert_eq!(short.get(64).unwrap_err(), Error::MissingIndexData(1));
}

#[test]
fn stored_index_past_the_palette_is_reported() {
    // Three entries take two bits; the group 0b11 names no entry.
    let word: i64 = 0x6000_0000_0000_0000;
    let container: PalettedContainer<4096, BlockState> =
        PalettedContainer { palette: names(3), data: Some(vec![word]) };
    assert_eq!(container.get(0).unwrap().name, "block1");
    assert_eq!(container.get(1).unwrap().name, "block2");
    let corrupt: PalettedContainer<4096, BlockState> = PalettedContainer {
        palette: names(3),
        data: Some(vec![0xC000_0000_0000_0000u64 as i64]),
    };
    assert_eq!(corrupt.get(0).unwrap_err(), Error::PaletteIndexOutOfRange(3, 3));
    assert_eq!(corrupt.get(1).unwrap().name, "block0");
}

#[test]
fn empty_palette_has_no_entry() {
    let container: PalettedContainer<4096, BlockState> =
        PalettedContainer { palette: Vec::new(), data: Some(vec![0]) };
    assert_eq!(container.get(0).unwrap_err(), Error::PaletteIndexOutOfRange(0, 0));
}

#[test]
fn property_lookup_takes_the_first_occurrence() {
    let state = BlockState {
        name: "minecraft:oak_log".to_string(),
        properties: vec![
            ("axis".to_string(), "y".to_string()),
            ("waterlogged".to_string(), "false".to_string()),
            ("axis".to_string(), "x".to_string()),
        ],
    };
    assert_eq!(state.property("axis").map(|s| s.as_str()), Some("y"));
    assert_eq!(state.property("waterlogged").map(|s| s.as_str()), Some("false"));
    assert_eq!(state.property("facing"), None);
}
