use slimeball_lib::wire::{read_block, read_exact, read_i32, read_length, read_u16, read_u8};
use slimeball_lib::Error;

#[test]
fn single_bytes_are_read_in_place() {
    let buf = [7u8, 200, 0];
    assert_eq!(read_u8(&buf, 0).unwrap(), (7, 1));
    assert_eq!(read_u8(&buf, 1).unwrap(), (200, 2));
    assert_eq!(read_u8(&buf, 2).unwrap(), (0, 3));
    assert_eq!(read_u8(&buf, 3).unwrap_err(), Error::UnexpectedEof);
    assert_eq!(read_u8(&buf, 100).unwrap_err(), Error::UnexpectedEof);
}

#[test]
fn sixteen_bit_values_are_big_endian() {
    let buf = [0xB1u8, 0x0B, 0x00, 0x01, 0xFF];
    assert_eq!(read_u16(&buf, 0).unwrap(), (0xB10B, 2));
    assert_eq!(read_u16(&buf, 1).unwrap(), (0x0B00, 3));
    assert_eq!(read_u16(&buf, 2).unwrap(), (1, 4));
    assert_eq!(read_u16(&buf, 3).unwrap(), (0x01FF, 5));
    assert_eq!(read_u16(&buf, 4).unwrap_err(), Error::UnexpectedEof);
}

#[test]
fn thirty_two_bit_values_are_big_endian_and_signed() {
    let buf = [0x00u8, 0x00, 0x01, 0x02, 0xFF, 0xFF, 0xFF, 0xFE, 0x80, 0x00, 0x00, 0x00];
    assert_eq!(read_i32(&buf, 0).unwrap(), (258, 4));
    assert_eq!(read_i32(&buf, 4).unwrap(), (-2, 8));
    assert_eq!(read_i32(&buf, 8).unwrap(), (i32::MIN, 12));
    assert_eq!(read_i32(&buf, 2).unwrap(), (0x0102_FFFF, 6));
    assert_eq!(read_i32(&buf, 9).unwrap_err(), Error::UnexpectedEof);
    let max = [0x7Fu8, 0xFF, 0xFF, 0xFF];
    assert_eq!(read_i32(&max, 0).unwrap(), (i32::MAX, 4));
}

#[test]
fn negative_length_is_refused() {
    let buf = [0xFFu8, 0xFF, 0xFF, 0xFF, 0x00, 0x00, 0x00, 0x05];
    assert_eq!(read_length(&buf, 0).unwrap_err(), Error::InvalidLength(-1));
    assert_eq!(read_length(&buf, 4).unwrap(), (5, 8));
    assert_eq!(read_length(&buf, 5).unwrap_err(), Error::UnexpectedEof);
}

#[test]
fn exact_reads_need_every_byte() {
    let buf = [1u8, 2, 3, 4, 5];
    assert_eq!(read_exact(&buf, 1, 3).unwrap(), (&buf[1..4], 4));
    assert_eq!(read_exact(&buf, 0, 5).unwrap(), (&buf[..], 5));
    assert_eq!(read_exact(&buf, 5, 0).unwrap(), (&buf[5..], 5));
    assert_eq!(read_exact(&buf, 3, 3).unwrap_err(), Error::UnexpectedEof);
    assert_eq!(read_exact(&buf, 6, 0).unwrap_err(), Error::UnexpectedEof);
    assert_eq!(read_exact(&buf, 2, usize::MAX).unwrap_err(), Error::UnexpectedEof);
}

#[test]
fn blocks_are_length_prefixed() {
    let buf = [0u8, 0, 0, 3, 10, 20, 30, 0, 0, 0, 0, 0, 0, 0, 2, 9];
    let (first, next) = read_block(&buf, 0).unwrap();
    assert_eq!(first, &[10u8, 20, 30][..]);
    assert_eq!(next, 7);
    let (empty, next) = read_block(&buf, 7).unwrap();
    assert!(empty.is_empty());
    assert_eq!(next, 11);
    assert_eq!(read_block(&buf, 11).unwrap_err(), Error::UnexpectedEof);
    assert_eq!(read_block(&buf, 14).unwrap_err(), Error::UnexpectedEof);
    let negative = [0x80u8, 0, 0, 0, 1, 2];
    assert_eq!(read_block(&negative, 0).unwrap_err(), Error::InvalidLength(i32::MIN));
}
