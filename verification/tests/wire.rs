use dnh_extract::report::ExtractError;
use dnh_extract::wire::{bytes_eq, ByteReader};

#[test]
fn integers_are_little_endian() {
    let data = [0x01u8, 0x02, 0x03, 0x04, 0x34, 0x12, 0xff];
    let mut reader = ByteReader::new(&data);
    assert_eq!(reader.read_u32(), Ok(0x0403_0201));
    assert_eq!(reader.read_u16(), Ok(0x1234));
    assert_eq!(reader.read_u8(), Ok(0xff));
    assert_eq!(reader.read_u8(), Err(ExtractError::UnexpectedEof));
}

#[test]
fn largest_integers_are_read() {
    let data = [0xffu8, 0xff, 0xff, 0xff, 0xff, 0xff, 0x00, 0x00, 0x00, 0x80];
    let mut reader = ByteReader::new(&data);
    assert_eq!(reader.read_u32(), Ok(u32::MAX));
    assert_eq!(reader.read_u16(), Ok(u16::MAX));
    assert_eq!(reader.read_u32(), Ok(0x8000_0000));
}

#[test]
fn short_reads_fail_and_read_nothing() {
    let data = [1u8, 2, 3];
    let mut reader = ByteReader::new(&data);
    assert_eq!(reader.read_u32(), Err(ExtractError::UnexpectedEof));
    assert_eq!(reader.read_exact(4), Err(ExtractError::UnexpectedEof));
    assert_eq!(reader.read_u16(), Ok(0x0201));
    assert_eq!(reader.read_u16(), Err(ExtractError::UnexpectedEof));
    assert_eq!(reader.read_exact(1), Ok(&[3u8][..]));
    assert_eq!(reader.read_exact(0), Ok(&[][..]));
}

#[test]
fn seek_moves_the_cursor() {
    let data = [10u8, 11, 12, 13];
    let mut reader = ByteReader::new(&data);
    reader.seek(2);
    assert_eq!(reader.read_u8(), Ok(12));
    reader.seek(0);
    assert_eq!(reader.read_u8(), Ok(10));
    reader.seek(4);
    assert_eq!(reader.read_u8(), Err(ExtractError::UnexpectedEof));
    reader.seek(u64::MAX);
    assert_eq!(reader.read_u8(), Err(ExtractError::UnexpectedEof));
    assert_eq!(reader.take(5), &[][..]);
}

#[test]
fn take_is_bounded_and_leaves_the_cursor() {
    let data = [1u8, 2, 3, 4, 5];
    let mut reader = ByteReader::new(&data);
    reader.seek(1);
    assert_eq!(reader.take(2), &[2u8, 3][..]);
    assert_eq!(reader.take(4), &[2u8, 3, 4, 5][..]);
    assert_eq!(reader.take(100), &[2u8, 3, 4, 5][..]);
    assert_eq!(reader.take(0), &[][..]);
    assert_eq!(reader.read_u8(), Ok(2));
}

#[test]
fn read_yields_pieces_in_order() {
    let data = [1u8, 2, 3, 4, 5];
    let mut reader = ByteReader::new(&data);
    assert_eq!(reader.read(2), &[1u8, 2][..]);
    assert_eq!(reader.read(0), &[][..]);
    assert_eq!(reader.read(2), &[3u8, 4][..]);
    assert_eq!(reader.read(2), &[5u8][..]);
    assert_eq!(reader.read(2), &[][..]);
}

#[test]
fn byte_slices_are_compared() {
    assert!(bytes_eq(b"", b""));
    assert!(bytes_eq(b"abc", b"abc"));
    assert!(!bytes_eq(b"abc", b"abd"));
    assert!(!bytes_eq(b"abc", b"ab"));
    assert!(!bytes_eq(b"", b"a"));
}
