use wad_sprites::cursor::ByteCursor;
use wad_sprites::error::WadError;

#[test]
fn reads_advance_the_position() {
    let bytes = [0x01u8, 0x34, 0x12, 0x78, 0x56, 0x34, 0x12, 0xff, 0xff];
    let mut c = ByteCursor::new(&bytes);
    assert_eq!(c.read_u8(), Ok(0x01));
    assert_eq!(c.pos(), 1);
    assert_eq!(c.read_u16(), Ok(0x1234));
    assert_eq!(c.pos(), 3);
    assert_eq!(c.read_u32(), Ok(0x12345678));
    assert_eq!(c.pos(), 7);
    assert_eq!(c.read_i16(), Ok(-1));
    assert_eq!(c.pos(), 9);
    assert_eq!(c.read_u8(), Err(WadError::Truncated));
    assert_eq!(c.pos(), 9);
}

#[test]
fn little_endian_values_are_exact() {
    let bytes = [0xffu8, 0xff, 0x00, 0x80, 0xff, 0x7f, 0xff, 0xff, 0xff, 0xff, 0x01, 0x00, 0x00, 0x00];
    let mut c = ByteCursor::new(&bytes);
    assert_eq!(c.read_u16(), Ok(65535));
    assert_eq!(c.read_i16(), Ok(-32768));
    assert_eq!(c.read_i16(), Ok(32767));
    assert_eq!(c.read_u32(), Ok(4294967295));
    assert_eq!(c.read_u32(), Ok(1));
}

#[test]
fn seek_accepts_the_end_and_refuses_beyond() {
    let bytes = [1u8, 2, 3];
    let mut c = ByteCursor::new(&bytes);
    assert_eq!(c.seek(3), Ok(()));
    assert_eq!(c.pos(), 3);
    assert_eq!(c.read_u8(), Err(WadError::Truncated));
    assert_eq!(c.seek(4), Err(WadError::OutOfRange));
    assert_eq!(c.pos(), 3);
    assert_eq!(c.seek(1), Ok(()));
    assert_eq!(c.read_u8(), Ok(2));
    assert_eq!(c.seek(u64::MAX), Err(WadError::OutOfRange));
}

#[test]
fn a_short_read_leaves_the_position() {
    let bytes = [1u8, 2, 3];
    let mut c = ByteCursor::new(&bytes);
    assert_eq!(c.read_u8(), Ok(1));
    assert_eq!(c.read_u32(), Err(WadError::Truncated));
    assert_eq!(c.pos(), 1);
    assert_eq!(c.read_u16(), Ok(0x0302));
    assert_eq!(c.read_u16(), Err(WadError::Truncated));
    assert_eq!(c.read_i16(), Err(WadError::Truncated));
    assert_eq!(c.pos(), 3);
}

#[test]
fn read_bytes_borrows_the_next_bytes() {
    let bytes = [10u8, 20, 30, 40, 50];
    let mut c = ByteCursor::new(&bytes);
    assert_eq!(c.read_u8(), Ok(10));
    assert_eq!(c.read_bytes(3), Ok(&bytes[1..4]));
    assert_eq!(c.pos(), 4);
    assert_eq!(c.read_bytes(2), Err(WadError::Truncated));
    assert_eq!(c.pos(), 4);
    assert_eq!(c.read_bytes(0), Ok(&bytes[4..4]));
    assert_eq!(c.read_bytes(1), Ok(&bytes[4..5]));
    assert_eq!(c.read_bytes(0), Ok(&bytes[5..5]));
}

#[test]
fn an_empty_buffer_has_nothing_to_read() {
    let bytes: [u8; 0] = [];
    let mut c = ByteCursor::new(&bytes);
    assert_eq!(c.pos(), 0);
    assert_eq!(c.seek(0), Ok(()));
    assert_eq!(c.read_u8(), Err(WadError::Truncated));
    assert_eq!(c.seek(1), Err(WadError::OutOfRange));
}
