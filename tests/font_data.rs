use font_tables::font_data::{FontData, Offset16, Offset32, ReadError, ResolveOffset};
use font_tables::glyf::Glyph;
use font_tables::scalar::GlyphId;

#[test]
fn read_scalars_big_endian() {
    let bytes = [0x12u8, 0x34, 0xFF, 0xFE, 0x80];
    let data = FontData::new(&bytes);
    assert_eq!(data.read_at::<u16>(0), Ok(0x1234));
    assert_eq!(data.read_at::<i16>(2), Ok(-2));
    assert_eq!(data.read_at::<u8>(4), Ok(0x80));
    assert_eq!(data.read_at::<i8>(4), Ok(-128));
    assert_eq!(data.read_at::<u32>(0), Ok(0x1234_FFFE));
    assert_eq!(data.read_at::<GlyphId>(1), Ok(GlyphId::new(0x34FF)));
}

#[test]
fn short_region_reads_fail() {
    let bytes = [0xAAu8];
    let data = FontData::new(&bytes);
    assert_eq!(data.read_at::<u16>(0), Err(ReadError::OutOfBounds));
    assert_eq!(data.read_at::<u16>(1), Err(ReadError::OutOfBounds));
    assert_eq!(data.read_at::<u32>(0), Err(ReadError::OutOfBounds));
    assert_eq!(data.read_at::<i16>(0), Err(ReadError::OutOfBounds));
    let bytes = [1u8, 2, 3];
    let data = FontData::new(&bytes);
    assert_eq!(data.read_at::<u32>(0), Err(ReadError::OutOfBounds));
    assert_eq!(data.read_at::<u16>(2), Err(ReadError::OutOfBounds));
    assert_eq!(data.read_at::<u16>(usize::MAX), Err(ReadError::OutOfBounds));
}

#[test]
fn split_off_views() {
    let bytes = [1u8, 2, 3, 4];
    let data = FontData::new(&bytes);
    let tail = data.split_off(1).unwrap();
    assert_eq!(tail.as_bytes(), &[2, 3, 4]);
    assert_eq!(tail.read_at::<u8>(0), Ok(2));
    assert_eq!(data.split_off(4).unwrap().len(), 0);
    assert!(data.split_off(5).is_none());
    assert!(data.check_in_bounds(4).is_ok());
    assert_eq!(data.check_in_bounds(5), Err(ReadError::OutOfBounds));
}

#[test]
fn read_at_with_hands_over_the_tail() {
    let bytes = [5u8, 6, 7];
    let data = FontData::new(&bytes);
    let r = data.read_at_with(1, |b: &[u8]| Ok(b.len()));
    assert_eq!(r, Ok(2));
    let r = data.read_at_with(4, |b: &[u8]| Ok(b.len()));
    assert_eq!(r, Err(ReadError::OutOfBounds));
}

#[test]
fn read_array_checks_range_and_length() {
    let bytes = [0u8, 1, 0, 2, 0, 3, 9];
    let data = FontData::new(&bytes);
    let arr = data.read_array::<u16>(0..6).unwrap();
    assert_eq!(arr.len(), 3);
    assert_eq!(arr.get(0), Some(1));
    assert_eq!(arr.get(2), Some(3));
    assert_eq!(arr.get(3), None);
    assert!(matches!(data.read_array::<u16>(0..5), Err(ReadError::InvalidArrayLen)));
    assert!(matches!(data.read_array::<u16>(2..10), Err(ReadError::OutOfBounds)));
    #[allow(clippy::reversed_empty_ranges)]
    let reversed = 4..2;
    assert!(matches!(data.read_array::<u16>(reversed), Err(ReadError::OutOfBounds)));
}

#[test]
fn cursor_reads_validates_and_finishes() {
    let bytes = [0u8, 1, 0, 7, 0xFF];
    let data = FontData::new(&bytes);
    let mut cursor = data.cursor();
    assert_eq!(cursor.read_validate::<u16, _>(|v: &u16| *v == 1), Ok(1));
    assert_eq!(
        cursor.read_validate::<u16, _>(|v: &u16| *v == 1),
        Err(ReadError::ValidationError)
    );
    assert_eq!(cursor.position(), Ok(4));
    assert_eq!(cursor.read::<u16>(), Err(ReadError::OutOfBounds));
    assert_eq!(cursor.position(), Err(ReadError::OutOfBounds));
    assert!(matches!(cursor.finish(()), Err(ReadError::OutOfBounds)));

    let mut cursor = data.cursor();
    cursor.advance::<u16>();
    cursor.advance_by(2);
    assert_eq!(cursor.read::<u8>(), Ok(0xFF));
    let table = cursor.finish(42u8).ok().unwrap();
    assert_eq!(table.shape, 42);
}

/// A table with an offset to a simple glyph with one contour of one point.
fn table_with_glyph() -> Vec<u8> {
    let mut bytes = vec![0u8, 4, 0, 0];
    bytes.extend_from_slice(&[0, 1, 0, 1, 0, 2, 0, 3, 0, 4]);
    bytes.extend_from_slice(&[0, 0, 0, 0, 0x31]);
    bytes
}

#[test]
fn offsets_resolve_against_their_table() {
    let bytes = table_with_glyph();
    let data = FontData::new(&bytes);
    let mut cursor = data.cursor();
    let offset = cursor.read::<u16>().unwrap();
    let table = cursor.finish(offset).ok().unwrap();
    let glyph: Glyph = table.resolve_offset(Offset16(table.shape)).ok().unwrap();
    assert_eq!(glyph.number_of_contours(), 1);
    assert_eq!(glyph.x_min(), 1);
    assert_eq!(glyph.y_max(), 4);

    let null: Result<Glyph, ReadError> = Offset16(0).resolve(&data);
    assert!(matches!(null, Err(ReadError::NullOffset)));
    assert!(Offset16(0).resolve_nullable::<Glyph>(&data).is_none());
    let past: Result<Glyph, ReadError> = Offset32(100).resolve(&data);
    assert!(matches!(past, Err(ReadError::OutOfBounds)));
    let short: Result<Glyph, ReadError> = Offset16(20).resolve(&data);
    assert!(matches!(short, Err(ReadError::OutOfBounds)));
    assert!(Offset32(4).resolve_nullable::<Glyph>(&data).unwrap().is_ok());
}

#[test]
fn split_off_position_is_additive() {
    let bytes = [0u8; 8];
    let data = FontData::new(&bytes);
    let a = data.split_off(3).unwrap();
    let b = a.split_off(2).unwrap();
    assert_eq!(b.len(), 3);
    assert!(a.split_off(6).is_none());
}
