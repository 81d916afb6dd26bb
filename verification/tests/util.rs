use sims3_rs::error::Error;
use sims3_rs::refpack::decompress::Error as RefPackError;
use sims3_rs::util::{
    read_number, read_u32_le, read_u64_le, read_utf16_string, read_utf16_units, write_u32_le,
    write_u64_le, Endian, LengthPrefix, LengthString,
};

#[test]
fn little_endian_words() {
    assert_eq!(read_u32_le(&[0x78, 0x56, 0x34, 0x12], 0), 0x1234_5678);
    assert_eq!(read_u32_le(&[0, 0xFF, 0xFF, 0xFF, 0xFF], 1), u32::MAX);
    let mut out = vec![1];
    write_u32_le(&mut out, 0x1234_5678);
    assert_eq!(out, vec![1, 0x78, 0x56, 0x34, 0x12]);
}

#[test]
fn little_endian_double_words() {
    let bytes = [0xEF, 0xCD, 0xAB, 0x89, 0x67, 0x45, 0x23, 0x01];
    assert_eq!(read_u64_le(&bytes, 0), 0x0123_4567_89AB_CDEF);
    let mut out = Vec::new();
    write_u64_le(&mut out, 0x0123_4567_89AB_CDEF);
    assert_eq!(out, bytes.to_vec());
    let mut out = Vec::new();
    write_u64_le(&mut out, u64::MAX);
    assert_eq!(read_u64_le(&out, 0), u64::MAX);
}

#[test]
fn length_string_reads_behind_its_length() {
    let data = [9, 3, 0, 0, 0, b'f', b'o', b'o', 7];
    let mut pos = 1;
    let s = LengthString::read(&data, &mut pos).unwrap();
    assert_eq!(s.inner, b"foo".to_vec());
    assert_eq!(pos, 8);
}

#[test]
fn length_string_may_be_empty() {
    let data = [0, 0, 0, 0];
    let mut pos = 0;
    assert_eq!(LengthString::read(&data, &mut pos).unwrap().inner, Vec::<u8>::new());
    assert_eq!(pos, 4);
}

#[test]
fn length_string_that_ends_early_is_truncated() {
    let data = [4, 0, 0, 0, b'f', b'o', b'o'];
    let mut pos = 0;
    assert_eq!(LengthString::read(&data, &mut pos), Err(Error::TruncatedInput));
    assert_eq!(pos, 0);
    let mut pos = 5;
    assert_eq!(LengthString::read(&data, &mut pos), Err(Error::TruncatedInput));
    assert_eq!(pos, 5);
}

#[test]
fn length_string_writes_its_length_first() {
    let mut out = vec![0xAA];
    assert_eq!(LengthString { inner: b"bar".to_vec() }.write(&mut out), Ok(()));
    assert_eq!(out, vec![0xAA, 3, 0, 0, 0, b'b', b'a', b'r']);
}

#[test]
fn error_descriptions_are_fixed() {
    assert_eq!(Error::NoReader.description(), "Unable to get chunk reader from unwritten file!");
    assert_eq!(Error::WrongResourceType.description(), "Not an NMAP tag.");
    assert_eq!(
        Error::CompressionFailed(RefPackError::InvalidMagic).description(),
        "Invalid compression magic."
    );
}

#[test]
fn numbers_in_either_byte_order() {
    let data = [0xAA, 0x01, 0x02, 0x03, 0x04];
    assert_eq!(read_number(&data, 1, 4, Endian::Little), 0x0403_0201);
    assert_eq!(read_number(&data, 1, 4, Endian::Big), 0x0102_0304);
    assert_eq!(read_number(&data, 1, 2, Endian::Little), 0x0201);
    assert_eq!(read_number(&data, 1, 2, Endian::Big), 0x0102);
    assert_eq!(read_number(&data, 0, 1, Endian::Big), 0xAA);
    assert_eq!(read_number(&data, 0, 0, Endian::Little), 0);
    assert_eq!(read_number(&[0xFF; 4], 0, 4, Endian::Little), u32::MAX);
}

#[test]
fn utf16_string_behind_its_length_in_bytes() {
    let data = [4, 0, 0, 0, b'h', 0, b'i', 0, 9];
    let mut pos = 0;
    let s = read_utf16_string(&data, &mut pos, LengthPrefix::U32, Endian::Little);
    assert_eq!(s, Ok("hi".to_string()));
    assert_eq!(pos, 8);
    let data = [7, 0, 4, 0, b'h', 0, b'i'];
    let mut pos = 1;
    let s = read_utf16_string(&data, &mut pos, LengthPrefix::U16, Endian::Big);
    assert_eq!(s, Ok("hi".to_string()));
    assert_eq!(pos, 7);
    let data = [2, 0xAC, 0x20];
    let mut pos = 0;
    let s = read_utf16_string(&data, &mut pos, LengthPrefix::U8, Endian::Little);
    assert_eq!(s, Ok("\u{20AC}".to_string()));
    assert_eq!(pos, 3);
}

#[test]
fn utf16_string_of_odd_length_leaves_the_last_byte() {
    let data = [5, b'a', 0, b'b', 0, 0xEE];
    let mut pos = 0;
    let units = read_utf16_units(&data, &mut pos, LengthPrefix::U8, Endian::Little);
    assert_eq!(units, Ok(vec![0x61, 0x62]));
    assert_eq!(pos, 5);
}

#[test]
fn utf16_string_replaces_what_is_no_text() {
    // A surrogate pair, then a high surrogate alone.
    let data = [6, 0x3D, 0xD8, 0x00, 0xDE, 0x00, 0xD8];
    let mut pos = 0;
    let s = read_utf16_string(&data, &mut pos, LengthPrefix::U8, Endian::Little);
    assert_eq!(s, Ok("\u{1F600}\u{FFFD}".to_string()));
}

#[test]
fn utf16_string_that_ends_early_is_truncated() {
    let data = [0, 0, 0];
    let mut pos = 0;
    let s = read_utf16_string(&data, &mut pos, LengthPrefix::U32, Endian::Little);
    assert_eq!(s, Err(Error::TruncatedInput));
    let data = [4, b'a', 0, b'b'];
    let s = read_utf16_string(&data, &mut pos, LengthPrefix::U8, Endian::Little);
    assert_eq!(s, Err(Error::TruncatedInput));
    assert_eq!(pos, 0);
    let data = [0];
    let s = read_utf16_string(&data, &mut pos, LengthPrefix::U8, Endian::Big);
    assert_eq!(s, Ok(String::new()));
    assert_eq!(pos, 1);
}
