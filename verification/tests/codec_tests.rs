use mtt::codec::{
    read_bool, read_bytes16, read_bytes32, read_i16, read_rest, read_str, read_u16, read_u32,
    read_u64, read_u8, read_wide_str, write_bool, write_bytes16, write_bytes32, write_i16,
    write_str, write_u16, write_u32, write_u64, write_u8, CodecError,
};

#[test]
fn u16_is_big_endian() {
    let mut out = Vec::new();
    write_u16(&mut out, 0x1234);
    assert_eq!(out, vec![0x12, 0x34]);
    let mut pos = 0;
    assert_eq!(read_u16(&out, &mut pos), Ok(0x1234));
    assert_eq!(pos, 2);
}

#[test]
fn u32_and_u64_round_trip() {
    let mut out = Vec::new();
    write_u32(&mut out, 0xDEADBEEF);
    write_u64(&mut out, 0x0123456789ABCDEF);
    assert_eq!(out[0..4], [0xDE, 0xAD, 0xBE, 0xEF]);
    let mut pos = 0;
    assert_eq!(read_u32(&out, &mut pos), Ok(0xDEADBEEF));
    assert_eq!(read_u64(&out, &mut pos), Ok(0x0123456789ABCDEF));
}

#[test]
fn i16_round_trip_negative() {
    let mut out = Vec::new();
    write_i16(&mut out, -2);
    assert_eq!(out, vec![0xFF, 0xFE]);
    let mut pos = 0;
    assert_eq!(read_i16(&out, &mut pos), Ok(-2));
}

#[test]
fn bool_nonzero_reads_true() {
    let mut out = Vec::new();
    write_bool(&mut out, true);
    write_bool(&mut out, false);
    assert_eq!(out, vec![1, 0]);
    let raw = vec![7u8];
    let mut pos = 0;
    assert_eq!(read_bool(&raw, &mut pos), Ok(true));
}

#[test]
fn truncated_read_fails() {
    let raw = vec![0x01u8];
    let mut pos = 0;
    assert_eq!(read_u16(&raw, &mut pos), Err(CodecError::Truncated));
    assert_eq!(pos, 0);
}

#[test]
fn bytes16_round_trip() {
    let mut out = Vec::new();
    let data = vec![1u8, 2, 3, 4, 5];
    write_bytes16(&mut out, &data).unwrap();
    assert_eq!(out[0..2], [0, 5]);
    let mut pos = 0;
    assert_eq!(read_bytes16(&out, &mut pos), Ok(data));
}

#[test]
fn bytes32_round_trip() {
    let mut out = Vec::new();
    let data = vec![9u8; 300];
    write_bytes32(&mut out, &data).unwrap();
    assert_eq!(out[0..4], [0, 0, 1, 44]);
    let mut pos = 0;
    assert_eq!(read_bytes32(&out, &mut pos), Ok(data));
}

#[test]
fn oversized_string_is_overflow() {
    let mut out = Vec::new();
    let s: String = "a".repeat(0x10000);
    assert_eq!(write_str(&mut out, &s), Err(CodecError::Overflow));
    assert!(out.is_empty());
}

#[test]
fn string_round_trip() {
    let mut out = Vec::new();
    let s = String::from("grass block");
    write_str(&mut out, &s).unwrap();
    let mut pos = 0;
    assert_eq!(read_str(&out, &mut pos), Ok(s));
}

#[test]
fn invalid_utf8_is_encoding_error() {
    // Length 2, then an invalid continuation pair.
    let raw = vec![0u8, 2, 0xC3, 0x28];
    let mut pos = 0;
    assert_eq!(read_str(&raw, &mut pos), Err(CodecError::Encoding));
}

#[test]
fn wide_string_reads_utf16() {
    // Two code units: 'h' 'i'.
    let raw = vec![0u8, 2, 0, 0x68, 0, 0x69];
    let mut pos = 0;
    assert_eq!(read_wide_str(&raw, &mut pos), Ok(String::from("hi")));
    assert_eq!(pos, 6);
}

#[test]
fn unpaired_surrogate_is_encoding_error() {
    let raw = vec![0u8, 1, 0xD8, 0x00];
    let mut pos = 0;
    assert_eq!(read_wide_str(&raw, &mut pos), Err(CodecError::Encoding));
}

#[test]
fn read_rest_consumes_everything() {
    let raw = vec![1u8, 2, 3];
    let mut pos = 1;
    assert_eq!(read_rest(&raw, &mut pos), Ok(vec![2u8, 3]));
    assert_eq!(pos, 3);
}

#[test]
fn u8_round_trip() {
    let mut out = Vec::new();
    write_u8(&mut out, 0xAB);
    let mut pos = 0;
    assert_eq!(read_u8(&out, &mut pos), Ok(0xAB));
}
