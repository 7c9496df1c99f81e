use rustmc::codec::PacketEncoder;
use rustmc::varint::{read_varint_at, read_varlong_at, write_varint, write_varlong, DecodeError};

fn encode(x: i32) -> Vec<u8> {
    let mut out = Vec::new();
    write_varint(&mut out, x);
    out
}

#[test]
fn varint_round_trip_listed_values() {
    for x in [0, 1, 127, 128, 255, 2097151, 2147483647, -1, -2147483648] {
        let bytes = encode(x);
        assert!(bytes.len() >= 1 && bytes.len() <= 5);
        assert_eq!(read_varint_at(&bytes, 0), Ok((x, bytes.len())));
    }
}

#[test]
fn varint_zero_is_one_zero_byte() {
    assert_eq!(encode(0), vec![0u8]);
}

#[test]
fn varint_known_encodings() {
    assert_eq!(encode(1), vec![0x01]);
    assert_eq!(encode(127), vec![0x7f]);
    assert_eq!(encode(128), vec![0x80, 0x01]);
    assert_eq!(encode(255), vec![0xff, 0x01]);
    assert_eq!(encode(2097151), vec![0xff, 0xff, 0x7f]);
    assert_eq!(encode(2147483647), vec![0xff, 0xff, 0xff, 0xff, 0x07]);
    assert_eq!(encode(-1), vec![0xff, 0xff, 0xff, 0xff, 0x0f]);
    assert_eq!(encode(-2147483648), vec![0x80, 0x80, 0x80, 0x80, 0x08]);
}

#[test]
fn varint_six_continuation_bytes_are_malformed() {
    let bytes = vec![0x80u8, 0x81, 0xff, 0x80, 0x80, 0x80];
    assert_eq!(read_varint_at(&bytes, 0), Err(DecodeError::MalformedVarInt));
}

#[test]
fn varint_cut_short_is_unexpected_end() {
    assert_eq!(read_varint_at(&[0x80, 0x80], 0), Err(DecodeError::UnexpectedEnd));
    assert_eq!(read_varint_at(&[], 0), Err(DecodeError::UnexpectedEnd));
}

#[test]
fn varint_read_at_offset_with_trailing_bytes() {
    let bytes = vec![0xaa, 0xdd, 0xc7, 0x01, 0x05];
    assert_eq!(read_varint_at(&bytes, 1), Ok((25565, 3)));
}

#[test]
fn varlong_round_trip_and_bound() {
    for x in [0i64, 1, 300, i64::MAX, -1, i64::MIN, 2147483648] {
        let mut out = Vec::new();
        write_varlong(&mut out, x);
        assert!(out.len() >= 1 && out.len() <= 10);
        assert_eq!(read_varlong_at(&out, 0), Ok((x, out.len())));
    }
    let mut minus_one = Vec::new();
    write_varlong(&mut minus_one, -1);
    assert_eq!(minus_one, vec![0xff, 0xff, 0xff, 0xff, 0xff, 0xff, 0xff, 0xff, 0xff, 0x01]);
    let long = vec![0x80u8; 11];
    assert_eq!(read_varlong_at(&long, 0), Err(DecodeError::MalformedVarInt));
}

#[test]
fn encoder_writes_fields_big_endian() {
    let mut e = PacketEncoder::new(7);
    e.write_int(-2);
    e.write_short(258);
    e.write_ushort(65535);
    e.write_bool(true);
    e.write_bool(false);
    e.write_byte(-1);
    e.write_ubyte(9);
    e.write_varlong(128);
    assert_eq!(
        e.buffer,
        vec![0xff, 0xff, 0xff, 0xfe, 0x01, 0x02, 0xff, 0xff, 1, 0, 0xff, 9, 0x80, 0x01]
    );
    assert_eq!(e.packet_id, 7);
}
