use rustmc::codec::{PacketDecoder, PacketEncoder};
use rustmc::protocol::Client;
use rustmc::varint::DecodeError;

fn frame(id: u8, payload: &[u8]) -> Vec<u8> {
    let mut e = PacketEncoder::new(id);
    e.write_bytes(&mut payload.to_vec());
    e.finalize(false, &None)
}

#[test]
fn frame_round_trip_payload_sizes() {
    let client = Client::new(0);
    for len in [0usize, 1, 300] {
        let payload: Vec<u8> = (0..len).map(|i| (i % 251) as u8).collect();
        let bytes = frame(0x2a, &payload);
        let mut d = PacketDecoder::new(bytes.clone(), &client).unwrap();
        assert_eq!(d.packet_id, 0x2a);
        assert_eq!(d.length as usize, 1 + len);
        assert_eq!(bytes.len() - d.pos, len);
        assert_eq!(d.read_bytes(len).unwrap(), payload);
    }
}

#[test]
fn frame_layout_is_length_id_payload() {
    assert_eq!(frame(1, &[9, 8]), vec![3, 1, 9, 8]);
    let big = frame(0, &[0u8; 300]);
    assert_eq!(&big[..3], &[0xad, 0x02, 0x00]);
    assert_eq!(big.len(), 303);
}

#[test]
fn finalize_compressed_gives_nothing() {
    let mut e = PacketEncoder::new(1);
    e.write_long(42);
    assert_eq!(e.finalize(true, &None), Vec::<u8>::new());
    assert_eq!(e.finalize(false, &Some(vec![1, 2, 3])).len(), 10);
}

#[test]
fn batch_splits_two_frames_in_order() {
    let client = Client::new(0);
    let handshake = vec![0x10, 0x00, 0xbf, 0x04, 0x09, b'l', b'o', b'c', b'a', b'l', b'h', b'o', b's', b't', 0x63, 0xdd, 0x01];
    let status = frame(0, &[]);
    let mut both = handshake.clone();
    both.extend_from_slice(&status);
    let (decoders, left) = PacketDecoder::new_batch(both, &client).unwrap();
    assert_eq!(decoders.len(), 2);
    assert!(left.is_empty());
    assert_eq!(decoders[0].buffer, handshake);
    assert_eq!(decoders[0].packet_id, 0);
    assert_eq!(decoders[0].length, 16);
    assert_eq!(decoders[1].buffer, status);
    assert_eq!(decoders[1].packet_id, 0);
    assert_eq!(decoders[1].pos, 2);
}

#[test]
fn batch_keeps_unfinished_frame() {
    let client = Client::new(0);
    let first = frame(1, &[1, 2, 3, 4, 5, 6, 7, 8]);
    let second = frame(1, &[9, 9, 9, 9, 9, 9, 9, 9]);
    let mut bytes = first.clone();
    bytes.extend_from_slice(&second[..4]);
    let (decoders, left) = PacketDecoder::new_batch(bytes, &client).unwrap();
    assert_eq!(decoders.len(), 1);
    assert_eq!(decoders[0].buffer, first);
    assert_eq!(left, second[..4].to_vec());
    let (none, all) = PacketDecoder::new_batch(vec![0x80], &client).unwrap();
    assert!(none.is_empty());
    assert_eq!(all, vec![0x80]);
}

#[test]
fn batch_rejects_malformed_frames() {
    let client = Client::new(0);
    assert_eq!(PacketDecoder::new_batch(vec![0x00, 0x01], &client).err(), Some(DecodeError::BadLength));
    assert_eq!(
        PacketDecoder::new_batch(vec![0x80, 0x80, 0x80, 0x80, 0x80, 0x80], &client).err(),
        Some(DecodeError::MalformedVarInt)
    );
    assert!(PacketDecoder::new_batch(vec![], &client).unwrap().0.is_empty());
}

#[test]
fn decoder_reads_fields_and_reports_end() {
    let client = Client::new(0);
    let bytes = frame(3, &[0, 0, 0, 0, 0, 0, 0, 42, 0x12, 0x34, 0xff, 0xff, 0xff, 0xfe, 1, 0x80]);
    let mut d = PacketDecoder::new(bytes, &client).unwrap();
    assert_eq!(d.read_long(), Ok(42));
    assert_eq!(d.read_ushort(), Ok(0x1234));
    assert_eq!(d.read_int(), Ok(-2));
    assert_eq!(d.read_bool(), Ok(true));
    let at = d.pos;
    assert_eq!(d.read_varint(), Err(DecodeError::UnexpectedEnd));
    assert_eq!(d.pos, at);
    assert_eq!(d.read_byte(), Ok(-128));
    assert_eq!(d.read_ubyte(), Err(DecodeError::UnexpectedEnd));
}

#[test]
fn decoder_rejects_bad_strings() {
    let client = Client::new(0);
    let mut d = PacketDecoder::new(frame(0, &[2, 0xc3, 0x28]), &client).unwrap();
    assert_eq!(d.read_string(), Err(DecodeError::InvalidString));
    let mut d = PacketDecoder::new(frame(0, &[0xff, 0xff, 0xff, 0xff, 0x0f]), &client).unwrap();
    assert_eq!(d.read_string(), Err(DecodeError::BadLength));
    let mut d = PacketDecoder::new(frame(0, &[3, b'a', b'b']), &client).unwrap();
    assert_eq!(d.read_string(), Err(DecodeError::UnexpectedEnd));
    let mut d = PacketDecoder::new(frame(0, &[2, 0xc3, 0xa9]), &client).unwrap();
    assert_eq!(d.read_string(), Ok("é".to_string()));
}
