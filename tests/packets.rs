use rustmc::codec::{PacketDecoder, PacketEncoder};
use rustmc::packets::{
    next_state_from, C00Disconnect, C00Response, C01EcryptionRequest, C01Pong, S00Handshake,
    S00LoginStart, S01EncryptionResponse, S01Ping,
};
use rustmc::protocol::{Client, NetworkState};
use rustmc::varint::DecodeError;

fn decoder(id: u8, payload: Vec<u8>) -> PacketDecoder {
    let mut e = PacketEncoder::new(id);
    e.write_bytes(&mut payload.clone());
    PacketDecoder::new(e.finalize(false, &None), &Client::new(0)).unwrap()
}

fn handshake_payload(next: i32) -> Vec<u8> {
    let mut e = PacketEncoder::new(0);
    e.write_varint(575);
    e.write_string("localhost".to_string());
    e.write_ushort(25565);
    e.write_varint(next);
    e.buffer
}

#[test]
fn next_state_values() {
    assert_eq!(next_state_from(1), NetworkState::STATUS);
    assert_eq!(next_state_from(2), NetworkState::LOGIN);
    assert_eq!(next_state_from(0), NetworkState::HANDSHAKING);
    assert_eq!(next_state_from(3), NetworkState::HANDSHAKING);
}

#[test]
fn handshake_decodes_fields() {
    let h = S00Handshake::decode(decoder(0, handshake_payload(2))).unwrap();
    assert_eq!(h.protocol_version, 575);
    assert_eq!(h.server_address, "localhost");
    assert_eq!(h.server_port, 25565);
    assert_eq!(h.next_state, NetworkState::LOGIN);
    let h = S00Handshake::decode(decoder(0, handshake_payload(3))).unwrap();
    assert_eq!(h.next_state, NetworkState::HANDSHAKING);
    let mut short = handshake_payload(1);
    short.truncate(12);
    assert_eq!(S00Handshake::decode(decoder(0, short)).err(), Some(DecodeError::UnexpectedEnd));
}

#[test]
fn ping_decodes_and_pong_encodes_payload() {
    let p = S01Ping::decode(decoder(1, vec![0, 0, 0, 0, 0, 0, 0, 42])).unwrap();
    assert_eq!(p.payload, 42);
    let pong = C01Pong { payload: p.payload }.encode();
    assert_eq!(pong.packet_id, 1);
    assert_eq!(pong.buffer, vec![0, 0, 0, 0, 0, 0, 0, 42]);
    let neg = C01Pong { payload: -2 }.encode();
    assert_eq!(neg.buffer, vec![0xff, 0xff, 0xff, 0xff, 0xff, 0xff, 0xff, 0xfe]);
    assert!(S01Ping::decode(decoder(1, vec![1, 2, 3])).is_err());
}

#[test]
fn login_start_decodes_name() {
    let l = S00LoginStart::decode(decoder(0, vec![5, b'S', b't', b'e', b'v', b'e'])).unwrap();
    assert_eq!(l.name, "Steve");
}

#[test]
fn encryption_response_decodes_arrays() {
    let r = S01EncryptionResponse::decode(decoder(1, vec![2, 7, 8, 3, 1, 2, 3])).unwrap();
    assert_eq!(r.shared_secret_length, 2);
    assert_eq!(r.shared_secret, vec![7, 8]);
    assert_eq!(r.verify_token_length, 3);
    assert_eq!(r.verify_token, vec![1, 2, 3]);
    assert_eq!(
        S01EncryptionResponse::decode(decoder(1, vec![2, 7, 8, 4, 1])).err(),
        Some(DecodeError::UnexpectedEnd)
    );
    assert_eq!(
        S01EncryptionResponse::decode(decoder(1, vec![0xff, 0xff, 0xff, 0xff, 0x0f])).err(),
        Some(DecodeError::BadLength)
    );
}

#[test]
fn client_bound_packets_encode() {
    let r = C00Response { json_response: "{}".to_string() }.encode();
    assert_eq!((r.packet_id, r.buffer), (0, vec![2, b'{', b'}']));
    let d = C00Disconnect { reason: "no".to_string() }.encode();
    assert_eq!((d.packet_id, d.buffer), (0, vec![2, b'n', b'o']));
    let e = C01EcryptionRequest {
        server_id: String::new(),
        public_key_length: 2,
        public_key: vec![0xaa, 0xbb],
        verify_token_length: 4,
        verify_token: vec![1, 2, 3, 4],
    }
    .encode();
    assert_eq!(e.packet_id, 1);
    assert_eq!(e.buffer, vec![0, 2, 0xaa, 0xbb, 4, 1, 2, 3, 4]);
}
