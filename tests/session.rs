use openssl::pkey::Private;
use openssl::rsa::{Padding, Rsa};
use rustmc::auth::{AuthOutcome, MojangError, MojangHasJoinedResponse};
use rustmc::codec::{PacketDecoder, PacketEncoder};
use rustmc::network::{Action, Server};
use rustmc::protocol::{Client, NetworkState};
use rustmc::status::StatusInfo;
use rustmc::varint::DecodeError;

const STATUS: &str = "{\"version\":{\"name\":\"RustMC 1.15.1\",\"protocol\":575},\"players\":{\"max\":100,\"online\":1,\"sample\":[]},\"description\":{\"text\":\"Hello World!\",\"color\":\"gold\"}}";

fn status_info() -> StatusInfo {
    StatusInfo {
        version_name: "\"RustMC 1.15.1\"".to_string(),
        protocol: 575,
        max_players: 100,
        online: 1,
        description: "{\"text\":\"Hello World!\",\"color\":\"gold\"}".to_string(),
    }
}

fn server_with(key: Rsa<Private>, timeout: u32, max_pending: usize) -> Server {
    Server::new(
        key,
        status_info(),
        "{\"text\":\"Verify token incorrect\"}".to_string(),
        "{\"text\":\"Failed to verify username\"}".to_string(),
        timeout,
        max_pending,
    )
    .unwrap()
}

fn frame(id: u8, build: impl FnOnce(&mut PacketEncoder)) -> Vec<u8> {
    let mut e = PacketEncoder::new(id);
    build(&mut e);
    e.finalize(false, &None)
}

fn handshake(next: i32) -> Vec<u8> {
    frame(0, |e| {
        e.write_varint(575);
        e.write_string("localhost".to_string());
        e.write_ushort(25566);
        e.write_varint(next);
    })
}

fn single(server: &mut Server, client: &mut Client, bytes: Vec<u8>) -> Action {
    let mut actions = server.receive_bytes(client, bytes).unwrap();
    assert_eq!(actions.len(), 1);
    actions.remove(0)
}

fn sent(a: Action) -> PacketDecoder {
    match a {
        Action::Send(b) => PacketDecoder::new(b, &Client::new(0)).unwrap(),
        _ => panic!("expected bytes to send"),
    }
}

fn encrypt(public_der: &[u8], data: &[u8]) -> Vec<u8> {
    let public = Rsa::public_key_from_der(public_der).unwrap();
    let mut out = vec![0u8; public.size() as usize];
    let n = public.public_encrypt(data, &mut out, Padding::PKCS1).unwrap();
    out.truncate(n);
    out
}

/// Logs `client` in up to the encryption request; returns the key and token.
fn start_login(server: &mut Server, client: &mut Client) -> (Vec<u8>, Vec<u8>) {
    assert!(matches!(single(server, client, handshake(2)), Action::Nothing));
    assert_eq!(client.state, NetworkState::LOGIN);
    let mut d = sent(single(server, client, frame(0, |e| e.write_string("Steve".to_string()))));
    assert_eq!(d.packet_id, 1);
    assert_eq!(d.read_string().unwrap(), "");
    let key_len = d.read_varint().unwrap();
    let key = d.read_bytes(key_len as usize).unwrap();
    assert_eq!(d.read_varint().unwrap(), 4);
    let token = d.read_bytes(4).unwrap();
    assert_eq!(client.verify_token, Some(token.clone()));
    assert_eq!(client.username, Some("Steve".to_string()));
    (key, token)
}

fn encryption_response(secret: &[u8], token: &[u8]) -> Vec<u8> {
    frame(1, |e| {
        e.write_varint(secret.len() as i32);
        e.write_bytes(&mut secret.to_vec());
        e.write_varint(token.len() as i32);
        e.write_bytes(&mut token.to_vec());
    })
}

#[test]
fn end_to_end_status_and_ping() {
    let mut server = server_with(Rsa::generate(1024).unwrap(), 10, 8);
    let mut client = Client::new(1);
    assert!(matches!(single(&mut server, &mut client, handshake(1)), Action::Nothing));
    assert_eq!(client.state, NetworkState::STATUS);
    let mut d = sent(single(&mut server, &mut client, frame(0, |_| {})));
    assert_eq!(d.packet_id, 0);
    let json = d.read_string().unwrap();
    assert_eq!(json, STATUS);
    let doc: serde_json::Value = serde_json::from_str(&json).unwrap();
    assert_eq!(doc["version"]["protocol"], 575);
    assert_eq!(doc["players"]["online"], 1);
    assert_eq!(doc["players"]["max"], 100);
    assert!(doc["players"]["sample"].as_array().unwrap().is_empty());
    assert_eq!(doc["description"]["color"], "gold");
    let mut pong = sent(single(&mut server, &mut client, frame(1, |e| e.write_long(42))));
    assert_eq!(pong.packet_id, 1);
    assert_eq!(pong.read_long(), Ok(42));
    assert_eq!(pong.buffer, vec![9, 1, 0, 0, 0, 0, 0, 0, 0, 42]);
}

#[test]
fn handshake_rejects_unknown_next_states() {
    let mut server = server_with(Rsa::generate(1024).unwrap(), 10, 8);
    for next in [0, 3] {
        let mut client = Client::new(1);
        assert!(matches!(single(&mut server, &mut client, handshake(next)), Action::InvalidNextState));
        assert_eq!(client.state, NetworkState::HANDSHAKING);
    }
    let mut client = Client::new(2);
    single(&mut server, &mut client, handshake(2));
    assert_eq!(client.state, NetworkState::LOGIN);
}

#[test]
fn two_frames_in_one_read_are_handled_in_order() {
    let mut server = server_with(Rsa::generate(1024).unwrap(), 10, 8);
    let mut client = Client::new(1);
    let mut bytes = handshake(1);
    bytes.extend(frame(0, |_| {}));
    let actions = server.receive_bytes(&mut client, bytes).unwrap();
    assert_eq!(actions.len(), 2);
    assert!(matches!(actions[0], Action::Nothing));
    assert!(matches!(actions[1], Action::Send(_)));
    assert!(client.inbound.is_empty());
}

#[test]
fn split_frame_is_completed_by_the_next_read() {
    let mut server = server_with(Rsa::generate(1024).unwrap(), 10, 8);
    let mut client = Client::new(1);
    single(&mut server, &mut client, handshake(1));
    let ping = frame(1, |e| e.write_long(7));
    let actions = server.receive_bytes(&mut client, ping[..4].to_vec()).unwrap();
    assert!(actions.is_empty());
    assert_eq!(client.inbound, ping[..4].to_vec());
    let mut pong = sent(single(&mut server, &mut client, ping[4..].to_vec()));
    assert_eq!(pong.read_long(), Ok(7));
    assert!(client.inbound.is_empty());
}

#[test]
fn unknown_ids_are_reported_and_malformed_frames_fail() {
    let mut server = server_with(Rsa::generate(1024).unwrap(), 10, 8);
    let mut client = Client::new(1);
    assert!(matches!(single(&mut server, &mut client, frame(5, |_| {})), Action::Unknown(5)));
    assert_eq!(client.state, NetworkState::HANDSHAKING);
    single(&mut server, &mut client, handshake(1));
    assert!(matches!(single(&mut server, &mut client, frame(2, |_| {})), Action::Unknown(2)));
    assert_eq!(
        server.receive_bytes(&mut client, vec![0x00]).err(),
        Some(DecodeError::BadLength)
    );
    assert_eq!(
        server.handle_packet(&mut client, vec![0x80, 0x80, 0x80, 0x80, 0x80, 0x80]).err(),
        Some(DecodeError::MalformedVarInt)
    );
}

#[test]
fn verify_token_match_starts_authentication() {
    let key = Rsa::generate(1024).unwrap();
    let mut server = server_with(key, 10, 8);
    let mut client = Client::new(3);
    let (public_der, token) = start_login(&mut server, &mut client);
    let secret: Vec<u8> = (0u8..16).collect();
    let response = encryption_response(&encrypt(&public_der, &secret), &encrypt(&public_der, &token));
    match single(&mut server, &mut client, response) {
        Action::Authenticate(request, name) => {
            assert_eq!(request, 0);
            assert_eq!(name, "Steve");
        }
        _ => panic!("expected the lookup to start"),
    }
    assert_eq!(client.state, NetworkState::LOGIN);
    assert_eq!(client.shared_secret, Some(secret));
    assert_eq!(client.verify_token, None);
    assert_eq!(server.auth.pending.len(), 1);
    assert_eq!(server.auth.pending[0].client_id, 3);
}

#[test]
fn verify_token_mismatch_rejects_login() {
    let key = Rsa::generate(1024).unwrap();
    let mut server = server_with(key, 10, 8);
    let mut client = Client::new(3);
    let (public_der, token) = start_login(&mut server, &mut client);
    let other: Vec<u8> = token.iter().map(|b| b.wrapping_add(1)).collect();
    let response = encryption_response(&encrypt(&public_der, &[5u8; 16]), &encrypt(&public_der, &other));
    match single(&mut server, &mut client, response) {
        Action::Disconnect(bytes) => {
            let mut d = PacketDecoder::new(bytes, &Client::new(0)).unwrap();
            assert_eq!(d.packet_id, 0);
            assert_eq!(d.read_string().unwrap(), "{\"text\":\"Verify token incorrect\"}");
        }
        _ => panic!("expected the login to be rejected"),
    }
    assert_eq!(client.state, NetworkState::LOGIN);
    assert_eq!(client.shared_secret, None);
    assert!(server.auth.pending.is_empty());
}

#[test]
fn undecryptable_token_rejects_login() {
    let mut server = server_with(Rsa::generate(1024).unwrap(), 10, 8);
    let mut client = Client::new(3);
    start_login(&mut server, &mut client);
    let response = encryption_response(&[1, 2, 3], &[4, 5, 6, 7]);
    assert!(matches!(single(&mut server, &mut client, response), Action::Disconnect(_)));
    assert_eq!(client.state, NetworkState::LOGIN);
}

#[test]
fn finish_encryption_compares_decrypted_token() {
    let mut server = server_with(Rsa::generate(1024).unwrap(), 10, 8);
    let mut client = Client::new(4);
    client.state = NetworkState::LOGIN;
    client.username = Some("Alex".to_string());
    client.verify_token = Some(vec![1, 2, 3, 4]);
    let a = server.finish_encryption(&mut client, Some(vec![1, 2, 3, 5]), Some(vec![9]));
    assert!(matches!(a, Action::Disconnect(_)));
    assert_eq!(client.verify_token, None);
    client.verify_token = Some(vec![1, 2, 3, 4]);
    let a = server.finish_encryption(&mut client, Some(vec![1, 2, 3, 4]), Some(vec![9]));
    assert!(matches!(a, Action::Authenticate(0, _)));
    assert_eq!(client.shared_secret, Some(vec![9]));
}

fn profile() -> MojangHasJoinedResponse {
    MojangHasJoinedResponse { id: "069a79f4".to_string(), name: "Steve".to_string(), properties: vec![] }
}

#[test]
fn poll_before_answer_changes_nothing_then_login_completes() {
    let key = Rsa::generate(1024).unwrap();
    let mut server = server_with(key, 10, 8);
    let mut client = Client::new(3);
    let (public_der, token) = start_login(&mut server, &mut client);
    let response = encryption_response(&encrypt(&public_der, &[7u8; 16]), &encrypt(&public_der, &token));
    let request = match single(&mut server, &mut client, response) {
        Action::Authenticate(request, _) => request,
        _ => panic!("expected the lookup to start"),
    };
    assert!(server.poll_auth().is_empty());
    assert_eq!(client.state, NetworkState::LOGIN);
    assert_eq!(server.auth.pending.len(), 1);
    assert_eq!(server.auth.pending[0].age, 1);
    assert!(server.auth.complete(request, Ok(profile())));
    let mut done = server.poll_auth();
    assert_eq!(done.len(), 1);
    let (id, outcome) = done.remove(0);
    assert_eq!(id, 3);
    assert!(matches!(server.on_auth_result(&mut client, outcome), Action::Nothing));
    assert_eq!(client.state, NetworkState::PLAY);
    assert_eq!(client.player.as_ref().unwrap().username, "Steve");
    assert!(server.auth.pending.is_empty());
}

#[test]
fn failed_lookup_disconnects() {
    let mut server = server_with(Rsa::generate(1024).unwrap(), 10, 8);
    let mut client = Client::new(1);
    let a = server.on_auth_result(&mut client, AuthOutcome::Failed(MojangError::ConnectionError));
    assert!(matches!(a, Action::Disconnect(_)));
    let a = server.on_auth_result(&mut client, AuthOutcome::Joined(profile()));
    assert!(matches!(a, Action::Disconnect(_)));
    assert_eq!(client.state, NetworkState::HANDSHAKING);
}

#[test]
fn full_poller_rejects_login() {
    let key = Rsa::generate(1024).unwrap();
    let mut server = server_with(key, 10, 0);
    let mut client = Client::new(3);
    let (public_der, token) = start_login(&mut server, &mut client);
    let response = encryption_response(&encrypt(&public_der, &[7u8; 16]), &encrypt(&public_der, &token));
    assert!(matches!(single(&mut server, &mut client, response), Action::Disconnect(_)));
    assert_eq!(client.shared_secret, None);
}

#[test]
fn server_keeps_key_der_and_status_document() {
    let key = Rsa::generate(1024).unwrap();
    let der = key.public_key_to_der().unwrap();
    let s = server_with(key, 10, 8);
    assert_eq!(s.public_key, der);
    assert_eq!(s.status_json, STATUS);
}

#[test]
fn unanswered_lookup_times_out_and_disconnects() {
    let key = Rsa::generate(1024).unwrap();
    let mut server = server_with(key, 2, 8);
    let mut client = Client::new(3);
    let (public_der, token) = start_login(&mut server, &mut client);
    let response = encryption_response(&encrypt(&public_der, &[7u8; 16]), &encrypt(&public_der, &token));
    single(&mut server, &mut client, response);
    assert!(server.poll_auth().is_empty());
    assert!(server.poll_auth().is_empty());
    let mut done = server.poll_auth();
    assert_eq!(done.len(), 1);
    let (_, outcome) = done.remove(0);
    assert!(matches!(outcome, AuthOutcome::TimedOut));
    match server.on_auth_result(&mut client, outcome) {
        Action::Disconnect(bytes) => {
            let mut d = PacketDecoder::new(bytes, &Client::new(0)).unwrap();
            assert_eq!(d.read_string().unwrap(), "{\"text\":\"Failed to verify username\"}");
        }
        _ => panic!("expected a disconnect"),
    }
    assert_eq!(client.state, NetworkState::LOGIN);
}

#[test]
fn malformed_frame_leaves_other_lookups_alone() {
    let key = Rsa::generate(1024).unwrap();
    let mut server = server_with(key, 10, 8);
    let mut alice = Client::new(3);
    let (public_der, token) = start_login(&mut server, &mut alice);
    let response = encryption_response(&encrypt(&public_der, &[7u8; 16]), &encrypt(&public_der, &token));
    single(&mut server, &mut alice, response);
    let mut bob = Client::new(4);
    single(&mut server, &mut bob, handshake(1));
    let mut bytes = frame(1, |e| e.write_long(1));
    bytes.extend(vec![0x00, 0x05]);
    assert_eq!(server.receive_bytes(&mut bob, bytes).err(), Some(DecodeError::BadLength));
    assert_eq!(bob.state, NetworkState::STATUS);
    assert_eq!(server.auth.pending.len(), 1);
    assert_eq!(server.auth.pending[0].client_id, 3);
    assert_eq!(server.auth.pending[0].age, 0);
}
