//! The packets of the handshaking, status and login phases.
use vstd::prelude::*;
use vstd::utf8::encode_utf8;
use crate::codec::{
    PacketDecoder, PacketEncoder, be_bytes, be_nat, has_bytes, next_bytes, string_at,
    string_bytes,
};
use crate::protocol::NetworkState;
use crate::varint::{
    DecodeError, bits64, from_bits64, lemma_var_at_within, varint_at, varint_bytes,
};

verus! {

// Client bound.

/// The status document, as JSON text.
pub struct C00Response {
    pub json_response: String,
}

impl C00Response {
    /// Packet 0x00 carrying the document as a string.
    pub fn encode(self) -> (r: PacketEncoder)
        requires
            encode_utf8(self.json_response@).len() <= i32::MAX,
        ensures
            r.packet_id == 0,
            r.buffer@ == string_bytes(self.json_response@),
    {
        let mut encoder = PacketEncoder::new(0x00);
        encoder.write_string(self.json_response);
        encoder
    }
}

/// The answer to a ping.
pub struct C01Pong {
    pub payload: i64,
}

impl C01Pong {
    /// Packet 0x01 carrying the payload as a big-endian 64-bit integer.
    pub fn encode(self) -> (r: PacketEncoder)
        ensures
            r.packet_id == 1,
            r.buffer@ == be_bytes(bits64(self.payload), 8),
    {
        let mut encoder = PacketEncoder::new(0x01);
        encoder.write_long(self.payload);
        encoder
    }
}

/// Why the server closes a connection.
pub struct C00Disconnect {
    pub reason: String,
}

impl C00Disconnect {
    /// Packet 0x00 carrying the reason as a string.
    pub fn encode(self) -> (r: PacketEncoder)
        requires
            encode_utf8(self.reason@).len() <= i32::MAX,
        ensures
            r.packet_id == 0,
            r.buffer@ == string_bytes(self.reason@),
    {
        let mut encoder = PacketEncoder::new(0x00);
        encoder.write_string(self.reason);
        encoder
    }
}

/// The server's public key and a verify token, sent at login.
pub struct C01EcryptionRequest {
    pub server_id: String,
    pub public_key_length: i32,
    pub public_key: Vec<u8>,
    pub verify_token_length: i32,
    pub verify_token: Vec<u8>,
}

impl C01EcryptionRequest {
    /// Packet 0x01: the server id, then the key and the token, each after
    /// its length as a VarInt.
    pub fn encode(self) -> (r: PacketEncoder)
        requires
            encode_utf8(self.server_id@).len() <= i32::MAX,
        ensures
            r.packet_id == 1,
            r.buffer@ == string_bytes(self.server_id@) + varint_bytes(self.public_key_length)
                + self.public_key@ + varint_bytes(self.verify_token_length)
                + self.verify_token@,
    {
        let mut this = self;
        let mut encoder = PacketEncoder::new(0x01);
        encoder.write_string(this.server_id);
        encoder.write_varint(this.public_key_length);
        encoder.write_bytes(&mut this.public_key);
        encoder.write_varint(this.verify_token_length);
        encoder.write_bytes(&mut this.verify_token);
        encoder
    }
}

// Server bound.

/// A ping with its payload.
pub struct S01Ping {
    pub payload: i64,
}

impl S01Ping {
    /// Reads the payload, a big-endian 64-bit integer, at the cursor.
    pub fn decode(decoder: PacketDecoder) -> (r: Result<S01Ping, DecodeError>)
        ensures
            has_bytes(decoder, 8) ==> r == Ok::<S01Ping, DecodeError>(
                S01Ping { payload: from_bits64(be_nat(next_bytes(decoder, 8))) },
            ),
            !has_bytes(decoder, 8) ==> r == Err::<S01Ping, DecodeError>(
                DecodeError::UnexpectedEnd,
            ),
    {
        let mut decoder = decoder;
        match decoder.read_long() {
            Ok(payload) => Ok(S01Ping { payload }),
            Err(e) => Err(e),
        }
    }
}

/// The state that a handshake's next-state value asks for: 1 is `STATUS`,
/// 2 is `LOGIN`, and any other value leaves the connection handshaking.
pub open spec fn requested_state(v: i32) -> NetworkState {
    if v == 1 {
        NetworkState::STATUS
    } else if v == 2 {
        NetworkState::LOGIN
    } else {
        NetworkState::HANDSHAKING
    }
}

/// The state that a handshake's next-state value asks for.
pub fn next_state_from(v: i32) -> (r: NetworkState)
    ensures
        r == requested_state(v),
{
    match v {
        1 => NetworkState::STATUS,
        2 => NetworkState::LOGIN,
        _ => NetworkState::HANDSHAKING,
    }
}

/// The first packet of every connection.
pub struct S00Handshake {
    pub protocol_version: i32,
    pub server_address: String,
    pub server_port: u16,
    pub next_state: NetworkState,
}

/// The fields of a handshake read at position `p`: protocol version,
/// address bytes, port and next-state value.
pub open spec fn handshake_at(s: Seq<u8>, p: int) -> Result<(i32, Seq<u8>, nat, i32), DecodeError> {
    match varint_at(s, p) {
        Err(e) => Err(e),
        Ok((version, n1)) => match string_at(s, p + n1) {
            Err(e) => Err(e),
            Ok((address, n2)) => {
                let q = p + n1 + n2;
                if q + 2 > s.len() {
                    Err(DecodeError::UnexpectedEnd)
                } else {
                    match varint_at(s, q + 2) {
                        Err(e) => Err(e),
                        Ok((next, n3)) => Ok((version, address, be_nat(s.subrange(q, q + 2)), next)),
                    }
                }
            },
        },
    }
}

impl S00Handshake {
    /// Reads protocol version, server address, port and the requested next
    /// state at the cursor.
    pub fn decode(decoder: PacketDecoder) -> (r: Result<S00Handshake, DecodeError>)
        ensures
            match handshake_at(decoder.buffer@, decoder.pos as int) {
                Ok((version, address, port, next)) => r matches Ok(h) && h.protocol_version
                    == version && encode_utf8(h.server_address@) == address && h.server_port
                    == port && h.next_state == requested_state(next),
                Err(e) => r == Err::<S00Handshake, DecodeError>(e),
            },
    {
        let mut decoder = decoder;
        let protocol_version = match decoder.read_varint() {
            Ok(v) => v,
            Err(e) => return Err(e),
        };
        proof {
            lemma_var_at_within(decoder.buffer@, decoder.pos as int, 5);
        }
        let server_address = match decoder.read_string() {
            Ok(v) => v,
            Err(e) => return Err(e),
        };
        let server_port = match decoder.read_ushort() {
            Ok(v) => v,
            Err(e) => return Err(e),
        };
        let next = match decoder.read_varint() {
            Ok(v) => v,
            Err(e) => return Err(e),
        };
        Ok(S00Handshake { protocol_version, server_address, server_port, next_state: next_state_from(next) })
    }
}

/// The name a client logs in with.
pub struct S00LoginStart {
    pub name: String,
}

impl S00LoginStart {
    /// Reads the name at the cursor.
    pub fn decode(decoder: PacketDecoder) -> (r: Result<S00LoginStart, DecodeError>)
        ensures
            match string_at(decoder.buffer@, decoder.pos as int) {
                Ok((b, n)) => r matches Ok(l) && encode_utf8(l.name@) == b,
                Err(e) => r == Err::<S00LoginStart, DecodeError>(e),
            },
    {
        let mut decoder = decoder;
        match decoder.read_string() {
            Ok(name) => Ok(S00LoginStart { name }),
            Err(e) => Err(e),
        }
    }
}

/// The client's encrypted shared secret and verify token.
pub struct S01EncryptionResponse {
    pub shared_secret_length: i32,
    pub shared_secret: Vec<u8>,
    pub verify_token_length: i32,
    pub verify_token: Vec<u8>,
}

/// A byte array read at position `p`: its bytes and the number of bytes it
/// takes with its VarInt length prefix.
pub open spec fn byte_array_at(s: Seq<u8>, p: int) -> Result<(Seq<u8>, nat), DecodeError> {
    match varint_at(s, p) {
        Err(e) => Err(e),
        Ok((len, n)) => {
            if len < 0 {
                Err(DecodeError::BadLength)
            } else if p + n + len > s.len() {
                Err(DecodeError::UnexpectedEnd)
            } else {
                Ok((s.subrange(p + n, p + n + len), (n + len) as nat))
            }
        },
    }
}

/// The two byte arrays of an encryption response read at position `p`.
pub open spec fn encryption_response_at(s: Seq<u8>, p: int) -> Result<(Seq<u8>, Seq<u8>), DecodeError> {
    match byte_array_at(s, p) {
        Err(e) => Err(e),
        Ok((secret, n1)) => match byte_array_at(s, p + n1) {
            Err(e) => Err(e),
            Ok((token, n2)) => Ok((secret, token)),
        },
    }
}

impl PacketDecoder {
    /// Reads a byte array: a VarInt length, then that many bytes.
    fn read_byte_array(&mut self) -> (r: Result<(i32, Vec<u8>), DecodeError>)
        ensures
            final(self).buffer@ == old(self).buffer@,
            match byte_array_at(old(self).buffer@, old(self).pos as int) {
                Ok((b, n)) => (r matches Ok((len, v)) && v@ == b && len == b.len())
                    && final(self).pos == old(self).pos + n,
                Err(e) => r == Err::<(i32, Vec<u8>), DecodeError>(e),
            },
    {
        let len = match self.read_varint() {
            Ok(v) => v,
            Err(e) => return Err(e),
        };
        if len < 0 {
            return Err(DecodeError::BadLength);
        }
        match self.read_bytes(len as usize) {
            Ok(b) => Ok((len, b)),
            Err(e) => Err(e),
        }
    }
}

impl S01EncryptionResponse {
    /// Reads the shared secret and the verify token, each after its length.
    pub fn decode(decoder: PacketDecoder) -> (r: Result<S01EncryptionResponse, DecodeError>)
        ensures
            match encryption_response_at(decoder.buffer@, decoder.pos as int) {
                Ok((secret, token)) => r matches Ok(e) && e.shared_secret@ == secret
                    && e.shared_secret_length == secret.len() && e.verify_token@ == token
                    && e.verify_token_length == token.len(),
                Err(e) => r == Err::<S01EncryptionResponse, DecodeError>(e),
            },
    {
        let mut decoder = decoder;
        let (shared_secret_length, shared_secret) = match decoder.read_byte_array() {
            Ok(v) => v,
            Err(e) => return Err(e),
        };
        let (verify_token_length, verify_token) = match decoder.read_byte_array() {
            Ok(v) => v,
            Err(e) => return Err(e),
        };
        Ok(S01EncryptionResponse {
            shared_secret_length,
            shared_secret,
            verify_token_length,
            verify_token,
        })
    }
}

} // verus!
