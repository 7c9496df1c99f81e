//! The tick's decisions: what each packet does to its client's session and
//! what goes back on the wire, and how a finished login lookup ends.
use vstd::prelude::*;
use vstd::utf8::encode_utf8;
use openssl::pkey::Private;
use openssl::rsa::Rsa;
use crate::auth::{AuthOutcome, AuthPoller, done, kept};
use crate::codec::{PacketDecoder, PacketEncoder, be_bytes, be_nat, has_bytes, next_bytes, string_at, string_bytes};
use crate::crypto::{public_der_of, public_key_der, random_token, rsa_decrypt};
use crate::status::{StatusInfo, status_document, status_json};
use crate::frame::{decodes, frame_bytes, frame_header, split_batch};
use crate::packets::{
    C00Disconnect, C00Response, C01EcryptionRequest, C01Pong, S00Handshake, S00LoginStart,
    S01EncryptionResponse, S01Ping, encryption_response_at, handshake_at, requested_state,
};
use crate::protocol::{Client, NetworkState};
use crate::varint::{DecodeError, bits64, from_bits64, varint_bytes};
use crate::world::World;

verus! {

/// The server's settings: how many players it admits and its message of
/// the day.
pub struct ServerConfig {
    pub max_players: i32,
    pub motd: String,
}

/// Longest text or key, in bytes, that the server sends in one packet: the
/// frame around it must still fit the 32-bit length of a frame.
pub const MAX_TEXT_BYTES: usize = 2_147_483_600;

/// What the tick does after a packet or a finished lookup.
pub enum Action {
    /// Nothing goes back.
    Nothing,
    /// Send these bytes to the client.
    Send(Vec<u8>),
    /// Send these bytes, then close the connection.
    Disconnect(Vec<u8>),
    /// Send the session lookup with this request id for this username.
    Authenticate(u64, String),
    /// The packet id means nothing in the client's state: log it and drop it.
    Unknown(i32),
    /// A handshake asked for a next state other than status or login.
    InvalidNextState,
}

/// The bytes that carry packet `id` with `payload` to client `c`: its frame,
/// or nothing on a connection marked compressed, which this engine does not
/// serve.
pub open spec fn outgoing(c: Client, id: i32, payload: Seq<u8>) -> Seq<u8> {
    if c.compressed {
        Seq::empty()
    } else {
        frame_bytes(id, payload)
    }
}

/// The payload of an encryption request: an empty server id, then the
/// public key and the verify token, each after its length.
pub open spec fn encryption_request_payload(public_key: Seq<u8>, token: Seq<u8>) -> Seq<u8> {
    string_bytes(Seq::empty()) + varint_bytes(public_key.len() as i32) + public_key
        + varint_bytes(token.len() as i32) + token
}

/// `c` in state `s`, all else the same.
pub open spec fn with_state(c: Client, s: NetworkState) -> Client {
    Client { state: s, ..c }
}

impl Client {
    /// The fields a session has set are those its state allows: nothing
    /// before login; during login a username before any token or secret;
    /// in play a username and a shared secret.
    pub open spec fn wf(&self) -> bool {
        match self.state {
            NetworkState::HANDSHAKING | NetworkState::STATUS => {
                &&& self.verify_token is None
                &&& self.username is None
                &&& self.shared_secret is None
                &&& self.player is None
            },
            NetworkState::LOGIN => {
                &&& self.verify_token is Some ==> self.username is Some
                &&& self.shared_secret is Some ==> self.username is Some
                &&& self.player is None
            },
            NetworkState::PLAY => {
                &&& self.username is Some
                &&& self.shared_secret is Some
                &&& self.verify_token is None
            },
        }
    }
}

/// The server-wide state the tick decides with: the key pair, the texts it
/// sends, the outstanding lookups and the world.
pub struct Server {
    pub key_pair: Rsa<Private>,
    pub public_key: Vec<u8>,
    pub status_json: String,
    pub reject_reason: String,
    pub auth_failed_reason: String,
    pub auth: AuthPoller,
    pub world: World,
}

/// Whether two servers agree on everything but the outstanding lookups.
pub open spec fn same_config(a: Server, b: Server) -> bool {
    &&& a.public_key@ == b.public_key@
    &&& a.status_json@ == b.status_json@
    &&& a.reject_reason@ == b.reject_reason@
    &&& a.auth_failed_reason@ == b.auth_failed_reason@
    &&& a.auth.timeout_ticks == b.auth.timeout_ticks
    &&& a.auth.max_pending == b.auth.max_pending
}

/// The number of UTF-8 bytes of `s`.
fn text_len(s: &String) -> (r: usize)
    ensures
        r == encode_utf8(s@).len(),
{
    s.as_str().as_bytes().len()
}

impl Server {
    /// Every text fits one string on the wire and the lookups are in order.
    pub open spec fn wf(&self) -> bool {
        &&& self.public_key@.len() <= MAX_TEXT_BYTES
        &&& encode_utf8(self.status_json@).len() <= MAX_TEXT_BYTES
        &&& encode_utf8(self.reject_reason@).len() <= MAX_TEXT_BYTES
        &&& encode_utf8(self.auth_failed_reason@).len() <= MAX_TEXT_BYTES
        &&& self.auth.wf()
    }

    /// A server with `key_pair`, answering status requests with the status
    /// document of `status`, closing failed logins with `reject_reason` or
    /// `auth_failed_reason`, and failing lookups after `auth_timeout` polls
    /// with at most `max_pending` outstanding. `None` exactly where the key
    /// has no DER form, or the document, a reason or the key is longer than
    /// `MAX_TEXT_BYTES` bytes.
    pub fn new(
        key_pair: Rsa<Private>,
        status: StatusInfo,
        reject_reason: String,
        auth_failed_reason: String,
        auth_timeout: u32,
        max_pending: usize,
    ) -> (r: Option<Server>)
        requires
            auth_timeout >= 1,
        ensures
            r matches Some(s) ==> {
                &&& s.wf()
                &&& s.key_pair == key_pair
                &&& public_der_of(key_pair) == Some(s.public_key@)
                &&& s.status_json@ == status_document(status)
                &&& s.reject_reason@ == reject_reason@
                &&& s.auth_failed_reason@ == auth_failed_reason@
                &&& s.auth.pending@.len() == 0
                &&& s.auth.next_request == 0
                &&& s.auth.timeout_ticks == auth_timeout
                &&& s.auth.max_pending == max_pending
            },
            r is Some <==> {
                &&& encode_utf8(status_document(status)).len() <= MAX_TEXT_BYTES
                &&& encode_utf8(reject_reason@).len() <= MAX_TEXT_BYTES
                &&& encode_utf8(auth_failed_reason@).len() <= MAX_TEXT_BYTES
                &&& public_der_of(key_pair) matches Some(k) && k.len() <= MAX_TEXT_BYTES
            },
    {
        let status_json = status_json(&status);
        if text_len(&status_json) > MAX_TEXT_BYTES || text_len(&reject_reason) > MAX_TEXT_BYTES
            || text_len(&auth_failed_reason) > MAX_TEXT_BYTES {
            return None;
        }
        let public_key = match public_key_der(&key_pair) {
            Some(k) => k,
            None => return None,
        };
        if public_key.len() > MAX_TEXT_BYTES {
            return None;
        }
        Some(
            Server {
                key_pair,
                public_key,
                status_json,
                reject_reason,
                auth_failed_reason,
                auth: AuthPoller::new(auth_timeout, max_pending),
                world: World::load_world(),
            },
        )
    }
}

/// The effect of a handshake read by `d` on client `c0`, giving `c1`.
pub open spec fn handshake_effect(
    c0: Client,
    c1: Client,
    d: PacketDecoder,
    r: Result<Action, DecodeError>,
) -> bool {
    match handshake_at(d.buffer@, d.pos as int) {
        Err(e) => r == Err::<Action, DecodeError>(e) && c1 == c0,
        Ok((version, address, port, next)) => {
            &&& c1 == with_state(c0, requested_state(next))
            &&& r == Ok::<Action, DecodeError>(
                if requested_state(next) == NetworkState::HANDSHAKING {
                    Action::InvalidNextState
                } else {
                    Action::Nothing
                },
            )
        },
    }
}

/// The effect of a ping read by `d`: the pong, sent to `c`, carries the
/// same 64-bit payload.
pub open spec fn ping_effect(c: Client, d: PacketDecoder, r: Result<Action, DecodeError>) -> bool {
    if has_bytes(d, 8) {
        r matches Ok(Action::Send(b)) && b@ == outgoing(
            c,
            1,
            be_bytes(bits64(from_bits64(be_nat(next_bytes(d, 8)))), 8),
        )
    } else {
        r == Err::<Action, DecodeError>(DecodeError::UnexpectedEnd)
    }
}

/// The effect of a login start read by `d` on client `c0`, giving `c1`:
/// the name is stored with a fresh four-byte verify token, and the public
/// key goes out with that token.
pub open spec fn login_start_effect(
    public_key: Seq<u8>,
    c0: Client,
    c1: Client,
    d: PacketDecoder,
    r: Result<Action, DecodeError>,
) -> bool {
    match string_at(d.buffer@, d.pos as int) {
        Err(e) => r == Err::<Action, DecodeError>(e) && c1 == c0,
        Ok((name, n)) => {
            &&& c1.id == c0.id
            &&& c1.state == c0.state
            &&& c1.shared_secret == c0.shared_secret
            &&& c1.compressed == c0.compressed
            &&& c1.player == c0.player
            &&& c1.inbound == c0.inbound
            &&& c1.username matches Some(u) && encode_utf8(u@) == name
            &&& c1.verify_token matches Some(t) && t@.len() == 4
            &&& r matches Ok(Action::Send(b)) && b@ == outgoing(
                c0,
                1,
                encryption_request_payload(public_key, c1.verify_token->Some_0@),
            )
        },
    }
}

/// Whether the poller `a` has room for one more lookup.
pub open spec fn has_room(a: AuthPoller) -> bool {
    a.pending@.len() < a.max_pending && a.next_request < u64::MAX
}

/// Whether the decrypted verify token `token` is the one issued to `c`, and
/// a shared secret came with it.
pub open spec fn token_accepted(c: Client, token: Option<Vec<u8>>, secret: Option<Vec<u8>>) -> bool {
    &&& c.verify_token matches Some(t) && token matches Some(p) && p@ == t@
    &&& secret is Some
}

/// `c` with its verify token spent.
pub open spec fn token_spent(c: Client) -> Client {
    Client { verify_token: None, ..c }
}

/// An accepted encryption response: the token is spent, the secret kept,
/// and a lookup for the client's name is recorded and to be sent; the state
/// stays `LOGIN` until the lookup ends.
pub open spec fn accepted(
    s0: Server,
    s1: Server,
    c0: Client,
    c1: Client,
    secret: Option<Vec<u8>>,
    r: Action,
) -> bool {
    let name = c0.username->Some_0;
    &&& c1 == Client { verify_token: None, shared_secret: secret, ..c0 }
    &&& r == Action::Authenticate(s0.auth.next_request, name)
    &&& s1.auth.next_request == s0.auth.next_request + 1
    &&& s1.auth.pending@ == s0.auth.pending@.push(
        crate::auth::Pending {
            client_id: c0.id,
            request_id: s0.auth.next_request,
            username: name,
            status: crate::auth::AuthStatus::InFlight,
            age: 0,
        },
    )
}

/// A rejected encryption response: the token is spent, the state does not
/// change, and the client is sent the reason and disconnected.
pub open spec fn rejected(s0: Server, s1: Server, c0: Client, c1: Client, r: Action) -> bool {
    &&& c1 == token_spent(c0)
    &&& s1.auth.pending@ == s0.auth.pending@
    &&& s1.auth.next_request == s0.auth.next_request
    &&& r matches Action::Disconnect(b) && b@ == outgoing(c0, 0, string_bytes(s0.reject_reason@))
}

impl Server {
    /// The bytes that carry `encoder`'s packet to `client`.
    fn frame_for(client: &Client, encoder: &PacketEncoder) -> (r: Vec<u8>)
        requires
            encoder.buffer@.len() + 5 <= i32::MAX,
        ensures
            r@ == outgoing(*client, encoder.packet_id as i32, encoder.buffer@),
    {
        encoder.finalize(client.compressed, &client.shared_secret)
    }

    /// Moves a handshaking client to the state its handshake asks for;
    /// any other value leaves it handshaking.
    pub fn handle_handshake(client: &mut Client, decoder: PacketDecoder) -> (r: Result<Action, DecodeError>)
        requires
            old(client).state == NetworkState::HANDSHAKING,
            old(client).wf(),
        ensures
            final(client).wf(),
            handshake_effect(*old(client), *final(client), decoder, r),
    {
        let packet = match S00Handshake::decode(decoder) {
            Ok(p) => p,
            Err(e) => return Err(e),
        };
        if packet.next_state == NetworkState::HANDSHAKING {
            return Ok(Action::InvalidNextState);
        }
        client.state = packet.next_state;
        Ok(Action::Nothing)
    }

    /// The status document, framed for `client`.
    pub fn status_response(&self, client: &Client) -> (r: Vec<u8>)
        requires
            self.wf(),
        ensures
            r@ == outgoing(*client, 0, string_bytes(self.status_json@)),
    {
        let encoder = C00Response { json_response: self.status_json.clone() }.encode();
        proof {
            crate::varint::lemma_varint_round_trip(
                encode_utf8(self.status_json@).len() as i32,
                Seq::empty(),
            );
        }
        Self::frame_for(client, &encoder)
    }

    /// Answers a ping with a pong that carries the same payload.
    pub fn handle_ping(client: &Client, decoder: PacketDecoder) -> (r: Result<Action, DecodeError>)
        ensures
            ping_effect(*client, decoder, r),
    {
        let packet = match S01Ping::decode(decoder) {
            Ok(p) => p,
            Err(e) => return Err(e),
        };
        let encoder = C01Pong { payload: packet.payload }.encode();
        Ok(Action::Send(Self::frame_for(client, &encoder)))
    }

    /// Stores the name a client logs in with, issues it a fresh verify
    /// token, and sends the public key with that token.
    pub fn handle_login_start(&self, client: &mut Client, decoder: PacketDecoder) -> (r: Result<
        Action,
        DecodeError,
    >)
        requires
            self.wf(),
            old(client).state == NetworkState::LOGIN,
            old(client).wf(),
        ensures
            final(client).wf(),
            login_start_effect(self.public_key@, *old(client), *final(client), decoder, r),
    {
        let packet = match S00LoginStart::decode(decoder) {
            Ok(p) => p,
            Err(e) => return Err(e),
        };
        let verify_token = random_token();
        let public_key = self.public_key.clone();
        let encoder = C01EcryptionRequest {
            server_id: String::new(),
            public_key_length: public_key.len() as i32,
            public_key,
            verify_token_length: 4,
            verify_token: verify_token.clone(),
        }.encode();
        proof {
            assert(encode_utf8(Seq::<char>::empty()) == Seq::<u8>::empty()) by {
                reveal_with_fuel(encode_utf8, 1);
            }
            crate::varint::lemma_varint_round_trip(self.public_key@.len() as i32, Seq::empty());
            crate::varint::lemma_varint_round_trip(4, Seq::empty());
            crate::varint::lemma_varint_round_trip(0, Seq::empty());
        }
        let bytes = Self::frame_for(client, &encoder);
        client.verify_token = Some(verify_token);
        client.username = Some(packet.name);
        Ok(Action::Send(bytes))
    }
}

/// The effect of a finished lookup on client `c0`, giving `c1`: a joined
/// player whose login was waiting on it enters play; any other outcome
/// sends the reason and disconnects.
pub open spec fn auth_effect(s: Server, c0: Client, c1: Client, outcome: AuthOutcome, r: Action) -> bool {
    if outcome is Joined && c0.state == NetworkState::LOGIN && c0.username is Some
        && c0.shared_secret is Some {
        &&& c1 == Client {
            state: NetworkState::PLAY,
            verify_token: None,
            player: Some(
                crate::world::Player {
                    username: c0.username->Some_0,
                    position: crate::utils::Location::spawn(),
                },
            ),
            ..c0
        }
        &&& r == Action::Nothing
    } else {
        &&& c1 == c0
        &&& r matches Action::Disconnect(b) && b@ == outgoing(
            c0,
            0,
            string_bytes(s.auth_failed_reason@),
        )
    }
}

/// The effect of an encryption response read by `d`: malformed, it changes
/// nothing; otherwise, whatever its decryption gave, it is either accepted
/// with a verify token that matches or rejected.
pub open spec fn encryption_effect(
    s0: Server,
    s1: Server,
    c0: Client,
    c1: Client,
    d: PacketDecoder,
    r: Result<Action, DecodeError>,
) -> bool {
    match encryption_response_at(d.buffer@, d.pos as int) {
        Err(e) => r == Err::<Action, DecodeError>(e) && c1 == c0 && auth_same(s0, s1),
        Ok(_) => r matches Ok(a) && (exists|token: Option<Vec<u8>>, secret: Option<Vec<u8>>|
            {
                ||| token_accepted(c0, token, secret) && has_room(s0.auth) && accepted(
                    s0,
                    s1,
                    c0,
                    c1,
                    secret,
                    a,
                )
                ||| rejected(s0, s1, c0, c1, a)
            }),
    }
}

/// Whether `s1` keeps every lookup of `s0`, in order, and adds only lookups
/// for client `id` after them.
pub open spec fn lookups_added_only_for(s0: Server, s1: Server, id: u32) -> bool {
    let a = s0.auth.pending@;
    let b = s1.auth.pending@;
    &&& a.len() <= b.len()
    &&& b.subrange(0, a.len() as int) == a
    &&& forall|i: int| a.len() <= i < b.len() ==> #[trigger] b[i].client_id == id
}

proof fn lemma_lookups_same(s0: Server, s1: Server, id: u32)
    requires
        auth_same(s0, s1),
    ensures
        lookups_added_only_for(s0, s1, id),
{
    assert(s1.auth.pending@.subrange(0, s0.auth.pending@.len() as int) == s0.auth.pending@);
}

proof fn lemma_dispatch_lookups(
    s0: Server,
    s1: Server,
    c0: Client,
    c1: Client,
    d: PacketDecoder,
    r: Result<Action, DecodeError>,
)
    requires
        dispatched(s0, s1, c0, c1, d, r),
    ensures
        lookups_added_only_for(s0, s1, c0.id),
        c1.id == c0.id,
{
    let a = s0.auth.pending@;
    let b = s1.auth.pending@;
    if c0.state == NetworkState::LOGIN && d.packet_id == 1 && encryption_response_at(
        d.buffer@,
        d.pos as int,
    ) is Ok {
        let act = r->Ok_0;
        let (t, sec) = choose|t: Option<Vec<u8>>, sec: Option<Vec<u8>>|
            {
                ||| token_accepted(c0, t, sec) && has_room(s0.auth) && accepted(
                    s0,
                    s1,
                    c0,
                    c1,
                    sec,
                    act,
                )
                ||| rejected(s0, s1, c0, c1, act)
            };
        if rejected(s0, s1, c0, c1, act) {
            lemma_lookups_same(s0, s1, c0.id);
        } else {
            assert(b.subrange(0, a.len() as int) == a);
        }
    } else {
        lemma_lookups_same(s0, s1, c0.id);
    }
}

proof fn lemma_lookups_added_trans(s0: Server, s1: Server, s2: Server, id: u32)
    requires
        lookups_added_only_for(s0, s1, id),
        lookups_added_only_for(s1, s2, id),
    ensures
        lookups_added_only_for(s0, s2, id),
{
    let a = s0.auth.pending@;
    let b = s1.auth.pending@;
    let c = s2.auth.pending@;
    assert(c.subrange(0, a.len() as int) == b.subrange(0, a.len() as int));
    assert forall|i: int| a.len() <= i < c.len() implies #[trigger] c[i].client_id == id by {
        if i < b.len() {
            assert(c[i] == c.subrange(0, b.len() as int)[i]);
        }
    }
}

/// Whether the outstanding lookups are the same in both servers.
pub open spec fn auth_same(s0: Server, s1: Server) -> bool {
    s1.auth.pending@ == s0.auth.pending@ && s1.auth.next_request == s0.auth.next_request
}

/// A packet that means nothing in its client's state: nothing changes, and
/// the id is reported.
pub open spec fn unknown_effect(
    s0: Server,
    s1: Server,
    c0: Client,
    c1: Client,
    id: i32,
    r: Result<Action, DecodeError>,
) -> bool {
    c1 == c0 && auth_same(s0, s1) && r == Ok::<Action, DecodeError>(Action::Unknown(id))
}

/// What the frame read by `d` does, by its client's state and packet id.
pub open spec fn dispatched(
    s0: Server,
    s1: Server,
    c0: Client,
    c1: Client,
    d: PacketDecoder,
    r: Result<Action, DecodeError>,
) -> bool {
    let id = d.packet_id;
    match c0.state {
        NetworkState::HANDSHAKING => if id == 0 {
            handshake_effect(c0, c1, d, r) && auth_same(s0, s1)
        } else {
            unknown_effect(s0, s1, c0, c1, id, r)
        },
        NetworkState::STATUS => if id == 0 {
            &&& r matches Ok(Action::Send(b)) && b@ == outgoing(
                c0,
                0,
                string_bytes(s0.status_json@),
            )
            &&& c1 == c0
            &&& auth_same(s0, s1)
        } else if id == 1 {
            ping_effect(c0, d, r) && c1 == c0 && auth_same(s0, s1)
        } else {
            unknown_effect(s0, s1, c0, c1, id, r)
        },
        NetworkState::LOGIN => if id == 0 {
            login_start_effect(s0.public_key@, c0, c1, d, r) && auth_same(s0, s1)
        } else if id == 1 {
            encryption_effect(s0, s1, c0, c1, d, r)
        } else {
            unknown_effect(s0, s1, c0, c1, id, r)
        },
        NetworkState::PLAY => unknown_effect(s0, s1, c0, c1, id, r),
    }
}

/// Whether handling `frames` in order took server `s0` and client `c0`
/// through the servers `ss` and clients `cs` to `s1` and `c1`, with the
/// decoders `dec`, and gave the actions `acts`.
pub open spec fn ran(
    s0: Server,
    s1: Server,
    c0: Client,
    c1: Client,
    frames: Seq<Seq<u8>>,
    acts: Seq<Action>,
    dec: Seq<PacketDecoder>,
    cs: Seq<Client>,
    ss: Seq<Server>,
) -> bool {
    &&& acts.len() == frames.len()
    &&& dec.len() == frames.len()
    &&& cs.len() == frames.len() + 1
    &&& ss.len() == frames.len() + 1
    &&& cs[0] == c0
    &&& ss[0] == s0
    &&& cs.last() == c1
    &&& ss.last() == s1
    &&& forall|k: int|
        0 <= k < frames.len() ==> decodes(#[trigger] dec[k], frames[k]) && dispatched(
            ss[k],
            ss[k + 1],
            cs[k],
            cs[k + 1],
            dec[k],
            Ok::<Action, DecodeError>(acts[k]),
        )
}

/// What handling the bytes `bytes` of one read does: the frames that the
/// client's unfinished frame and `bytes` hold are handled in order, and the
/// bytes of a frame still unfinished are kept; or a frame is malformed.
pub open spec fn received(
    s0: Server,
    s1: Server,
    c0: Client,
    c1: Client,
    bytes: Seq<u8>,
    r: Result<Vec<Action>, DecodeError>,
) -> bool {
    match split_batch(c0.inbound@ + bytes) {
        Err(e) => {
            &&& r == Err::<Vec<Action>, DecodeError>(e)
            &&& auth_same(s0, s1)
            &&& c1 == with_inbound(c0, c1.inbound)
        },
        Ok((frames, rest)) => c1.inbound@ == rest && match r {
            Ok(acts) => exists|dec: Seq<PacketDecoder>, cs: Seq<Client>, ss: Seq<Server>|
                #[trigger] ran(s0, s1, with_inbound(c0, c1.inbound), c1, frames, acts@, dec, cs, ss),
            Err(e) => exists|
                acts: Seq<Action>,
                dec: Seq<PacketDecoder>,
                cs: Seq<Client>,
                ss: Seq<Server>,
            | #[trigger] failed_at(s0, s1, with_inbound(c0, c1.inbound), c1, frames, e, acts, dec, cs, ss),
        },
    }
}

/// Whether handling `frames` in order went as `ran` says for the first
/// `acts.len()` of them, and the next one was malformed with error `e`.
pub open spec fn failed_at(
    s0: Server,
    s1: Server,
    c0: Client,
    c1: Client,
    frames: Seq<Seq<u8>>,
    e: DecodeError,
    acts: Seq<Action>,
    dec: Seq<PacketDecoder>,
    cs: Seq<Client>,
    ss: Seq<Server>,
) -> bool {
    let k = acts.len() as int;
    &&& k < frames.len()
    &&& dec.len() == frames.len()
    &&& ran(s0, ss.last(), c0, cs.last(), frames.subrange(0, k), acts, dec.subrange(0, k), cs, ss)
    &&& decodes(dec[k], frames[k])
    &&& dispatched(ss.last(), s1, cs.last(), c1, dec[k], Err::<Action, DecodeError>(e))
}

proof fn lemma_received_ok(
    s0: Server,
    s1: Server,
    c0: Client,
    c1: Client,
    bytes: Seq<u8>,
    frames: Seq<Seq<u8>>,
    acts: Vec<Action>,
    dec: Seq<PacketDecoder>,
    cs: Seq<Client>,
    ss: Seq<Server>,
)
    requires
        split_batch(c0.inbound@ + bytes) == Ok::<(Seq<Seq<u8>>, Seq<u8>), DecodeError>(
            (frames, c1.inbound@),
        ),
        ran(s0, s1, with_inbound(c0, c1.inbound), c1, frames, acts@, dec, cs, ss),
    ensures
        received(s0, s1, c0, c1, bytes, Ok::<Vec<Action>, DecodeError>(acts)),
{
    let r = Ok::<Vec<Action>, DecodeError>(acts);
    let split = split_batch(c0.inbound@ + bytes);
    assert(split->Ok_0.0 == frames);
    assert(r->Ok_0 == acts);
    assert(exists|dec: Seq<PacketDecoder>, cs: Seq<Client>, ss: Seq<Server>|
        #[trigger] ran(s0, s1, with_inbound(c0, c1.inbound), c1, split->Ok_0.0, r->Ok_0@, dec, cs, ss));
}

proof fn lemma_received_err(
    s0: Server,
    s1: Server,
    c0: Client,
    c1: Client,
    bytes: Seq<u8>,
    frames: Seq<Seq<u8>>,
    e: DecodeError,
    acts: Seq<Action>,
    dec: Seq<PacketDecoder>,
    cs: Seq<Client>,
    ss: Seq<Server>,
)
    requires
        split_batch(c0.inbound@ + bytes) == Ok::<(Seq<Seq<u8>>, Seq<u8>), DecodeError>(
            (frames, c1.inbound@),
        ),
        failed_at(s0, s1, with_inbound(c0, c1.inbound), c1, frames, e, acts, dec, cs, ss),
    ensures
        received(s0, s1, c0, c1, bytes, Err::<Vec<Action>, DecodeError>(e)),
{
    let r = Err::<Vec<Action>, DecodeError>(e);
    let split = split_batch(c0.inbound@ + bytes);
    assert(split->Ok_0.0 == frames);
    assert(r->Err_0 == e);
    assert(exists|acts: Seq<Action>, dec: Seq<PacketDecoder>, cs: Seq<Client>, ss: Seq<Server>|
        #[trigger] failed_at(s0, s1, with_inbound(c0, c1.inbound), c1, split->Ok_0.0, r->Err_0, acts, dec, cs, ss));
}

/// `c` with `bytes` as its unfinished frame.
pub open spec fn with_inbound(c: Client, bytes: Vec<u8>) -> Client {
    Client { inbound: bytes, ..c }
}

impl Server {
    /// Handles the bytes of one read from `client`'s connection: they are
    /// put after the client's unfinished frame, the whole frames are
    /// handled in order, and the bytes of a frame still unfinished are kept
    /// for the next read. An error means a frame is malformed, which ends
    /// the connection.
    pub fn receive_bytes(&mut self, client: &mut Client, bytes: Vec<u8>) -> (r: Result<
        Vec<Action>,
        DecodeError,
    >)
        requires
            old(self).wf(),
            old(client).wf(),
        ensures
            final(self).wf(),
            final(client).wf(),
            same_config(*old(self), *final(self)),
            final(client).id == old(client).id,
            lookups_added_only_for(*old(self), *final(self), old(client).id),
            received(*old(self), *final(self), *old(client), *final(client), bytes@, r),
    {
        let mut joined: Vec<u8> = Vec::new();
        std::mem::swap(&mut joined, &mut client.inbound);
        let mut more = bytes;
        joined.append(&mut more);
        assert(joined@ == old(client).inbound@ + bytes@);
        proof {
            lemma_lookups_same(*old(self), *self, old(client).id);
        }
        let (decoders, left) = match PacketDecoder::new_batch(joined, client) {
            Ok(v) => v,
            Err(e) => return Err(e),
        };
        client.inbound = left;
        assert(*client == with_inbound(*old(client), client.inbound));
        let ghost frames = match split_batch(old(client).inbound@ + bytes@) {
            Ok((fs, _)) => fs,
            Err(_) => Seq::empty(),
        };
        let ghost dec = decoders@;
        let ghost c_start = *client;
        let ghost mut cs: Seq<Client> = seq![*client];
        let ghost mut ss: Seq<Server> = seq![*self];
        let mut rest_decoders = decoders;
        let mut acts: Vec<Action> = Vec::new();
        let n = rest_decoders.len();
        let mut k: usize = 0;
        while k < n
            invariant
                n == dec.len(),
                dec.len() == frames.len(),
                k <= n,
                rest_decoders@ == dec.subrange(k as int, n as int),
                forall|j: int| 0 <= j < frames.len() ==> #[trigger] decodes(dec[j], frames[j]),
                ran(
                    *old(self),
                    *self,
                    c_start,
                    *client,
                    frames.subrange(0, k as int),
                    acts@,
                    dec.subrange(0, k as int),
                    cs,
                    ss,
                ),
                client.inbound == c_start.inbound,
                client.id == old(client).id,
                lookups_added_only_for(*old(self), *self, old(client).id),
                c_start == with_inbound(*old(client), c_start.inbound),
                split_batch(old(client).inbound@ + bytes@) == Ok::<
                    (Seq<Seq<u8>>, Seq<u8>),
                    DecodeError,
                >((frames, c_start.inbound@)),
                self.wf(),
                client.wf(),
                same_config(*old(self), *self),
            decreases n - k,
        {
            let d = rest_decoders.remove(0);
            assert(d == dec[k as int]);
            let ghost c_before = *client;
            let ghost s_before = *self;
            let ghost s_mid = *self;
            let a = match self.handle_packet(client, d.buffer) {
                Ok(a) => a,
                Err(e) => {
                    proof {
                        lemma_lookups_added_trans(*old(self), s_mid, *self, old(client).id);
                        assert(decodes(dec[k as int], frames[k as int]));
                        assert(acts@.len() == k);
                        assert(dispatched(s_before, *self, c_before, *client, dec[k as int], Err::<Action, DecodeError>(e)));
                        assert(dec.subrange(0, k as int) == dec.subrange(0, acts@.len() as int));
                        assert(failed_at(
                            *old(self),
                            *self,
                            with_inbound(*old(client), client.inbound),
                            *client,
                            frames,
                            e,
                            acts@,
                            dec,
                            cs,
                            ss,
                        ));
                    }
                    let r = Err(e);
                    proof {
                        lemma_received_err(
                            *old(self),
                            *self,
                            *old(client),
                            *client,
                            bytes@,
                            frames,
                            e,
                            acts@,
                            dec,
                            cs,
                            ss,
                        );
                    }
                    return r;
                },
            };
            proof {
                lemma_lookups_added_trans(*old(self), s_mid, *self, old(client).id);
                assert(decodes(dec[k as int], frames[k as int]));
                let fk = frames.subrange(0, k + 1);
                let dk = dec.subrange(0, k + 1);
                let cs2 = cs.push(*client);
                let ss2 = ss.push(*self);
                assert forall|j: int| 0 <= j < fk.len() implies decodes(#[trigger] dk[j], fk[j]) && dispatched(
                    ss2[j],
                    ss2[j + 1],
                    cs2[j],
                    cs2[j + 1],
                    dk[j],
                    Ok::<Action, DecodeError>(acts@.push(a)[j]),
                ) by {
                    if j < k {
                        assert(dk[j] == dec.subrange(0, k as int)[j]);
                        assert(fk[j] == frames.subrange(0, k as int)[j]);
                    }
                }
                cs = cs2;
                ss = ss2;
            }
            acts.push(a);
            k = k + 1;
        }
        proof {
            assert(frames.subrange(0, n as int) == frames);
            assert(ran(
                *old(self),
                *self,
                with_inbound(*old(client), client.inbound),
                *client,
                frames,
                acts@,
                dec.subrange(0, n as int),
                cs,
                ss,
            ));
            lemma_received_ok(
                *old(self),
                *self,
                *old(client),
                *client,
                bytes@,
                frames,
                acts,
                dec.subrange(0, n as int),
                cs,
                ss,
            );
        }
        Ok(acts)
    }

    /// Reads one frame and does what its packet means in the client's
    /// state; a packet id the state does not know is reported, not fatal.
    /// An error means the frame is malformed, which ends the connection.
    pub fn handle_packet(&mut self, client: &mut Client, packet: Vec<u8>) -> (r: Result<
        Action,
        DecodeError,
    >)
        requires
            old(self).wf(),
            old(client).wf(),
        ensures
            final(self).wf(),
            final(client).wf(),
            same_config(*old(self), *final(self)),
            final(client).inbound == old(client).inbound,
            final(client).id == old(client).id,
            lookups_added_only_for(*old(self), *final(self), old(client).id),
            match frame_header(packet@) {
                Err(e) => r == Err::<Action, DecodeError>(e) && *final(client) == *old(client)
                    && auth_same(*old(self), *final(self)),
                Ok((len, id, start)) => dispatched(
                    *old(self),
                    *final(self),
                    *old(client),
                    *final(client),
                    PacketDecoder { buffer: packet, packet_id: id, length: len, pos: start as usize },
                    r,
                ),
            },
    {
        let ghost bytes = packet;
        let decoder = match PacketDecoder::new(packet, client) {
            Ok(d) => d,
            Err(e) => {
                proof {
                    lemma_lookups_same(*old(self), *self, old(client).id);
                }
                return Err(e);
            },
        };
        proof {
            crate::varint::lemma_var_at_within(bytes@, 0, 5);
        }
        let id = decoder.packet_id;
        let ghost dg = decoder;
        let r = match client.state {
            NetworkState::HANDSHAKING => {
                if id == 0 {
                    Self::handle_handshake(client, decoder)
                } else {
                    Ok(Action::Unknown(id))
                }
            },
            NetworkState::STATUS => {
                if id == 0 {
                    Ok(Action::Send(self.status_response(client)))
                } else if id == 1 {
                    Self::handle_ping(client, decoder)
                } else {
                    Ok(Action::Unknown(id))
                }
            },
            NetworkState::LOGIN => {
                if id == 0 {
                    self.handle_login_start(client, decoder)
                } else if id == 1 {
                    self.handle_encryption_response(client, decoder)
                } else {
                    Ok(Action::Unknown(id))
                }
            },
            NetworkState::PLAY => Ok(Action::Unknown(id)),
        };
        proof {
            lemma_dispatch_lookups(*old(self), *self, *old(client), *client, dg, r);
        }
        r
    }

    /// The reason `reason`, framed for `client` as a disconnect.
    fn disconnect_frame(client: &Client, reason: &String) -> (r: Vec<u8>)
        requires
            encode_utf8(reason@).len() <= MAX_TEXT_BYTES,
        ensures
            r@ == outgoing(*client, 0, string_bytes(reason@)),
    {
        let encoder = C00Disconnect { reason: reason.clone() }.encode();
        proof {
            crate::varint::lemma_varint_round_trip(encode_utf8(reason@).len() as i32, Seq::empty());
        }
        Self::frame_for(client, &encoder)
    }

    /// Decides an encryption response from its decrypted verify token and
    /// shared secret (`None` where decryption failed): when the token is the
    /// one issued to the client and a secret came with it, the secret is
    /// kept and a lookup of the client's name is recorded, if the poller has
    /// room; otherwise the login is rejected. Either way the token is spent.
    pub fn finish_encryption(
        &mut self,
        client: &mut Client,
        token: Option<Vec<u8>>,
        secret: Option<Vec<u8>>,
    ) -> (r: Action)
        requires
            old(self).wf(),
            old(client).state == NetworkState::LOGIN,
            old(client).wf(),
        ensures
            final(self).wf(),
            final(client).wf(),
            same_config(*old(self), *final(self)),
            token_accepted(*old(client), token, secret) && has_room(old(self).auth) ==> accepted(
                *old(self),
                *final(self),
                *old(client),
                *final(client),
                secret,
                r,
            ),
            !(token_accepted(*old(client), token, secret) && has_room(old(self).auth)) ==> rejected(
                *old(self),
                *final(self),
                *old(client),
                *final(client),
                r,
            ),
    {
        let matches = match (&client.verify_token, &token) {
            (Some(t), Some(p)) => vec_eq(t, p),
            _ => false,
        };
        client.verify_token = None;
        if matches && secret.is_some() {
            let name = match &client.username {
                Some(u) => u.clone(),
                None => String::new(),
            };
            let id = client.id;
            if let Some(request) = self.auth.submit(id, name.clone()) {
                client.shared_secret = secret;
                return Action::Authenticate(request, name);
            }
        }
        Action::Disconnect(Self::disconnect_frame(client, &self.reject_reason))
    }

    /// Reads an encryption response, decrypts its token and secret with the
    /// server's private key, and decides it as `finish_encryption` does for
    /// whatever the decryption gave.
    pub fn handle_encryption_response(
        &mut self,
        client: &mut Client,
        decoder: PacketDecoder,
    ) -> (r: Result<Action, DecodeError>)
        requires
            old(self).wf(),
            old(client).state == NetworkState::LOGIN,
            old(client).wf(),
        ensures
            final(self).wf(),
            final(client).wf(),
            same_config(*old(self), *final(self)),
            encryption_effect(*old(self), *final(self), *old(client), *final(client), decoder, r),
    {
        let packet = match S01EncryptionResponse::decode(decoder) {
            Ok(p) => p,
            Err(e) => return Err(e),
        };
        let token = if packet.verify_token.len() <= i32::MAX as usize {
            rsa_decrypt(&self.key_pair, packet.verify_token.as_slice())
        } else {
            None
        };
        let secret = if packet.shared_secret.len() <= i32::MAX as usize {
            rsa_decrypt(&self.key_pair, packet.shared_secret.as_slice())
        } else {
            None
        };
        let ghost (t0, s0) = (token, secret);
        let a = self.finish_encryption(client, token, secret);
        assert(token_accepted(*old(client), t0, s0) && has_room(old(self).auth) ==> accepted(
            *old(self), *self, *old(client), *client, s0, a));
        Ok(a)
    }

    /// Ends a login with the outcome of its lookup: a joined player whose
    /// login was waiting on it enters play; any other outcome disconnects
    /// the client with the reason.
    pub fn on_auth_result(&self, client: &mut Client, outcome: AuthOutcome) -> (r: Action)
        requires
            self.wf(),
            old(client).wf(),
        ensures
            final(client).wf(),
            auth_effect(*self, *old(client), *final(client), outcome, r),
    {
        let joined = matches!(outcome, AuthOutcome::Joined(_));
        if joined && client.state == NetworkState::LOGIN && client.shared_secret.is_some() {
            if let Some(name) = &client.username {
                let player = self.world.load_player(name.clone());
                client.player = Some(player);
                client.state = NetworkState::PLAY;
                client.verify_token = None;
                return Action::Nothing;
            }
        }
        Action::Disconnect(Self::disconnect_frame(client, &self.auth_failed_reason))
    }

    /// Forgets the lookups of a client whose connection has closed, so that
    /// no outcome is ever reported for it.
    pub fn client_closed(&mut self, client_id: u32)
        requires
            old(self).wf(),
        ensures
            final(self).wf(),
            same_config(*old(self), *final(self)),
            final(self).auth.pending@ == crate::auth::without_client(old(self).auth.pending@, client_id),
    {
        self.auth.discard_client(client_id);
    }

    /// Polls the outstanding lookups once, without waiting on any; the
    /// finished ones are handed back with their clients, in order.
    pub fn poll_auth(&mut self) -> (r: Vec<(u32, AuthOutcome)>)
        requires
            old(self).wf(),
        ensures
            final(self).wf(),
            same_config(*old(self), *final(self)),
            final(self).auth.pending@ == kept(old(self).auth.pending@, old(self).auth.timeout_ticks),
            r@ == done(old(self).auth.pending@, old(self).auth.timeout_ticks),
    {
        self.auth.poll_once()
    }
}

/// Packets move a client only along the transition table: from
/// `HANDSHAKING` to `STATUS` or `LOGIN`, and nowhere else; a finished
/// lookup moves it only from `LOGIN` to `PLAY`.
pub proof fn lemma_transitions_follow_table(
    s0: Server,
    s1: Server,
    c0: Client,
    c1: Client,
    d: PacketDecoder,
    r: Result<Action, DecodeError>,
    outcome: AuthOutcome,
    a: Action,
)
    ensures
        dispatched(s0, s1, c0, c1, d, r) ==> c1.state == c0.state || (c0.state
            == NetworkState::HANDSHAKING && (c1.state == NetworkState::STATUS || c1.state
            == NetworkState::LOGIN)),
        auth_effect(s0, c0, c1, outcome, a) ==> c1.state == c0.state || (c0.state
            == NetworkState::LOGIN && c1.state == NetworkState::PLAY),
{
}

/// A pong carries the eight payload bytes of its ping unchanged.
pub proof fn lemma_pong_echoes_ping(payload: Seq<u8>)
    requires
        payload.len() == 8,
    ensures
        be_bytes(bits64(from_bits64(be_nat(payload))), 8) == payload,
{
    crate::codec::lemma_be_round_trip(payload);
    reveal_with_fuel(crate::codec::pow256, 9);
    assert(bits64(from_bits64(be_nat(payload))) == be_nat(payload));
}

/// Whether two byte vectors hold the same bytes.
pub fn vec_eq(a: &Vec<u8>, b: &Vec<u8>) -> (r: bool)
    ensures
        r == (a@ == b@),
{
    if a.len() != b.len() {
        return false;
    }
    let mut i: usize = 0;
    while i < a.len()
        invariant
            a@.len() == b@.len(),
            i <= a@.len(),
            forall|j: int| 0 <= j < i ==> a@[j] == b@[j],
        decreases a@.len() - i,
    {
        if a[i] != b[i] {
            return false;
        }
        i = i + 1;
    }
    assert(a@ == b@);
    true
}

} // verus!
