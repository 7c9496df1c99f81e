//! The connection state machine and the per-connection session record.
use vstd::prelude::*;
use crate::world::Player;

verus! {

/// The protocol phase of a connection.
#[derive(Clone, Copy, Debug, PartialEq, Eq, Structural)]
pub enum NetworkState {
    HANDSHAKING,
    STATUS,
    LOGIN,
    PLAY,
}

/// The protocol-level session bound to one connection.
pub struct Client {
    pub id: u32,
    pub state: NetworkState,
    pub shared_secret: Option<Vec<u8>>,
    pub compressed: bool,
    pub verify_token: Option<Vec<u8>>,
    pub player: Option<Player>,
    pub username: Option<String>,
    /// Received bytes of a frame that has not fully arrived.
    pub inbound: Vec<u8>,
}

impl Client {
    /// A fresh session for connection `id`, in the handshaking state.
    pub fn new(id: u32) -> (r: Client)
        ensures
            r.id == id,
            r.state == NetworkState::HANDSHAKING,
            r.shared_secret is None,
            !r.compressed,
            r.verify_token is None,
            r.player is None,
            r.username is None,
            r.inbound@.len() == 0,
            r.wf(),
    {
        Client {
            id,
            state: NetworkState::HANDSHAKING,
            shared_secret: None,
            compressed: false,
            verify_token: None,
            player: None,
            username: None,
            inbound: Vec::new(),
        }
    }
}

} // verus!
