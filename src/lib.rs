//! Protocol engine of a length-framed, stateful game-network server:
//! variable-length integers, packet framing, the connection state machine,
//! the verify-token handshake and a non-blocking authentication poller.
pub mod auth;
pub mod chat;
pub mod codec;
pub mod crypto;
pub mod frame;
pub mod network;
pub mod packets;
pub mod protocol;
pub mod status;
pub mod utils;
pub mod varint;
pub mod world;
