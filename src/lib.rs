//! Peer-to-peer dispatcher of a lightweight Bitcoin client: message framing,
//! the version handshake, and the routing decisions of the network reactor.
pub mod buffer;
pub mod codec;
pub mod error;
pub mod message;
pub mod p2p;
pub mod peer;
