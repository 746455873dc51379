//! The peer wire protocol: the handshake, the framed messages, and what a
//! connection knows of its remote peer.
pub mod bitfield;
pub mod connection;
pub mod extension;
pub mod laws;
pub mod message;

pub use connection::PeerConnection;
pub use message::Message;
pub use message::WireError;
