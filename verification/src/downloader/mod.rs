//! The download of one torrent: the state of its pieces, what a session
//! does with each message of its peer, and the decisions of the manager.
pub mod init;
pub mod laws;
pub mod manager;
pub mod piece_map;
pub mod session;
pub mod state;

pub use init::from_torrent;
pub use piece_map::PieceMap;
pub use session::PeerSession;
pub use state::Downloader;
pub use state::PieceStatus;
