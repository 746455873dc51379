//! A BitTorrent peer engine, as far as it computes and decides.
//!
//! The library holds the bencoded value codec, the manifest of a torrent,
//! the peer wire protocol, the state of the pieces of a download with what a
//! session does on each message of its peer, the fetching of metadata for a
//! magnet link, the node of the distributed hash table, and the tracker
//! protocols with a tracker of its own. It reads no file and opens no
//! socket: its callers hand it bytes and send what it gives back.
pub mod bencoding;
pub mod buffer;
pub mod byte_order;
pub mod lex_order;
pub mod decimal;
pub mod dht;
pub mod downloader;
pub mod magnet;
pub mod metadata;
pub mod peer;
pub mod peer_addr;
pub mod random;
pub mod storage;
pub mod text;
pub mod torrent;
pub mod tracker;
pub mod url_parts;

pub use torrent::parse_torrent;
pub use torrent::Torrent;
