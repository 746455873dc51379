use vstd::prelude::*;
use super::piece_map::PieceMap;
use crate::storage::Storage;
use crate::torrent::Torrent;

verus! {

/// How far the download of one piece has come.
#[derive(Clone, Copy, PartialEq, Eq, Structural, Debug)]
pub enum PieceStatus {
    /// No session has the piece or is fetching it.
    Missing,
    /// One session is fetching the piece.
    InProgress,
    /// The piece has been verified and stored.
    Have,
}

/// The download of one torrent.
pub struct Downloader {
    /// The manifest.
    pub torrent: Torrent,
    /// Our peer id in this download.
    pub peer_id: [u8; 20],
    /// Where the content is stored.
    pub storage: Storage,
    /// The state of the pieces, with the byte counters.
    pub pieces: PieceMap,
    /// The length of the content in bytes.
    pub total_length: u64,
}

} // verus!
