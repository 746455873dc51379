//! Announcing to a tracker: the request, the response, and the two
//! protocols by which a tracker is reached.
use vstd::prelude::*;
use vstd::string::StringSliceAdditionalSpecFns;
use crate::peer_addr::PeerAddr;
use crate::text::{ascii, ascii_bytes, has_prefix, starts_with};

pub mod http;
pub mod query;
pub mod server;
pub mod udp;

pub use http::HttpTracker;
pub use udp::UdpTracker;

verus! {

/// What a peer tells a tracker.
#[derive(Debug, Clone)]
pub struct TrackerRequest {
    pub info_hash: [u8; 20],
    pub peer_id: [u8; 20],
    pub port: u16,
    pub uploaded: u64,
    pub downloaded: u64,
    pub left: u64,
    pub compact: bool,
    pub no_peer_id: bool,
    pub event: Option<TrackerEvent>,
    /// The IPv4 address to announce, as a number, where it is not the one
    /// that the request comes from.
    pub ip: Option<u32>,
    pub numwant: Option<u32>,
    pub key: Option<u32>,
    pub tracker_id: Option<String>,
}

/// What happened to the download since the last announce.
#[derive(Debug, Clone, Copy, PartialEq, Eq, Structural)]
pub enum TrackerEvent {
    Started,
    Stopped,
    Completed,
}

/// What a tracker answers.
#[derive(Debug, Clone)]
pub struct TrackerResponse {
    /// The seconds to wait before the next announce.
    pub interval: u32,
    /// The peers of the swarm that the tracker names.
    pub peers: Vec<PeerAddr>,
    /// The number of seeders.
    pub complete: Option<u32>,
    /// The number of leechers.
    pub incomplete: Option<u32>,
}

/// Why an announce failed, as far as the answer of the tracker shows it.
#[derive(Debug, Clone, PartialEq, Eq)]
pub enum TrackerError {
    /// The tracker refused the announce and gave this reason.
    Failure(Vec<u8>),
    /// The answer is no dictionary.
    InvalidResponse,
    /// The answer has no interval.
    MissingInterval,
    /// The answer is shorter than its kind requires.
    TooShort,
    /// The answer echoes another transaction id than the one sent.
    TransactionMismatch,
    /// The answer has this action where another was expected.
    UnexpectedAction(u32),
}

/// The client for a tracker, by the protocol that its URL names.
pub enum TrackerKind {
    Http(HttpTracker),
    Udp(UdpTracker),
}

/// Which protocol the URL `url` names: HTTP for `http://` and `https://`,
/// UDP for `udp://`, none for any other.
pub open spec fn scheme_of(url: Seq<u8>) -> Option<bool> {
    if has_prefix(url, ascii("http://")) || has_prefix(url, ascii("https://")) {
        Some(true)
    } else if has_prefix(url, ascii("udp://")) {
        Some(false)
    } else {
        None
    }
}

/// The client for the tracker at `url`, where its scheme is one of
/// `http`, `https` and `udp`.
pub fn get_tracker_client(url: &str) -> (r: Option<TrackerKind>)
    ensures
        match scheme_of(url.spec_bytes()) {
            Some(true) => r matches Some(TrackerKind::Http(t)) && t.url@ == url@,
            Some(false) => r matches Some(TrackerKind::Udp(t)) && t.url@ == url@,
            None => r is None,
        },
{
    proof {
        reveal_strlit("http://");
        reveal_strlit("https://");
        reveal_strlit("udp://");
    }
    let bytes = url.as_bytes();
    if starts_with(bytes, ascii_bytes("http://").as_slice()) || starts_with(
        bytes,
        ascii_bytes("https://").as_slice(),
    ) {
        Some(TrackerKind::Http(HttpTracker::new(url)))
    } else if starts_with(bytes, ascii_bytes("udp://").as_slice()) {
        Some(TrackerKind::Udp(UdpTracker::new(url)))
    } else {
        None
    }
}

} // verus!
