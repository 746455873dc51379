use std::collections::HashSet;
use vstd::prelude::*;
use super::state::Downloader;
use crate::peer_addr::{PeerAddr, lemma_key_injective};
use crate::text::texts_of;
use crate::torrent::Torrent;
use crate::tracker::{TrackerEvent, TrackerRequest};

verus! {

/// The greatest number of sessions that run at a time.
pub const MAX_SESSIONS: usize = 50;

/// The port that we announce to trackers.
pub const LISTEN_PORT: u16 = 6881;

/// The number of peers that we ask a tracker for.
pub const NUM_WANT: u32 = 50;

/// The URLs of `tier` from index `i` on that are not `announce`.
pub open spec fn tier_urls(tier: Seq<String>, announce: Seq<char>, i: int) -> Seq<Seq<char>>
    decreases tier.len() - i,
{
    if i < 0 || i >= tier.len() {
        Seq::empty()
    } else if tier[i]@ == announce {
        tier_urls(tier, announce, i + 1)
    } else {
        seq![tier[i]@] + tier_urls(tier, announce, i + 1)
    }
}

/// The URLs of the tiers from index `t` on that are not `announce`, tier by
/// tier.
pub open spec fn tiers_urls(tiers: Seq<Vec<String>>, announce: Seq<char>, t: int) -> Seq<Seq<char>>
    decreases tiers.len() - t,
{
    if t < 0 || t >= tiers.len() {
        Seq::empty()
    } else {
        tier_urls(tiers[t]@, announce, 0) + tiers_urls(tiers, announce, t + 1)
    }
}

/// The URLs of the trackers of a manifest, in the order in which they are
/// asked: its `announce` URL first, then every URL of its tiers that is not
/// the `announce` URL.
pub open spec fn spec_tracker_urls(torrent: Torrent) -> Seq<Seq<char>> {
    seq![torrent.announce@] + match torrent.announce_list {
        Some(tiers) => tiers_urls(tiers@, torrent.announce@, 0),
        None => Seq::empty(),
    }
}

/// The URLs of the trackers of a manifest, in the order in which they are
/// asked.
pub fn tracker_urls(torrent: &Torrent) -> (urls: Vec<String>)
    ensures
        texts_of(urls@) == spec_tracker_urls(*torrent),
{
    let mut urls: Vec<String> = Vec::new();
    urls.push(torrent.announce.clone());
    assert(texts_of(urls@) =~= seq![torrent.announce@]);
    match &torrent.announce_list {
        Some(tiers) => {
            let mut t: usize = 0;
            while t < tiers.len()
                invariant
                    t <= tiers@.len(),
                    texts_of(urls@) + tiers_urls(tiers@, torrent.announce@, t as int) == seq![
                        torrent.announce@,
                    ] + tiers_urls(tiers@, torrent.announce@, 0),
                decreases tiers@.len() - t,
            {
                let tier = &tiers[t];
                let ghost after = tiers_urls(tiers@, torrent.announce@, t + 1);
                let mut i: usize = 0;
                while i < tier.len()
                    invariant
                        i <= tier@.len(),
                        t < tiers@.len(),
                        tier == &tiers@[t as int],
                        after == tiers_urls(tiers@, torrent.announce@, t + 1),
                        texts_of(urls@) + tier_urls(tier@, torrent.announce@, i as int) + after
                            == seq![torrent.announce@] + tiers_urls(
                            tiers@,
                            torrent.announce@,
                            0,
                        ),
                    decreases tier@.len() - i,
                {
                    let ghost before = texts_of(urls@);
                    if tier[i] != torrent.announce {
                        urls.push(tier[i].clone());
                        assert(texts_of(urls@) =~= before + seq![tier@[i as int]@]);
                    }
                    assert(texts_of(urls@) + tier_urls(tier@, torrent.announce@, i + 1) =~= before
                        + tier_urls(tier@, torrent.announce@, i as int));
                    i = i + 1;
                }
                assert(texts_of(urls@) + tier_urls(tier@, torrent.announce@, i as int) =~= texts_of(urls@));
                t = t + 1;
            }
            assert(texts_of(urls@) + tiers_urls(tiers@, torrent.announce@, t as int) =~= texts_of(urls@));
        },
        None => {},
    }
    urls
}

impl Downloader {
    /// The request that opens the download at a tracker: the event
    /// `Started`, nothing uploaded or downloaded since, what is still
    /// missing of the content as `left`, and 50 peers wanted in the compact
    /// form.
    pub fn announce_request(&self) -> (req: TrackerRequest)
        requires
            self.wf(),
        ensures
            req.info_hash == self.torrent.info_hash,
            req.peer_id == self.peer_id,
            req.port == LISTEN_PORT,
            req.uploaded == 0,
            req.downloaded == 0,
            req.left == self.total_length - self.pieces.downloaded_bytes,
            req.compact,
            !req.no_peer_id,
            req.event == Some(TrackerEvent::Started),
            req.ip is None,
            req.numwant == Some(NUM_WANT),
            req.key is None,
            req.tracker_id is None,
    {
        proof {
            super::laws::lemma_downloaded_bytes(self.pieces);
        }
        TrackerRequest {
            info_hash: self.torrent.info_hash,
            peer_id: self.peer_id,
            port: LISTEN_PORT,
            uploaded: 0,
            downloaded: 0,
            left: self.total_length - self.pieces.downloaded_bytes,
            compact: true,
            no_peer_id: false,
            event: Some(TrackerEvent::Started),
            ip: None,
            numwant: Some(NUM_WANT),
            key: None,
            tracker_id: None,
        }
    }
}

/// The endpoints that have a session, or have been tried for one.
pub struct ConnectedPeers {
    /// The number of each endpoint.
    pub keys: HashSet<u64>,
}

impl ConnectedPeers {
    /// Whether `addr` is among the endpoints.
    pub open spec fn contains(&self, addr: PeerAddr) -> bool {
        self.keys@.contains(addr.spec_key())
    }

    /// No endpoint.
    pub fn new() -> (c: ConnectedPeers)
        ensures
            forall|addr: PeerAddr| !c.contains(addr),
    {
        ConnectedPeers { keys: HashSet::new() }
    }

    /// Takes `addr` among the endpoints, unless it is there: returns
    /// whether it was new, so that a candidate that comes again is dropped.
    pub fn try_insert(&mut self, addr: PeerAddr) -> (fresh: bool)
        ensures
            fresh == !old(self).contains(addr),
            forall|other: PeerAddr|
                #[trigger] final(self).contains(other) == (other == addr || old(self).contains(
                    other,
                )),
    {
        broadcast use vstd::std_specs::hash::group_hash_axioms;

        let fresh = self.keys.insert(addr.key());
        proof {
            assert forall|other: PeerAddr| #[trigger]
                self.contains(other) == (other == addr || old(self).contains(other)) by {
                if other.spec_key() == addr.spec_key() {
                    lemma_key_injective(other, addr);
                }
            }
        }
        fresh
    }

    /// Takes `addr` from the endpoints, at the end of its session: the
    /// endpoint may then be offered again.
    pub fn remove(&mut self, addr: PeerAddr)
        ensures
            forall|other: PeerAddr|
                #[trigger] final(self).contains(other) == (other != addr && old(self).contains(
                    other,
                )),
    {
        broadcast use vstd::std_specs::hash::group_hash_axioms;

        let key = addr.key();
        self.keys.remove(&key);
        proof {
            assert forall|other: PeerAddr| #[trigger]
                self.contains(other) == (other != addr && old(self).contains(other)) by {
                if other.spec_key() == addr.spec_key() {
                    lemma_key_injective(other, addr);
                }
            }
        }
    }
}

} // verus!
