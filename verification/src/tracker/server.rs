//! A tracker, as far as it decides: which request it answers, what it
//! remembers of the peers of each swarm, and what it answers.
use vstd::prelude::*;
use vstd::utf8::encode_utf8;
use crate::bencoding::bencode::{Bencode, Value, dict_insert, entries_view, insert_entry, lemma_view_dict};
use crate::bencoding::encoder::spec_encode;
use crate::lex_order::is_equal;
use crate::decimal::{decimal, parse_digits, parse_digits_spec, push_decimal};
use crate::peer_addr::{PeerAddr, compact_bytes, write_compact_peers};
use crate::text::{ascii, ascii_bytes, has_prefix, lines_of, lossy_string, split_lines, split_words, starts_with, texts_of, utf8_lossy, words_of};
use super::query::{raw_value, raw_value_of};
use crate::url_parts::{ParsedUrl, pairs_view, parse_url, url_parses, url_query, url_query_pairs};

verus! {

/// The seconds between two announces that the tracker asks for.
pub const INTERVAL: i64 = 1800;

/// The nanoseconds after which a peer that has not announced is forgotten:
/// one hour.
pub const PEER_TTL: u128 = 3_600_000_000_000;

/// The greatest number of peers in an answer.
pub const MAX_PEERS: usize = 50;

/// An address of the internet.
#[derive(Clone, Copy, Debug, PartialEq, Eq, Structural)]
pub enum IpAddress {
    /// An IPv4 address as a number, its first octet the most significant.
    V4(u32),
    /// An IPv6 address as a number.
    V6(u128),
}

/// A peer of a swarm, as the tracker remembers it.
#[derive(Debug)]
pub struct Peer {
    /// The id of the peer.
    pub id: String,
    /// Its address.
    pub ip: IpAddress,
    /// Its port.
    pub port: u16,
    /// When it announced last, in nanoseconds of the clock of the tracker.
    pub last_seen: u128,
}

/// What the tracker remembers of a peer.
pub ghost struct PeerView {
    pub id: Seq<char>,
    pub ip: IpAddress,
    pub port: u16,
    pub last_seen: u128,
}

impl View for Peer {
    type V = PeerView;

    open spec fn view(&self) -> PeerView {
        PeerView { id: self.id@, ip: self.ip, port: self.port, last_seen: self.last_seen }
    }
}

/// What the tracker remembers of each of `peers`.
pub open spec fn peer_views(peers: Seq<Peer>) -> Seq<PeerView> {
    Seq::new(peers.len(), |i: int| peers[i]@)
}

/// What the tracker remembers: the peers of each swarm, by info hash.
pub struct TrackerState {
    /// The swarms, each with its info hash, in the order in which they came.
    pub torrents: Vec<(Vec<u8>, Vec<Peer>)>,
}

/// A tracker.
pub struct TrackerServer {
    /// What it remembers.
    pub state: TrackerState,
    /// The port on which it listens.
    pub port: u16,
    /// Whether it runs.
    pub running: bool,
}

/// What the tracker does with a request.
#[derive(Debug)]
pub enum Route {
    /// Nothing: the request is no GET request.
    Ignore,
    /// It handles the announce of this path.
    Announce(String),
    /// It answers that there is no such path.
    NotFound,
}

/// Why an announce was refused.
#[derive(Debug, Clone, Copy, PartialEq, Eq, Structural)]
pub enum AnnounceError {
    /// The path of the request is no part of a URL.
    InvalidUrl,
    /// The query has no `info_hash`.
    MissingInfoHash,
}

/// What the query of an announce says.
#[derive(Debug)]
pub struct AnnounceParams {
    /// The info hash, as the bytes that the query gives.
    pub info_hash: Vec<u8>,
    /// The peer's port, 0 where the query gives none.
    pub port: u16,
    /// The id of the peer, empty where the query gives none.
    pub peer_id: String,
}

/// What the tracker does with a request whose first line has the words
/// `words`: the first must be `GET`; the second is the path, which starts
/// with `/announce` for an announce.
pub open spec fn route_of_words(words: Seq<Seq<char>>) -> Option<Option<Seq<char>>> {
    if words.len() < 2 || encode_utf8(words[0]) != ascii("GET") {
        None
    } else if has_prefix(encode_utf8(words[1]), ascii("/announce")) {
        Some(Some(words[1]))
    } else {
        Some(None)
    }
}

/// What the tracker does with the text of a request: it looks at the
/// words of the first line.
pub open spec fn route_of(text: Seq<char>) -> Option<Option<Seq<char>>> {
    let lines = lines_of(text);
    if lines.len() == 0 {
        None
    } else {
        route_of_words(words_of(lines[0]))
    }
}

/// The index of the last pair at or before `i` with the name `name`, or
/// -1 where there is none.
pub open spec fn last_pair(query: Seq<(Seq<char>, Seq<char>)>, name: Seq<u8>, i: int) -> int
    decreases i + 1,
{
    if i < 0 || i >= query.len() {
        -1
    } else if encode_utf8(query[i].0) == name {
        i
    } else {
        last_pair(query, name, i - 1)
    }
}

/// The value of the last pair with the name `name`.
pub open spec fn param(query: Seq<(Seq<char>, Seq<char>)>, name: Seq<u8>) -> Option<Seq<char>> {
    let i = last_pair(query, name, query.len() - 1);
    if i >= 0 {
        Some(query[i].1)
    } else {
        None
    }
}

/// The port that the text `s` gives: its number where it is a decimal
/// numeral up to 65535, with or without a `+` before it, else 0.
pub open spec fn port_of(s: Seq<u8>) -> u16 {
    let digits = if s.len() > 0 && s[0] == 0x2bu8 {
        s.skip(1)
    } else {
        s
    };
    match parse_digits_spec(digits, 65535) {
        Some(n) => n as u16,
        None => 0,
    }
}

/// What the query of an announce says, given its pairs as text and the
/// query as it stands in the URL: the info hash, as the bytes of the value
/// that the query binds to `info_hash`, the port, 0 where the query gives
/// none, and the id of the peer, empty where the query gives none. A query
/// without an info hash says nothing.
pub open spec fn announce_of(query: Seq<(Seq<char>, Seq<char>)>, raw: Option<Seq<char>>) -> Option<
    (Seq<u8>, u16, Seq<char>),
> {
    let raw_bytes = match raw {
        Some(q) => encode_utf8(q),
        None => Seq::empty(),
    };
    match raw_value_of(raw_bytes, ascii("info_hash")) {
        None => None,
        Some(hash) => Some(
            (
                hash,
                match param(query, ascii("port")) {
                    Some(p) => port_of(encode_utf8(p)),
                    None => 0,
                },
                match param(query, ascii("peer_id")) {
                    Some(id) => id,
                    None => Seq::<char>::empty(),
                },
            ),
        ),
    }
}

/// Whether `params` holds what the query of an announce says.
pub open spec fn params_are(params: AnnounceParams, said: (Seq<u8>, u16, Seq<char>)) -> bool {
    params.info_hash@ == said.0 && params.port == said.1 && params.peer_id@ == said.2
}

/// Whether the peer `p` is still remembered at the time `now`: less than
/// an hour has gone by since it announced last.
pub open spec fn is_fresh(p: PeerView, now: u128) -> bool {
    now < p.last_seen + PEER_TTL
}

/// The peers from index `i` on that are still remembered at `now`, in
/// their order.
pub open spec fn fresh_from(swarm: Seq<PeerView>, now: u128, i: int) -> Seq<PeerView>
    decreases swarm.len() - i,
{
    if i < 0 || i >= swarm.len() {
        Seq::empty()
    } else if is_fresh(swarm[i], now) {
        seq![swarm[i]] + fresh_from(swarm, now, i + 1)
    } else {
        fresh_from(swarm, now, i + 1)
    }
}

/// The index of the first peer at or after `i` with the id `id`, or the
/// number of peers where there is none.
pub open spec fn peer_index(swarm: Seq<PeerView>, id: Seq<char>, i: int) -> int
    decreases swarm.len() - i,
{
    if i < 0 || i >= swarm.len() || swarm[i].id == id {
        i
    } else {
        peer_index(swarm, id, i + 1)
    }
}

/// The swarm after the peer `id` has announced from `ip` and `port` at
/// `now`: the peers that were not seen for an hour are forgotten; the peer
/// is brought up to date where it is known, and added at the end otherwise.
pub open spec fn announced(
    swarm: Seq<PeerView>,
    id: Seq<char>,
    ip: IpAddress,
    port: u16,
    now: u128,
) -> Seq<PeerView> {
    let kept = fresh_from(swarm, now, 0);
    let at = peer_index(kept, id, 0);
    let peer = PeerView { id, ip, port, last_seen: now };
    if at < kept.len() {
        kept.update(at, peer)
    } else {
        kept.push(peer)
    }
}

/// The IPv4 endpoints among the peers from index `i` up to `n`, in their
/// order.
pub open spec fn v4_peers(swarm: Seq<PeerView>, i: int, n: int) -> Seq<PeerAddr>
    decreases n - i,
{
    if i < 0 || i >= n || i >= swarm.len() {
        Seq::empty()
    } else {
        match swarm[i].ip {
            IpAddress::V4(ip) => seq![PeerAddr { ip, port: swarm[i].port }] + v4_peers(
                swarm,
                i + 1,
                n,
            ),
            IpAddress::V6(_) => v4_peers(swarm, i + 1, n),
        }
    }
}

/// The index of the first swarm at or after `i` with the info hash
/// `info_hash`, or the number of swarms where there is none.
pub open spec fn swarm_index(torrents: Seq<(Vec<u8>, Vec<Peer>)>, info_hash: Seq<u8>, i: int) -> int
    decreases torrents.len() - i,
{
    if i < 0 || i >= torrents.len() || torrents[i].0@ == info_hash {
        i
    } else {
        swarm_index(torrents, info_hash, i + 1)
    }
}

/// The peers of the swarm `info_hash`; none where the tracker has no such
/// swarm.
pub open spec fn swarm_of(torrents: Seq<(Vec<u8>, Vec<Peer>)>, info_hash: Seq<u8>) -> Seq<PeerView> {
    let i = swarm_index(torrents, info_hash, 0);
    if i < torrents.len() {
        peer_views(torrents[i].1@)
    } else {
        Seq::empty()
    }
}

/// The body of the answer to an announce: the encoding of a dictionary
/// with the interval and the peers in the compact form.
pub open spec fn announce_body(peers: Seq<PeerAddr>) -> Seq<u8> {
    spec_encode(
        Value::Dict(
            dict_insert(
                dict_insert(Seq::empty(), ascii("interval"), Value::Int(INTERVAL as int)),
                ascii("peers"),
                Value::Bytes(compact_bytes(peers, 0)),
            ),
        ),
    )
}

/// The answer that carries `body`: the status line, the headers with the
/// length of the body, an empty line, and the body.
pub open spec fn ok_response(body: Seq<u8>) -> Seq<u8> {
    ascii("HTTP/1.1 200 OK\r\nContent-Type: text/plain\r\nContent-Length: ") + decimal(body.len())
        + ascii("\r\n\r\n") + body
}

/// What the tracker does with the request `request`.
pub fn route(request: &[u8]) -> (r: Route)
    ensures
        match route_of(utf8_lossy(request@)) {
            None => r is Ignore,
            Some(None) => r is NotFound,
            Some(Some(path)) => r matches Route::Announce(p) && p@ == path,
        },
{
    let text = lossy_string(request);
    let lines = split_lines(text.as_str());
    if lines.len() == 0 {
        return Route::Ignore;
    }
    assert(texts_of(lines@)[0] == lines@[0]@);
    route_words(split_words(lines[0].as_str()))
}

/// What the tracker does with a request whose first line has the words
/// `words`.
pub fn route_words(words: Vec<String>) -> (r: Route)
    ensures
        match route_of_words(texts_of(words@)) {
            None => r is Ignore,
            Some(None) => r is NotFound,
            Some(Some(path)) => r matches Route::Announce(p) && p@ == path,
        },
{
    proof {
        reveal_strlit("GET");
        reveal_strlit("/announce");
    }
    let mut words = words;
    if words.len() < 2 {
        return Route::Ignore;
    }
    assert(texts_of(words@)[0] == words@[0]@);
    assert(texts_of(words@)[1] == words@[1]@);
    if !is_equal(words[0].as_str().as_bytes(), ascii_bytes("GET").as_slice()) {
        return Route::Ignore;
    }
    if starts_with(words[1].as_str().as_bytes(), ascii_bytes("/announce").as_slice()) {
        Route::Announce(words.swap_remove(1))
    } else {
        Route::NotFound
    }
}

/// The port that the text `s` gives.
pub fn parse_port(s: &[u8]) -> (port: u16)
    ensures
        port == port_of(s@),
{
    let start: usize = if s.len() > 0 && s[0] == 0x2b {
        1
    } else {
        0
    };
    assert(s@.subrange(start as int, s@.len() as int) =~= if start == 1 {
        s@.skip(1)
    } else {
        s@
    });
    match parse_digits(s, start, s.len(), 65535) {
        Some(n) => n as u16,
        None => 0,
    }
}

/// The value of the last pair of `query` with the name `name`.
fn find_param<'a>(query: &'a Vec<(String, String)>, name: &[u8]) -> (r: Option<&'a String>)
    ensures
        match param(pairs_view(query@), name@) {
            Some(v) => r is Some && r.unwrap()@ == v,
            None => r is None,
        },
{
    let ghost pairs = pairs_view(query@);
    let mut i: usize = query.len();
    while i > 0
        invariant
            i <= query@.len(),
            pairs == pairs_view(query@),
            last_pair(pairs, name@, query@.len() - 1) == last_pair(pairs, name@, i - 1),
        decreases i,
    {
        i = i - 1;
        assert(pairs[i as int] == (query@[i as int].0@, query@[i as int].1@));
        if is_equal(query[i].0.as_str().as_bytes(), name) {
            return Some(&query[i].1);
        }
    }
    None
}

/// What the query of the announce at `path` says: the info hash, the
/// port and the id of the peer. Of a name that comes twice the last value
/// counts. The info hash is taken as bytes from the query as it stands,
/// so that two hashes that are no text do not fall together.
pub fn parse_announce(path: &str) -> (r: Result<AnnounceParams, AnnounceError>)
    ensures
        !url_parses("http://localhost"@ + path@) ==> r == Err::<AnnounceParams, AnnounceError>(
            AnnounceError::InvalidUrl,
        ),
        url_parses("http://localhost"@ + path@) ==> match announce_of(
            url_query_pairs("http://localhost"@ + path@),
            url_query("http://localhost"@ + path@),
        ) {
            None => r == Err::<AnnounceParams, AnnounceError>(AnnounceError::MissingInfoHash),
            Some(said) => r is Ok && params_are(r.unwrap(), said),
        },
{
    let full = "http://localhost".to_owned().concat(path);
    match parse_url(full.as_str()) {
        Ok(url) => announce_from_parts(&url),
        Err(_) => Err(AnnounceError::InvalidUrl),
    }
}

/// What the query of an announce says, given the parts of its URL.
pub fn announce_from_parts(url: &ParsedUrl) -> (r: Result<AnnounceParams, AnnounceError>)
    ensures
        match announce_of(
            pairs_view(url.query@),
            match url.raw_query {
                Some(q) => Some(q@),
                None => None,
            },
        ) {
            None => r == Err::<AnnounceParams, AnnounceError>(AnnounceError::MissingInfoHash),
            Some(said) => r is Ok && params_are(r.unwrap(), said),
        },
{
    proof {
        reveal_strlit("info_hash");
        reveal_strlit("port");
        reveal_strlit("peer_id");
    }
    let found = match &url.raw_query {
        Some(q) => raw_value(q.as_str().as_bytes(), ascii_bytes("info_hash").as_slice()),
        None => {
            let empty: Vec<u8> = Vec::new();
            raw_value(empty.as_slice(), ascii_bytes("info_hash").as_slice())
        },
    };
    let info_hash = match found {
        Some(hash) => hash,
        None => {
            return Err(AnnounceError::MissingInfoHash);
        },
    };
    let port = match find_param(&url.query, ascii_bytes("port").as_slice()) {
        Some(p) => parse_port(p.as_str().as_bytes()),
        None => 0,
    };
    let peer_id = match find_param(&url.query, ascii_bytes("peer_id").as_slice()) {
        Some(id) => id.clone(),
        None => String::new(),
    };
    Ok(AnnounceParams { info_hash, port, peer_id })
}

/// Forgets the peers of `swarm` that were not seen for an hour.
fn forget_stale(swarm: &mut Vec<Peer>, now: u128)
    ensures
        peer_views(final(swarm)@) == fresh_from(peer_views(old(swarm)@), now, 0),
{
    let ghost before = peer_views(swarm@);
    let mut kept: usize = 0;
    let ghost mut seen: int = 0;
    while kept < swarm.len()
        invariant
            kept <= swarm@.len(),
            0 <= seen <= before.len(),
            swarm@.len() - kept == before.len() - seen,
            forall|j: int| kept <= j < swarm@.len() ==> (#[trigger] swarm@[j])@ == before[seen + j - kept],
            peer_views(swarm@).take(kept as int) + fresh_from(before, now, seen) == fresh_from(
                before,
                now,
                0,
            ),
        decreases swarm@.len() - kept,
    {
        let ghost views = peer_views(swarm@);
        assert(swarm@[kept as int]@ == before[seen]);
        let fresh = match swarm[kept].last_seen.checked_add(PEER_TTL) {
            Some(limit) => now < limit,
            None => true,
        };
        if fresh {
            assert(views.take(kept + 1) =~= views.take(kept as int) + seq![before[seen]]);
            assert(views.take(kept + 1) + fresh_from(before, now, seen + 1) =~= views.take(
                kept as int,
            ) + fresh_from(before, now, seen));
            kept = kept + 1;
        } else {
            swarm.remove(kept);
            assert(peer_views(swarm@).take(kept as int) =~= views.take(kept as int));
        }
        proof {
            seen = seen + 1;
        }
    }
    assert(peer_views(swarm@).take(kept as int) =~= peer_views(swarm@));
    assert(fresh_from(before, now, seen) =~= Seq::<PeerView>::empty());
}

/// Brings the peer `id` of `swarm` up to date, or adds it at the end.
fn refresh(swarm: &mut Vec<Peer>, id: String, ip: IpAddress, port: u16, now: u128)
    ensures
        peer_views(final(swarm)@) == ({
            let kept = peer_views(old(swarm)@);
            let at = peer_index(kept, id@, 0);
            let peer = PeerView { id: id@, ip, port, last_seen: now };
            if at < kept.len() {
                kept.update(at, peer)
            } else {
                kept.push(peer)
            }
        }),
{
    let ghost kept = peer_views(swarm@);
    let mut i: usize = 0;
    while i < swarm.len()
        invariant
            i <= swarm@.len(),
            swarm@ == old(swarm)@,
            kept == peer_views(swarm@),
            peer_index(kept, id@, 0) == peer_index(kept, id@, i as int),
        decreases swarm@.len() - i,
    {
        assert(kept[i as int] == swarm@[i as int]@);
        if swarm[i].id == id {
            swarm[i] = Peer { id, ip, port, last_seen: now };
            assert(peer_views(swarm@) =~= kept.update(
                i as int,
                PeerView { id: id@, ip, port, last_seen: now },
            ));
            return;
        }
        i = i + 1;
    }
    swarm.push(Peer { id, ip, port, last_seen: now });
    assert(peer_views(swarm@) =~= kept.push(PeerView { id: id@, ip, port, last_seen: now }));
}

/// The IPv4 endpoints among the first `MAX_PEERS` peers of `swarm`.
fn first_v4(swarm: &Vec<Peer>) -> (out: Vec<PeerAddr>)
    ensures
        out@ == v4_peers(peer_views(swarm@), 0, MAX_PEERS as int),
{
    let ghost views = peer_views(swarm@);
    let mut out: Vec<PeerAddr> = Vec::new();
    let mut i: usize = 0;
    while i < swarm.len() && i < MAX_PEERS
        invariant
            i <= swarm@.len(),
            i <= MAX_PEERS,
            views == peer_views(swarm@),
            out@ + v4_peers(views, i as int, MAX_PEERS as int) == v4_peers(
                views,
                0,
                MAX_PEERS as int,
            ),
        decreases swarm@.len() - i,
    {
        let ghost before = out@;
        assert(views[i as int] == swarm@[i as int]@);
        match swarm[i].ip {
            IpAddress::V4(ip) => {
                out.push(PeerAddr { ip, port: swarm[i].port });
            },
            IpAddress::V6(_) => {},
        }
        assert(out@ + v4_peers(views, i + 1, MAX_PEERS as int) =~= before + v4_peers(
            views,
            i as int,
            MAX_PEERS as int,
        ));
        i = i + 1;
    }
    assert(out@ + v4_peers(views, i as int, MAX_PEERS as int) =~= out@);
    out
}

impl TrackerState {
    /// A tracker that remembers nothing.
    pub fn new() -> (s: TrackerState)
        ensures
            s.torrents@.len() == 0,
    {
        TrackerState { torrents: Vec::new() }
    }

    /// Takes up the announce of the peer `peer_id` for the swarm
    /// `info_hash`, from `ip` and `port` at the time `now`, and returns the
    /// IPv4 endpoints among the first 50 peers of the swarm.
    ///
    /// The peers of the swarm that were not seen for an hour are forgotten;
    /// the peer is brought up to date where it is known, and added at the
    /// end otherwise. A swarm that the tracker did not know is added after
    /// the others. No other swarm changes.
    pub fn announce(&mut self, info_hash: &[u8], peer_id: String, ip: IpAddress, port: u16, now: u128) -> (out:
        Vec<PeerAddr>)
        ensures
            swarm_of(final(self).torrents@, info_hash@) == announced(
                swarm_of(old(self).torrents@, info_hash@),
                peer_id@,
                ip,
                port,
                now,
            ),
            out@ == v4_peers(swarm_of(final(self).torrents@, info_hash@), 0, MAX_PEERS as int),
            swarm_index(final(self).torrents@, info_hash@, 0) == swarm_index(
                old(self).torrents@,
                info_hash@,
                0,
            ),
            final(self).torrents@.len() == if swarm_index(old(self).torrents@, info_hash@, 0) < old(
                self,
            ).torrents@.len() {
                old(self).torrents@.len()
            } else {
                old(self).torrents@.len() + 1
            },
            forall|j: int|
                0 <= j < old(self).torrents@.len() && j != swarm_index(
                    old(self).torrents@,
                    info_hash@,
                    0,
                ) ==> #[trigger] final(self).torrents@[j] == old(self).torrents@[j],
    {
        let ghost before = self.torrents@;
        let mut at: usize = 0;
        while at < self.torrents.len() && !is_equal(self.torrents[at].0.as_slice(), info_hash)
            invariant
                at <= self.torrents@.len(),
                self.torrents@ == before,
                swarm_index(before, info_hash@, 0) == swarm_index(before, info_hash@, at as int),
                forall|j: int| 0 <= j < at ==> (#[trigger] before[j]).0@ != info_hash@,
            decreases self.torrents@.len() - at,
        {
            at = at + 1;
        }
        let (key, mut swarm) = if at < self.torrents.len() {
            self.torrents.remove(at)
        } else {
            (vstd::slice::slice_to_vec(info_hash), Vec::new())
        };
        assert(peer_views(swarm@) =~= swarm_of(before, info_hash@));
        forget_stale(&mut swarm, now);
        refresh(&mut swarm, peer_id, ip, port, now);
        let out = first_v4(&swarm);
        self.torrents.insert(at, (key, swarm));
        proof {
            lemma_swarm_index(self.torrents@, info_hash@, 0, at as int);
        }
        out
    }
}

/// The first swarm with an info hash is at `at`, where the swarm at `at`
/// has it and none before has.
pub proof fn lemma_swarm_index(torrents: Seq<(Vec<u8>, Vec<Peer>)>, info_hash: Seq<u8>, i: int, at: int)
    requires
        0 <= i <= at < torrents.len(),
        torrents[at].0@ == info_hash,
        forall|j: int| i <= j < at ==> (#[trigger] torrents[j]).0@ != info_hash,
    ensures
        swarm_index(torrents, info_hash, i) == at,
    decreases at - i,
{
    if i < at {
        lemma_swarm_index(torrents, info_hash, i + 1, at);
    }
}

/// The body of the answer to an announce that names `peers`.
pub fn announce_response(peers: &Vec<PeerAddr>) -> (out: Vec<u8>)
    ensures
        out@ == ok_response(announce_body(peers@)),
{
    proof {
        reveal_strlit("interval");
        reveal_strlit("peers");
        reveal_strlit("HTTP/1.1 200 OK\r\nContent-Type: text/plain\r\nContent-Length: ");
        reveal_strlit("\r\n\r\n");
    }
    let mut dict: Vec<(Vec<u8>, Bencode)> = Vec::new();
    assert(entries_view(dict@) =~= Seq::<(Seq<u8>, Value)>::empty());
    insert_entry(&mut dict, ascii_bytes("interval"), Bencode::Int(INTERVAL));
    insert_entry(&mut dict, ascii_bytes("peers"), Bencode::Bytes(write_compact_peers(peers)));
    proof {
        lemma_view_dict(dict);
    }
    let body = Bencode::Dict(dict).encode();
    let mut out = ascii_bytes("HTTP/1.1 200 OK\r\nContent-Type: text/plain\r\nContent-Length: ");
    push_decimal(&mut out, body.len() as u64);
    out.extend_from_slice(ascii_bytes("\r\n\r\n").as_slice());
    out.extend_from_slice(body.as_slice());
    out
}

/// The answer to a request for a path that is no announce.
pub open spec fn not_found() -> Seq<u8> {
    ascii("HTTP/1.1 404 Not Found\r\nConnection: close\r\n\r\n")
}

/// The answer to an announce that is refused for the reason `e`.
pub open spec fn bad_request(e: AnnounceError) -> Seq<u8> {
    match e {
        AnnounceError::InvalidUrl => ascii("HTTP/1.1 400 Bad Request\r\n\r\nInvalid URL"),
        AnnounceError::MissingInfoHash => ascii(
            "HTTP/1.1 400 Bad Request\r\n\r\nMissing info_hash",
        ),
    }
}

/// The answer to a client that asks too often.
pub open spec fn too_many_requests() -> Seq<u8> {
    ascii("HTTP/1.1 429 Too Many Requests\r\nConnection: close\r\n\r\nRate limit exceeded")
}

/// The answer to a client that asks too often.
pub fn rate_limited_response() -> (out: Vec<u8>)
    ensures
        out@ == too_many_requests(),
{
    proof {
        reveal_strlit(
            "HTTP/1.1 429 Too Many Requests\r\nConnection: close\r\n\r\nRate limit exceeded",
        );
    }
    ascii_bytes("HTTP/1.1 429 Too Many Requests\r\nConnection: close\r\n\r\nRate limit exceeded")
}

impl TrackerServer {
    /// A tracker for the port `port` that remembers nothing and does not
    /// run yet.
    pub fn new(port: u16) -> (s: TrackerServer)
        ensures
            s.port == port,
            !s.running,
            s.state.torrents@.len() == 0,
    {
        TrackerServer { state: TrackerState::new(), port, running: false }
    }

    /// Handles the request `request` that came from `ip` at the time `now`,
    /// and returns the answer, where the tracker gives one.
    ///
    /// A request that is no GET request gets no answer. A path that is no
    /// announce is not found. An announce whose path is no part of a URL, or
    /// whose query has no info hash, is a bad request. Any other announce is
    /// taken up, and answered with the peers of its swarm.
    pub fn handle_request(&mut self, request: &[u8], ip: IpAddress, now: u128) -> (r: Option<Vec<u8>>)
        ensures
            final(self).port == old(self).port,
            final(self).running == old(self).running,
            match route_of(utf8_lossy(request@)) {
                None => r is None && final(self).state.torrents@ == old(self).state.torrents@,
                Some(None) => r is Some && r.unwrap()@ == not_found() && final(self).state.torrents@ == old(self).state.torrents@,
                Some(Some(path)) => {
                    let url = "http://localhost"@ + path;
                    if !url_parses(url) {
                        r is Some && r.unwrap()@ == bad_request(AnnounceError::InvalidUrl) && final(self).state.torrents@ == old(self).state.torrents@
                    } else {
                        match announce_of(url_query_pairs(url), url_query(url)) {
                            None => r is Some && r.unwrap()@ == bad_request(
                                AnnounceError::MissingInfoHash,
                            ) && final(self).state.torrents@ == old(self).state.torrents@,
                            Some(said) => {
                                &&& swarm_of(final(self).state.torrents@, said.0) == announced(
                                    swarm_of(old(self).state.torrents@, said.0),
                                    said.2,
                                    ip,
                                    said.1,
                                    now,
                                )
                                &&& r is Some
                                &&& r.unwrap()@ == ok_response(
                                    announce_body(
                                        v4_peers(
                                            swarm_of(final(self).state.torrents@, said.0),
                                            0,
                                            MAX_PEERS as int,
                                        ),
                                    ),
                                )
                            },
                        }
                    }
                },
            },
    {
        proof {
            reveal_strlit("HTTP/1.1 404 Not Found\r\nConnection: close\r\n\r\n");
            reveal_strlit("HTTP/1.1 400 Bad Request\r\n\r\nInvalid URL");
            reveal_strlit("HTTP/1.1 400 Bad Request\r\n\r\nMissing info_hash");
        }
        match route(request) {
            Route::Ignore => None,
            Route::NotFound => Some(
                ascii_bytes("HTTP/1.1 404 Not Found\r\nConnection: close\r\n\r\n"),
            ),
            Route::Announce(path) => match parse_announce(path.as_str()) {
                Err(AnnounceError::InvalidUrl) => Some(
                    ascii_bytes("HTTP/1.1 400 Bad Request\r\n\r\nInvalid URL"),
                ),
                Err(AnnounceError::MissingInfoHash) => Some(
                    ascii_bytes("HTTP/1.1 400 Bad Request\r\n\r\nMissing info_hash"),
                ),
                Ok(params) => {
                    let peers = self.state.announce(
                        params.info_hash.as_slice(),
                        params.peer_id,
                        ip,
                        params.port,
                        now,
                    );
                    Some(announce_response(&peers))
                },
            },
        }
    }
}

} // verus!
