//! The HTTP tracker protocol: the URL of an announce, and what the answer
//! of the tracker says.
use vstd::prelude::*;
use vstd::string::StringSliceAdditionalSpecFns;
use vstd::utf8::encode_utf8;
use super::{TrackerError, TrackerEvent, TrackerRequest, TrackerResponse};
use crate::bencoding::bencode::{Bencode, Value, lemma_view_list, list_view};
use crate::bencoding::decoder::{decode, spec_decode};
use crate::decimal::{decimal, digits_value, is_digit, parse_digits};
use crate::peer::extension::{low_u16, low_u32, wrap_u16, wrap_u32};
use crate::peer_addr::{PeerAddr, compact_peers, parse_compact_peers};
use crate::text::{ascii, ascii_bytes};
use crate::torrent::{bytes_at, int_at};

verus! {

/// The client for a tracker that is reached over HTTP.
pub struct HttpTracker {
    /// The announce URL of the tracker.
    pub url: String,
}

/// Whether the form encoding leaves the byte `b` as it is: a letter, a
/// digit, or one of `*`, `-`, `.` and `_`.
pub open spec fn unchanged_byte(b: u8) -> bool {
    ||| b == 0x2a
    ||| b == 0x2d
    ||| b == 0x2e
    ||| 0x30 <= b <= 0x39
    ||| 0x41 <= b <= 0x5a
    ||| b == 0x5f
    ||| 0x61 <= b <= 0x7a
}

/// The hexadecimal digit of `n`, a number below 16, in upper case.
pub open spec fn upper_hex(n: u8) -> u8 {
    if n < 10 {
        (0x30 + n) as u8
    } else {
        (0x41 + n - 10) as u8
    }
}

/// The form encoding of one byte: itself where it stays unchanged, `+` for
/// a space, else `%` and its two hexadecimal digits in upper case.
pub open spec fn serialized_byte(b: u8) -> Seq<u8> {
    if unchanged_byte(b) {
        seq![b]
    } else if b == 0x20 {
        seq![0x2bu8]
    } else {
        seq![0x25u8, upper_hex(b / 16), upper_hex(b % 16)]
    }
}

/// The form encoding of the bytes of `input` from index `i` on.
pub open spec fn byte_serialized(input: Seq<u8>, i: int) -> Seq<u8>
    decreases input.len() - i,
{
    if i < 0 || i >= input.len() {
        Seq::empty()
    } else {
        serialized_byte(input[i]) + byte_serialized(input, i + 1)
    }
}

/// The form encoding of the pairs from index `i` on: each name, `=` and
/// its value, both form encoded, with `&` between the pairs.
pub open spec fn pairs_serialized(pairs: Seq<(Seq<u8>, Seq<u8>)>, i: int) -> Seq<u8>
    decreases pairs.len() - i,
{
    if i < 0 || i >= pairs.len() {
        Seq::empty()
    } else {
        byte_serialized(pairs[i].0, 0) + seq![0x3du8] + byte_serialized(pairs[i].1, 0) + if i + 1
            < pairs.len() {
            seq![0x26u8] + pairs_serialized(pairs, i + 1)
        } else {
            Seq::empty()
        }
    }
}

/// The bytes of the names and values of `pairs`.
pub open spec fn pair_bytes(pairs: Seq<(String, String)>) -> Seq<(Seq<u8>, Seq<u8>)> {
    Seq::new(pairs.len(), |i: int| (encode_utf8(pairs[i].0@), encode_utf8(pairs[i].1@)))
}

/// The form encoding of `input`, by `form_urlencoded::byte_serialize`.
///
/// The crate leaves letters, digits and `*-._` as they are, writes a space
/// as `+`, and any other byte as `%` and two hexadecimal digits in upper
/// case.
#[verifier::external_body]
fn serialize_bytes(input: &[u8]) -> (out: Vec<u8>)
    ensures
        out@ == byte_serialized(input@, 0),
{
    form_urlencoded::byte_serialize(input).collect::<String>().into_bytes()
}

/// The form encoding of `pairs`, by `Serializer::new`, `extend_pairs` and
/// `finish` of the `form_urlencoded` crate.
///
/// The crate writes each pair, in order, as its name, `=` and its value,
/// both form encoded, and puts `&` before every pair but the first.
#[verifier::external_body]
fn serialize_pairs(pairs: &Vec<(String, String)>) -> (out: Vec<u8>)
    ensures
        out@ == pairs_serialized(pair_bytes(pairs@), 0),
{
    form_urlencoded::Serializer::new(String::new()).extend_pairs(pairs.iter()).finish().into_bytes()
}

/// The decimal numeral of `n` as text, by `to_string` of the standard
/// library, which writes an unsigned integer in decimal without leading
/// zeros.
#[verifier::external_body]
fn decimal_text(n: u64) -> (out: String)
    ensures
        encode_utf8(out@) == decimal(n as nat),
{
    n.to_string()
}

/// The word that the HTTP protocol has for an event.
pub open spec fn event_word(event: TrackerEvent) -> Seq<char> {
    match event {
        TrackerEvent::Started => "started"@,
        TrackerEvent::Stopped => "stopped"@,
        TrackerEvent::Completed => "completed"@,
    }
}

/// A pair of the query with a number for its value.
pub open spec fn number_pair(name: Seq<char>, n: nat) -> (Seq<u8>, Seq<u8>) {
    (encode_utf8(name), decimal(n))
}

/// The pairs of the query of an announce, after the info hash and the
/// peer id: the port, the three byte counts, whether the compact form is
/// wanted, and then, each where the request has it, `no_peer_id`, the
/// event, the number of peers wanted, the key and the tracker id.
pub open spec fn query_pairs(req: TrackerRequest) -> Seq<(Seq<u8>, Seq<u8>)> {
    seq![
        number_pair("port"@, req.port as nat),
        number_pair("uploaded"@, req.uploaded as nat),
        number_pair("downloaded"@, req.downloaded as nat),
        number_pair("left"@, req.left as nat),
        (encode_utf8("compact"@), encode_utf8(if req.compact { "1"@ } else { "0"@ })),
    ] + (if req.no_peer_id {
        seq![(encode_utf8("no_peer_id"@), encode_utf8("1"@))]
    } else {
        Seq::empty()
    }) + (match req.event {
        Some(e) => seq![(encode_utf8("event"@), encode_utf8(event_word(e)))],
        None => Seq::empty(),
    }) + (match req.numwant {
        Some(n) => seq![number_pair("numwant"@, n as nat)],
        None => Seq::empty(),
    }) + (match req.key {
        Some(k) => seq![number_pair("key"@, k as nat)],
        None => Seq::empty(),
    }) + (match req.tracker_id {
        Some(id) => seq![(encode_utf8("trackerid"@), encode_utf8(id@))],
        None => Seq::empty(),
    })
}

/// The URL of an announce: the URL of the tracker, `?` or, where that URL
/// has a `?` already, `&`, then the info hash and the peer id, form encoded,
/// and the pairs of the query.
pub open spec fn announce_url(url: Seq<u8>, req: TrackerRequest) -> Seq<u8> {
    url + seq![if url.contains(0x3fu8) { 0x26u8 } else { 0x3fu8 }] + ascii("info_hash=")
        + byte_serialized(req.info_hash@, 0) + ascii("&peer_id=") + byte_serialized(
        req.peer_id@,
        0,
    ) + ascii("&") + pairs_serialized(query_pairs(req), 0)
}

/// The IPv4 address that one decimal octet after the other denotes: what
/// has been read of the address, the octets still to come, and the text
/// from `i` on.
pub open spec fn octets_from(s: Seq<u8>, i: int, left: int, acc: int) -> Option<u32>
    decreases left,
{
    if left <= 0 {
        if i == s.len() {
            Some(acc as u32)
        } else {
            None
        }
    } else {
        let end = digits_end(s, i);
        let text = s.subrange(i, end);
        if end - i < 1 || end - i > 3 || (end - i > 1 && s[i] == 0x30) || digits_value(text) > 255 {
            None
        } else if left > 1 && (end >= s.len() || s[end] != 0x2e) {
            None
        } else {
            octets_from(s, if left > 1 { end + 1 } else { end }, left - 1, acc * 256 + digits_value(text))
        }
    }
}

/// The index after the digits that start at `i`.
pub open spec fn digits_end(s: Seq<u8>, i: int) -> int
    decreases s.len() - i,
{
    if i < 0 || i >= s.len() || !is_digit(s[i]) {
        i
    } else {
        digits_end(s, i + 1)
    }
}

/// The IPv4 address that the text `s` denotes: four decimal octets, each
/// from 0 to 255 and without a leading zero, with dots between them.
pub open spec fn dotted_quad(s: Seq<u8>) -> Option<u32> {
    octets_from(s, 0, 4, 0)
}

/// The endpoint that an entry of the list of peers names: a dictionary
/// with the address as text under `ip` and the port under `port`.
pub open spec fn listed_peer(v: Value) -> Option<PeerAddr> {
    match (v, bytes_at(v, ascii("ip")), int_at(v, ascii("port"))) {
        (Value::Dict(_), Some(ip), Some(port)) => match dotted_quad(ip) {
            Some(addr) => Some(PeerAddr { ip: addr, port: low_u16(port) }),
            None => None,
        },
        _ => None,
    }
}

/// The endpoints that the entries from index `k` on name, after `peers`;
/// an entry that names none is passed over.
pub open spec fn listed_peers(peers: Seq<PeerAddr>, items: Seq<Value>, k: int) -> Seq<PeerAddr>
    decreases items.len() - k,
{
    if k < 0 || k >= items.len() {
        peers
    } else {
        match listed_peer(items[k]) {
            Some(p) => listed_peers(peers.push(p), items, k + 1),
            None => listed_peers(peers, items, k + 1),
        }
    }
}

/// What the answer `root` of a tracker says.
///
/// The answer must be a dictionary. A `failure reason` makes the announce
/// fail with that reason. The `interval` is required; `complete` and
/// `incomplete` are taken where they are integers. The `peers` are either
/// a byte string in the compact form or a list of dictionaries; anything
/// else gives no peers. Integers are cut to their low bits.
pub open spec fn http_response(root: Value) -> Result<
    (u32, Seq<PeerAddr>, Option<u32>, Option<u32>),
    TrackerErrorView,
> {
    if !(root is Dict) {
        Err(TrackerErrorView::InvalidResponse)
    } else if bytes_at(root, ascii("failure reason")) is Some {
        Err(TrackerErrorView::Failure(bytes_at(root, ascii("failure reason")).unwrap()))
    } else {
        match int_at(root, ascii("interval")) {
            None => Err(TrackerErrorView::MissingInterval),
            Some(interval) => Ok(
                (
                    low_u32(interval),
                    match root.lookup(ascii("peers")) {
                        Some(Value::Bytes(b)) => compact_peers(b),
                        Some(Value::List(items)) => listed_peers(Seq::empty(), items, 0),
                        _ => Seq::empty(),
                    },
                    match int_at(root, ascii("complete")) {
                        Some(n) => Some(low_u32(n)),
                        None => None,
                    },
                    match int_at(root, ascii("incomplete")) {
                        Some(n) => Some(low_u32(n)),
                        None => None,
                    },
                ),
            ),
        }
    }
}

/// Why an announce failed, as contracts see it.
pub ghost enum TrackerErrorView {
    Failure(Seq<u8>),
    InvalidResponse,
    MissingInterval,
    TooShort,
    TransactionMismatch,
    UnexpectedAction(u32),
}

impl View for TrackerError {
    type V = TrackerErrorView;

    open spec fn view(&self) -> TrackerErrorView {
        match self {
            TrackerError::Failure(reason) => TrackerErrorView::Failure(reason@),
            TrackerError::InvalidResponse => TrackerErrorView::InvalidResponse,
            TrackerError::MissingInterval => TrackerErrorView::MissingInterval,
            TrackerError::TooShort => TrackerErrorView::TooShort,
            TrackerError::TransactionMismatch => TrackerErrorView::TransactionMismatch,
            TrackerError::UnexpectedAction(a) => TrackerErrorView::UnexpectedAction(*a),
        }
    }
}

/// Whether a response holds what an answer says.
pub open spec fn response_is(
    r: TrackerResponse,
    said: (u32, Seq<PeerAddr>, Option<u32>, Option<u32>),
) -> bool {
    r.interval == said.0 && r.peers@ == said.1 && r.complete == said.2 && r.incomplete == said.3
}

/// The IPv4 address that the text `s` denotes.
pub fn parse_dotted_quad(s: &[u8]) -> (r: Option<u32>)
    ensures
        r == dotted_quad(s@),
{
    let total = s.len();
    let mut acc: u32 = 0;
    let mut i: usize = 0;
    let mut left: usize = 4;
    while left > 0
        invariant
            left <= 4,
            i <= total,
            total == s@.len(),
            acc < 0x100_0000 || left == 0,
            left == 4 ==> acc == 0,
            left == 3 ==> acc < 0x100,
            left == 2 ==> acc < 0x1_0000,
            dotted_quad(s@) == octets_from(s@, i as int, left as int, acc as int),
        decreases left,
    {
        let mut end = i;
        while end < total && end - i < 4 && s[end] >= 0x30 && s[end] <= 0x39
            invariant
                i <= end <= total,
                total == s@.len(),
                end - i <= 4,
                forall|j: int| i <= j < end ==> is_digit(s@[j]),
                digits_end(s@, i as int) == digits_end(s@, end as int),
            decreases total - end,
        {
            end = end + 1;
        }
        proof {
            if end - i == 4 {
                lemma_digits_end_after(s@, i as int, end as int);
            }
        }
        if end - i < 1 || end - i > 3 {
            return None;
        }
        if end - i > 1 && s[i] == 0x30 {
            return None;
        }
        let value = match parse_digits(s, i, end, 255) {
            Some(v) => v,
            None => {
                return None;
            },
        };
        proof {
            assert(s@.subrange(i as int, end as int).len() > 0);
            assert forall|j: int| 0 <= j < end - i implies is_digit(
                #[trigger] s@.subrange(i as int, end as int)[j],
            ) by {}
        }
        if left > 1 {
            if end >= total || s[end] != 0x2e {
                return None;
            }
            i = end + 1;
        } else {
            i = end;
        }
        acc = acc * 256 + value as u32;
        left = left - 1;
    }
    if i == total {
        Some(acc)
    } else {
        None
    }
}

/// The digits that start at `i` end at or after any index up to which
/// there are only digits.
pub proof fn lemma_digits_end_after(s: Seq<u8>, i: int, end: int)
    requires
        0 <= i <= end <= s.len(),
        forall|j: int| i <= j < end ==> is_digit(s[j]),
    ensures
        digits_end(s, i) >= end,
        digits_end(s, i) == digits_end(s, end),
    decreases end - i,
{
    if i < end {
        lemma_digits_end_after(s, i + 1, end);
    } else {
        lemma_digits_end_from(s, end);
    }
}

/// The digits that start at `i` end at or after `i`.
pub proof fn lemma_digits_end_from(s: Seq<u8>, i: int)
    requires
        0 <= i <= s.len(),
    ensures
        i <= digits_end(s, i) <= s.len(),
    decreases s.len() - i,
{
    if i < s.len() && is_digit(s[i]) {
        lemma_digits_end_from(s, i + 1);
    }
}

/// What the answer `root` of a tracker says.
pub fn parse_http_response(root: &Bencode) -> (r: Result<TrackerResponse, TrackerError>)
    ensures
        match http_response(root@) {
            Ok(said) => r is Ok && response_is(r.unwrap(), said),
            Err(e) => r is Err && r.unwrap_err()@ == e,
        },
{
    proof {
        reveal_strlit("failure reason");
        reveal_strlit("interval");
        reveal_strlit("complete");
        reveal_strlit("incomplete");
        reveal_strlit("peers");
        reveal_strlit("ip");
        reveal_strlit("port");
    }
    match root {
        Bencode::Dict(_) => {},
        _ => {
            return Err(TrackerError::InvalidResponse);
        },
    }
    match root.get(ascii_bytes("failure reason").as_slice()) {
        Some(Bencode::Bytes(reason)) => {
            return Err(TrackerError::Failure(reason.clone()));
        },
        _ => {},
    }
    let interval = match root.get(ascii_bytes("interval").as_slice()) {
        Some(Bencode::Int(i)) => wrap_u32(*i),
        _ => {
            return Err(TrackerError::MissingInterval);
        },
    };
    let complete = match root.get(ascii_bytes("complete").as_slice()) {
        Some(Bencode::Int(i)) => Some(wrap_u32(*i)),
        _ => None,
    };
    let incomplete = match root.get(ascii_bytes("incomplete").as_slice()) {
        Some(Bencode::Int(i)) => Some(wrap_u32(*i)),
        _ => None,
    };
    let peers = match root.get(ascii_bytes("peers").as_slice()) {
        Some(Bencode::Bytes(b)) => parse_compact_peers(b.as_slice()),
        Some(Bencode::List(items)) => {
            proof {
                lemma_view_list(*items);
            }
            let ghost views = list_view(items@);
            let key_ip = ascii_bytes("ip");
            let key_port = ascii_bytes("port");
            let mut peers: Vec<PeerAddr> = Vec::new();
            let mut k: usize = 0;
            while k < items.len()
                invariant
                    k <= items@.len(),
                    views == list_view(items@),
                    key_ip@ == ascii("ip"),
                    key_port@ == ascii("port"),
                    listed_peers(peers@, views, k as int) == listed_peers(Seq::empty(), views, 0),
                decreases items@.len() - k,
            {
                let item = &items[k];
                assert(item@ == views[k as int]);
                let found: Option<PeerAddr> = match item {
                    Bencode::Dict(_) => match item.get(key_ip.as_slice()) {
                        Some(Bencode::Bytes(ip)) => match parse_dotted_quad(ip.as_slice()) {
                            Some(addr) => match item.get(key_port.as_slice()) {
                                Some(Bencode::Int(port)) => Some(
                                    PeerAddr { ip: addr, port: wrap_u16(*port) },
                                ),
                                _ => None,
                            },
                            None => None,
                        },
                        _ => None,
                    },
                    _ => None,
                };
                assert(found == listed_peer(views[k as int]));
                match found {
                    Some(p) => {
                        peers.push(p);
                    },
                    None => {},
                }
                k = k + 1;
            }
            peers
        },
        _ => Vec::new(),
    };
    Ok(TrackerResponse { interval, peers, complete, incomplete })
}

/// A pair of the query with a number for its value.
fn number(name: &str, n: u64) -> (pair: (String, String))
    ensures
        (encode_utf8(pair.0@), encode_utf8(pair.1@)) == number_pair(name@, n as nat),
{
    (name.to_owned(), decimal_text(n))
}

/// Appends a pair to the pairs of a query.
fn push_pair(pairs: &mut Vec<(String, String)>, pair: (String, String))
    ensures
        pair_bytes(final(pairs)@) == pair_bytes(old(pairs)@).push(
            (encode_utf8(pair.0@), encode_utf8(pair.1@)),
        ),
{
    pairs.push(pair);
    assert(pair_bytes(pairs@) =~= pair_bytes(old(pairs)@).push(
        (encode_utf8(pair.0@), encode_utf8(pair.1@)),
    ));
}

/// The pairs of the query of the announce `request`.
fn build_pairs(request: &TrackerRequest) -> (pairs: Vec<(String, String)>)
    ensures
        pair_bytes(pairs@) == query_pairs(*request),
{
    let mut pairs: Vec<(String, String)> = Vec::new();
    assert(pair_bytes(pairs@) =~= Seq::empty());
    push_pair(&mut pairs, number("port", request.port as u64));
    push_pair(&mut pairs, number("uploaded", request.uploaded));
    push_pair(&mut pairs, number("downloaded", request.downloaded));
    push_pair(&mut pairs, number("left", request.left));
    push_pair(
        &mut pairs,
        ("compact".to_owned(), if request.compact {
            "1".to_owned()
        } else {
            "0".to_owned()
        }),
    );
    let ghost fixed = pair_bytes(pairs@);
    assert(fixed =~= seq![
        number_pair("port"@, request.port as nat),
        number_pair("uploaded"@, request.uploaded as nat),
        number_pair("downloaded"@, request.downloaded as nat),
        number_pair("left"@, request.left as nat),
        (encode_utf8("compact"@), encode_utf8(if request.compact { "1"@ } else { "0"@ })),
    ]);
    let ghost s1: Seq<(Seq<u8>, Seq<u8>)> = if request.no_peer_id {
        seq![(encode_utf8("no_peer_id"@), encode_utf8("1"@))]
    } else {
        Seq::empty()
    };
    if request.no_peer_id {
        push_pair(&mut pairs, ("no_peer_id".to_owned(), "1".to_owned()));
    }
    assert(pair_bytes(pairs@) =~= fixed + s1);
    let ghost s2: Seq<(Seq<u8>, Seq<u8>)> = match request.event {
        Some(e) => seq![(encode_utf8("event"@), encode_utf8(event_word(e)))],
        None => Seq::empty(),
    };
    match request.event {
        Some(event) => {
            let word = match event {
                TrackerEvent::Started => "started",
                TrackerEvent::Stopped => "stopped",
                TrackerEvent::Completed => "completed",
            };
            push_pair(&mut pairs, ("event".to_owned(), word.to_owned()));
        },
        None => {},
    }
    assert(pair_bytes(pairs@) =~= fixed + s1 + s2);
    let ghost s3: Seq<(Seq<u8>, Seq<u8>)> = match request.numwant {
        Some(n) => seq![number_pair("numwant"@, n as nat)],
        None => Seq::empty(),
    };
    match request.numwant {
        Some(n) => {
            push_pair(&mut pairs, number("numwant", n as u64));
        },
        None => {},
    }
    assert(pair_bytes(pairs@) =~= fixed + s1 + s2 + s3);
    let ghost s4: Seq<(Seq<u8>, Seq<u8>)> = match request.key {
        Some(k) => seq![number_pair("key"@, k as nat)],
        None => Seq::empty(),
    };
    match request.key {
        Some(k) => {
            push_pair(&mut pairs, number("key", k as u64));
        },
        None => {},
    }
    assert(pair_bytes(pairs@) =~= fixed + s1 + s2 + s3 + s4);
    let ghost s5: Seq<(Seq<u8>, Seq<u8>)> = if request.tracker_id is Some {
        seq![(encode_utf8("trackerid"@), encode_utf8(request.tracker_id.unwrap()@))]
    } else {
        Seq::empty()
    };
    match &request.tracker_id {
        Some(id) => {
            push_pair(&mut pairs, ("trackerid".to_owned(), id.clone()));
        },
        None => {},
    }
    assert(pair_bytes(pairs@) =~= fixed + s1 + s2 + s3 + s4 + s5);
    pairs
}

impl HttpTracker {
    /// The client for the tracker at `url`.
    pub fn new(url: &str) -> (t: HttpTracker)
        ensures
            t.url@ == url@,
    {
        HttpTracker { url: url.to_owned() }
    }

    /// The URL to get for the announce `request`.
    pub fn announce_url(&self, request: &TrackerRequest) -> (out: Vec<u8>)
        ensures
            out@ == announce_url(encode_utf8(self.url@), *request),
    {
        proof {
            reveal_strlit("info_hash=");
            reveal_strlit("&peer_id=");
            reveal_strlit("&");
        }
        let pairs = build_pairs(request);
        let url = self.url.as_str().as_bytes();
        let mut has_query = false;
        let mut i: usize = 0;
        while i < url.len()
            invariant
                i <= url@.len(),
                has_query == exists|j: int| 0 <= j < i && url@[j] == 0x3fu8,
            decreases url@.len() - i,
        {
            if url[i] == 0x3f {
                has_query = true;
            }
            i = i + 1;
        }
        assert(has_query == url@.contains(0x3fu8));
        let mut out: Vec<u8> = vstd::slice::slice_to_vec(url);
        out.push(if has_query {
            0x26
        } else {
            0x3f
        });
        out.extend_from_slice(ascii_bytes("info_hash=").as_slice());
        out.extend_from_slice(serialize_bytes(request.info_hash.as_slice()).as_slice());
        out.extend_from_slice(ascii_bytes("&peer_id=").as_slice());
        out.extend_from_slice(serialize_bytes(request.peer_id.as_slice()).as_slice());
        out.extend_from_slice(ascii_bytes("&").as_slice());
        out.extend_from_slice(serialize_pairs(&pairs).as_slice());
        out
    }

    /// What the body `body` of the answer of the tracker says. A body that
    /// does not decode counts as no dictionary.
    pub fn parse_response(body: &[u8]) -> (r: Result<TrackerResponse, TrackerError>)
        ensures
            match spec_decode(body@, 0) {
                Ok((root, _)) => match http_response(root) {
                    Ok(said) => r is Ok && response_is(r.unwrap(), said),
                    Err(e) => r is Err && r.unwrap_err()@ == e,
                },
                Err(_) => r is Err && r.unwrap_err()@ == TrackerErrorView::InvalidResponse,
            },
    {
        let mut pos: usize = 0;
        match decode(body, &mut pos) {
            Ok(root) => parse_http_response(&root),
            Err(_) => Err(TrackerError::InvalidResponse),
        }
    }
}

} // verus!
