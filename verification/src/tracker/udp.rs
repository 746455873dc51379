//! The UDP tracker protocol: the packets of the connect and announce
//! exchanges.
use byteorder::{BigEndian, ReadBytesExt, WriteBytesExt};
use rand::rngs::ThreadRng;
use std::io::Cursor;
use vstd::prelude::*;
use super::http::{TrackerErrorView, response_is};
use super::{TrackerError, TrackerEvent, TrackerRequest, TrackerResponse};
use crate::byte_order::{be_u32, be_u64, u16_be, u32_be, u64_be};
use crate::peer_addr::{PeerAddr, compact_peers, parse_compact_peers};
use crate::random::random_u32;
use crate::url_parts::{parse_url, url_host, url_parses, url_port};

verus! {

/// The number that opens the connect exchange.
pub const PROTOCOL_ID: u64 = 0x41727101980;

/// The action of a connect.
pub const ACTION_CONNECT: u32 = 0;

/// The action of an announce.
pub const ACTION_ANNOUNCE: u32 = 1;

/// The action of an answer that reports an error.
pub const ACTION_ERROR: u32 = 3;

/// The client for a tracker that is reached over UDP.
pub struct UdpTracker {
    /// The URL of the tracker.
    pub url: String,
}

/// Why the URL of a tracker gives no endpoint.
#[derive(Debug, Clone, Copy, PartialEq, Eq, Structural)]
pub enum EndpointError {
    /// The URL does not parse.
    InvalidUrl,
    /// The URL has no host.
    MissingHost,
    /// The URL names no port.
    MissingPort,
}

/// Appends `n` in eight bytes, most significant first, by
/// `WriteBytesExt::write_u64` of the `byteorder` crate on a vector, which
/// cannot fail.
#[verifier::external_body]
fn put_u64(out: &mut Vec<u8>, n: u64)
    ensures
        final(out)@ == old(out)@ + u64_be(n),
{
    out.write_u64::<BigEndian>(n).unwrap();
}

/// Appends `n` in four bytes, most significant first, by
/// `WriteBytesExt::write_u32` of the `byteorder` crate on a vector, which
/// cannot fail.
#[verifier::external_body]
fn put_u32(out: &mut Vec<u8>, n: u32)
    ensures
        final(out)@ == old(out)@ + u32_be(n),
{
    out.write_u32::<BigEndian>(n).unwrap();
}

/// Appends `n` in four bytes, most significant first, in two's complement,
/// by `WriteBytesExt::write_i32` of the `byteorder` crate on a vector, which
/// cannot fail.
#[verifier::external_body]
fn put_i32(out: &mut Vec<u8>, n: i32)
    ensures
        final(out)@ == old(out)@ + u32_be(
            if n < 0 {
                (n + 0x1_0000_0000) as u32
            } else {
                n as u32
            },
        ),
{
    out.write_i32::<BigEndian>(n).unwrap();
}

/// Appends `n` in two bytes, most significant first, by
/// `WriteBytesExt::write_u16` of the `byteorder` crate on a vector, which
/// cannot fail.
#[verifier::external_body]
fn put_u16(out: &mut Vec<u8>, n: u16)
    ensures
        final(out)@ == old(out)@ + u16_be(n),
{
    out.write_u16::<BigEndian>(n).unwrap();
}

/// The number in the eight bytes of `buf` from `at` on, most significant
/// first, by `ReadBytesExt::read_u64` of the `byteorder` crate on a cursor;
/// the call fails only where fewer than eight bytes are left.
#[verifier::external_body]
fn get_u64(buf: &[u8], at: usize) -> (n: u64)
    requires
        at + 8 <= buf@.len(),
    ensures
        n == be_u64(buf@, at as int),
{
    Cursor::new(&buf[at..]).read_u64::<BigEndian>().unwrap()
}

/// The number in the four bytes of `buf` from `at` on, most significant
/// first, by `ReadBytesExt::read_u32` of the `byteorder` crate on a cursor;
/// the call fails only where fewer than four bytes are left.
#[verifier::external_body]
fn get_u32(buf: &[u8], at: usize) -> (n: u32)
    requires
        at + 4 <= buf@.len(),
    ensures
        n == be_u32(buf@, at as int),
{
    Cursor::new(&buf[at..]).read_u32::<BigEndian>().unwrap()
}

/// The packet that opens the connect exchange: the protocol id, the action
/// of a connect, and the transaction id.
pub open spec fn connect_packet(transaction_id: u32) -> Seq<u8> {
    u64_be(PROTOCOL_ID) + u32_be(ACTION_CONNECT) + u32_be(transaction_id)
}

/// The number that the protocol has for an event.
pub open spec fn event_number(event: Option<TrackerEvent>) -> u32 {
    match event {
        None => 0,
        Some(TrackerEvent::Completed) => 1,
        Some(TrackerEvent::Started) => 2,
        Some(TrackerEvent::Stopped) => 3,
    }
}

/// The packet of an announce: the connection id, the action, the
/// transaction id, the info hash, the peer id, the bytes downloaded, left
/// and uploaded, the event, no address, the key, no number of peers wanted,
/// and the port.
pub open spec fn announce_packet(
    connection_id: u64,
    transaction_id: u32,
    key: u32,
    req: TrackerRequest,
) -> Seq<u8> {
    u64_be(connection_id) + u32_be(ACTION_ANNOUNCE) + u32_be(transaction_id) + req.info_hash@
        + req.peer_id@ + u64_be(req.downloaded) + u64_be(req.left) + u64_be(req.uploaded) + u32_be(
        event_number(req.event),
    ) + u32_be(0) + u32_be(key) + u32_be(0xffff_ffff) + u16_be(req.port)
}

/// What the answer to a connect says: the connection id, where the answer
/// has 16 bytes, echoes the transaction id and has the action of a connect.
pub open spec fn connect_response(buf: Seq<u8>, transaction_id: u32) -> Result<
    u64,
    TrackerErrorView,
> {
    if buf.len() < 16 {
        Err(TrackerErrorView::TooShort)
    } else if be_u32(buf, 4) != transaction_id {
        Err(TrackerErrorView::TransactionMismatch)
    } else if be_u32(buf, 0) != ACTION_CONNECT {
        Err(TrackerErrorView::UnexpectedAction(be_u32(buf, 0)))
    } else {
        Ok(be_u64(buf, 8))
    }
}

/// What the answer to an announce says: the interval, the leechers and the
/// seeders, and the peers in the compact form, where the answer has 20
/// bytes, echoes the transaction id and has the action of an announce. An
/// answer with the action of an error fails with the text after its eighth
/// byte.
pub open spec fn announce_response(buf: Seq<u8>, transaction_id: u32) -> Result<
    (u32, Seq<PeerAddr>, Option<u32>, Option<u32>),
    TrackerErrorView,
> {
    if buf.len() < 20 {
        Err(TrackerErrorView::TooShort)
    } else if be_u32(buf, 4) != transaction_id {
        Err(TrackerErrorView::TransactionMismatch)
    } else if be_u32(buf, 0) == ACTION_ERROR {
        Err(TrackerErrorView::Failure(buf.subrange(8, buf.len() as int)))
    } else if be_u32(buf, 0) != ACTION_ANNOUNCE {
        Err(TrackerErrorView::UnexpectedAction(be_u32(buf, 0)))
    } else {
        Ok(
            (
                be_u32(buf, 8),
                compact_peers(buf.subrange(20, buf.len() as int)),
                Some(be_u32(buf, 16)),
                Some(be_u32(buf, 12)),
            ),
        )
    }
}

impl UdpTracker {
    /// The client for the tracker at `url`.
    pub fn new(url: &str) -> (t: UdpTracker)
        ensures
            t.url@ == url@,
    {
        UdpTracker { url: url.to_owned() }
    }

    /// The host and the port that the URL of the tracker gives.
    pub fn endpoint(&self) -> (r: Result<(String, u16), EndpointError>)
        ensures
            !url_parses(self.url@) ==> r == Err::<(String, u16), EndpointError>(
                EndpointError::InvalidUrl,
            ),
            url_parses(self.url@) ==> match (url_host(self.url@), url_port(self.url@)) {
                (Some(host), Some(port)) => r is Ok && r.unwrap().0@ == host && r.unwrap().1
                    == port,
                (None, _) => r == Err::<(String, u16), EndpointError>(EndpointError::MissingHost),
                (Some(_), None) => r == Err::<(String, u16), EndpointError>(
                    EndpointError::MissingPort,
                ),
            },
    {
        let url = match parse_url(self.url.as_str()) {
            Ok(url) => url,
            Err(_) => {
                return Err(EndpointError::InvalidUrl);
            },
        };
        let host = match url.host {
            Some(host) => host,
            None => {
                return Err(EndpointError::MissingHost);
            },
        };
        match url.port {
            Some(port) => Ok((host, port)),
            None => Err(EndpointError::MissingPort),
        }
    }

    /// A fresh transaction id, or key: a random number.
    pub fn fresh_id(rng: &mut ThreadRng) -> u32 {
        random_u32(rng)
    }

    /// The packet that opens the connect exchange.
    pub fn connect_request(transaction_id: u32) -> (out: Vec<u8>)
        ensures
            out@ == connect_packet(transaction_id),
    {
        let mut out: Vec<u8> = Vec::new();
        put_u64(&mut out, PROTOCOL_ID);
        put_u32(&mut out, ACTION_CONNECT);
        put_u32(&mut out, transaction_id);
        assert(out@ =~= connect_packet(transaction_id));
        out
    }

    /// The connection id that the answer `buf` to a connect gives.
    pub fn parse_connect_response(buf: &[u8], transaction_id: u32) -> (r: Result<u64, TrackerError>)
        ensures
            match connect_response(buf@, transaction_id) {
                Ok(id) => r == Ok::<u64, TrackerError>(id),
                Err(e) => r is Err && r.unwrap_err()@ == e,
            },
    {
        if buf.len() < 16 {
            return Err(TrackerError::TooShort);
        }
        let action = get_u32(buf, 0);
        if get_u32(buf, 4) != transaction_id {
            return Err(TrackerError::TransactionMismatch);
        }
        if action != ACTION_CONNECT {
            return Err(TrackerError::UnexpectedAction(action));
        }
        Ok(get_u64(buf, 8))
    }

    /// The packet of the announce `request`, on the connection
    /// `connection_id`.
    pub fn announce_request(
        connection_id: u64,
        transaction_id: u32,
        key: u32,
        request: &TrackerRequest,
    ) -> (out: Vec<u8>)
        ensures
            out@ == announce_packet(connection_id, transaction_id, key, *request),
            out@.len() == 98,
    {
        let mut out: Vec<u8> = Vec::new();
        put_u64(&mut out, connection_id);
        put_u32(&mut out, ACTION_ANNOUNCE);
        put_u32(&mut out, transaction_id);
        out.extend_from_slice(request.info_hash.as_slice());
        out.extend_from_slice(request.peer_id.as_slice());
        put_u64(&mut out, request.downloaded);
        put_u64(&mut out, request.left);
        put_u64(&mut out, request.uploaded);
        let event: u32 = match request.event {
            None => 0,
            Some(TrackerEvent::Completed) => 1,
            Some(TrackerEvent::Started) => 2,
            Some(TrackerEvent::Stopped) => 3,
        };
        put_u32(&mut out, event);
        put_u32(&mut out, 0);
        put_u32(&mut out, key);
        put_i32(&mut out, -1);
        put_u16(&mut out, request.port);
        assert(out@ =~= announce_packet(connection_id, transaction_id, key, *request));
        out
    }

    /// What the answer `buf` to an announce says.
    pub fn parse_announce_response(buf: &[u8], transaction_id: u32) -> (r: Result<
        TrackerResponse,
        TrackerError,
    >)
        ensures
            match announce_response(buf@, transaction_id) {
                Ok(said) => r is Ok && response_is(r.unwrap(), said),
                Err(e) => r is Err && r.unwrap_err()@ == e,
            },
    {
        let total = buf.len();
        if total < 20 {
            return Err(TrackerError::TooShort);
        }
        let action = get_u32(buf, 0);
        if get_u32(buf, 4) != transaction_id {
            return Err(TrackerError::TransactionMismatch);
        }
        if action == ACTION_ERROR {
            return Err(
                TrackerError::Failure(
                    vstd::slice::slice_to_vec(vstd::slice::slice_subrange(buf, 8, total)),
                ),
            );
        }
        if action != ACTION_ANNOUNCE {
            return Err(TrackerError::UnexpectedAction(action));
        }
        let interval = get_u32(buf, 8);
        let leechers = get_u32(buf, 12);
        let seeders = get_u32(buf, 16);
        let peers = parse_compact_peers(vstd::slice::slice_subrange(buf, 20, total));
        Ok(TrackerResponse { interval, peers, complete: Some(seeders), incomplete: Some(leechers) })
    }
}

} // verus!
