//! The endpoint of a peer: an IPv4 address and a port.
use vstd::prelude::*;
use crate::byte_order::{be_u16, be_u32, push_u16, push_u32, read_u16, read_u32, u16_be, u32_be};

verus! {

/// The endpoint of a peer. Two peers are the same where their endpoints are.
#[derive(Clone, Copy, Debug, PartialEq, Eq, Structural, Hash)]
pub struct PeerAddr {
    /// The IPv4 address as a number, its first octet the most significant.
    pub ip: u32,
    /// The port.
    pub port: u16,
}

/// The endpoint that the six bytes of `bytes` from index `at` on denote:
/// four bytes of address, then two of port, each most significant first.
pub open spec fn compact_peer(bytes: Seq<u8>, at: int) -> PeerAddr {
    PeerAddr { ip: be_u32(bytes, at), port: be_u16(bytes, at + 4) }
}

/// The endpoints that `bytes` lists, six bytes each; bytes left after the
/// last full six are not looked at.
pub open spec fn compact_peers(bytes: Seq<u8>) -> Seq<PeerAddr> {
    Seq::new((bytes.len() / 6) as nat, |i: int| compact_peer(bytes, 6 * i))
}

/// The six bytes of each of `peers`, one after the other from `i` on.
pub open spec fn compact_bytes(peers: Seq<PeerAddr>, i: int) -> Seq<u8>
    decreases peers.len() - i,
{
    if i < 0 || i >= peers.len() {
        Seq::empty()
    } else {
        u32_be(peers[i].ip) + u16_be(peers[i].port) + compact_bytes(peers, i + 1)
    }
}

impl PeerAddr {
    /// The endpoint as one number: the address, then the port in the low 16
    /// bits. Different endpoints have different numbers.
    pub open spec fn spec_key(self) -> u64 {
        (self.ip * 0x1_0000 + self.port) as u64
    }

    /// The endpoint as one number.
    pub fn key(&self) -> (k: u64)
        ensures
            k == self.spec_key(),
    {
        (self.ip as u64) * 0x1_0000 + (self.port as u64)
    }

    /// The four octets of the address, the first one first.
    pub fn octets(&self) -> (o: [u8; 4])
        ensures
            o@ == u32_be(self.ip),
    {
        let o: [u8; 4] = [
            (self.ip / 0x100_0000) as u8,
            ((self.ip / 0x1_0000) % 0x100) as u8,
            ((self.ip / 0x100) % 0x100) as u8,
            (self.ip % 0x100) as u8,
        ];
        assert(o@ =~= u32_be(self.ip));
        o
    }
}

/// Endpoints with the same number are the same endpoint.
pub proof fn lemma_key_injective(a: PeerAddr, b: PeerAddr)
    requires
        a.spec_key() == b.spec_key(),
    ensures
        a == b,
{
}

/// The endpoints that `bytes` lists in the compact form, six bytes each.
pub fn parse_compact_peers(bytes: &[u8]) -> (peers: Vec<PeerAddr>)
    ensures
        peers@ == compact_peers(bytes@),
{
    let count = bytes.len() / 6;
    let mut peers: Vec<PeerAddr> = Vec::new();
    let mut i: usize = 0;
    while i < count
        invariant
            i <= count,
            count == bytes@.len() / 6,
            bytes@.len() <= usize::MAX,
            peers@.len() == i,
            forall|j: int| 0 <= j < i ==> peers@[j] == compact_peer(bytes@, 6 * j),
        decreases count - i,
    {
        let at = 6 * i;
        let ip = read_u32(bytes, at);
        let port = read_u16(bytes, at + 4);
        peers.push(PeerAddr { ip, port });
        i = i + 1;
    }
    assert(peers@ =~= compact_peers(bytes@));
    peers
}

/// The compact form of `peers`: six bytes for each.
pub fn write_compact_peers(peers: &Vec<PeerAddr>) -> (bytes: Vec<u8>)
    ensures
        bytes@ == compact_bytes(peers@, 0),
{
    let mut bytes: Vec<u8> = Vec::new();
    let mut i: usize = 0;
    while i < peers.len()
        invariant
            i <= peers@.len(),
            bytes@ + compact_bytes(peers@, i as int) == compact_bytes(peers@, 0),
        decreases peers@.len() - i,
    {
        let ghost before = bytes@;
        push_u32(&mut bytes, peers[i].ip);
        push_u16(&mut bytes, peers[i].port);
        assert(bytes@ + compact_bytes(peers@, i + 1) =~= before + compact_bytes(peers@, i as int));
        i = i + 1;
    }
    assert(bytes@ =~= bytes@ + compact_bytes(peers@, i as int));
    bytes
}

} // verus!
