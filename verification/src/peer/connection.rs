use vstd::prelude::*;
use super::bitfield::{has_bit, set_bit, test_bit, with_bit};
use super::message::{Message, MessageView, WireError, fits_frame, frame_of, parse_frame};
use crate::lex_order::is_equal;
use crate::text::{ascii, ascii_bytes};

verus! {

/// What one side of a connection knows of its remote peer.
#[derive(Debug)]
pub struct PeerConnection {
    /// The id that the peer gave in its handshake.
    pub peer_id: [u8; 20],
    /// Whether the peer is choking us.
    pub peer_choking: bool,
    /// Whether the peer is interested in our pieces.
    pub peer_interested: bool,
    /// Whether we are choking the peer.
    pub am_choking: bool,
    /// Whether we are interested in the peer's pieces.
    pub am_interested: bool,
    /// The pieces that the peer has, one bit each.
    pub bitfield: Vec<u8>,
}

/// The 68 bytes that open a connection: the length and the name of the
/// protocol, eight reserved bytes of which the sixth has the bit of the
/// extension protocol set, the info hash, and our peer id.
pub open spec fn handshake_bytes(info_hash: Seq<u8>, peer_id: Seq<u8>) -> Seq<u8> {
    seq![19u8] + ascii("BitTorrent protocol") + seq![0u8, 0u8, 0u8, 0u8, 0u8, 0x10u8, 0u8, 0u8]
        + info_hash + peer_id
}

/// Whether `reply` is a handshake: 68 bytes that start with the length and
/// the name of the protocol.
pub open spec fn is_handshake(reply: Seq<u8>) -> bool {
    reply.len() == 68 && reply[0] == 19 && reply.subrange(1, 20) == ascii("BitTorrent protocol")
}

/// What a connection knows after a message has been read: the choke and
/// interest flags follow the four messages that set them, `Have` sets a bit
/// and `Bitfield` replaces the bits.
pub open spec fn observe(c: PeerConnection, m: MessageView) -> PeerConnection {
    match m {
        MessageView::Choke => PeerConnection { peer_choking: true, ..c },
        MessageView::Unchoke => PeerConnection { peer_choking: false, ..c },
        MessageView::Interested => PeerConnection { peer_interested: true, ..c },
        MessageView::NotInterested => PeerConnection { peer_interested: false, ..c },
        _ => c,
    }
}

/// The bits of the peer's pieces after a message has been read.
pub open spec fn observe_bits(bits: Seq<u8>, m: MessageView) -> Seq<u8> {
    match m {
        MessageView::Have(index) => with_bit(bits, index as int),
        MessageView::Bitfield(b) => b,
        _ => bits,
    }
}

impl PeerConnection {
    /// Whether the peer has the piece of this index.
    pub fn has_piece(&self, index: u32) -> (r: bool)
        ensures
            r == has_bit(self.bitfield@, index as int),
    {
        test_bit(self.bitfield.as_slice(), index as usize)
    }

    /// The handshake to send to a peer.
    pub fn handshake(info_hash: &[u8; 20], client_id: &[u8; 20]) -> (out: Vec<u8>)
        ensures
            out@ == handshake_bytes(info_hash@, client_id@),
            out@.len() == 68,
    {
        proof {
            reveal_strlit("BitTorrent protocol");
        }
        let mut out: Vec<u8> = Vec::new();
        out.push(19);
        let name = ascii_bytes("BitTorrent protocol");
        out.extend_from_slice(name.as_slice());
        let reserved: [u8; 8] = [0, 0, 0, 0, 0, 0x10, 0, 0];
        out.extend_from_slice(reserved.as_slice());
        out.extend_from_slice(info_hash.as_slice());
        out.extend_from_slice(client_id.as_slice());
        assert(out@ =~= handshake_bytes(info_hash@, client_id@));
        out
    }

    /// The connection that the peer's handshake `reply` opens, after we sent
    /// a handshake with `info_hash`.
    ///
    /// The reply is refused as `HandshakeInvalid` unless it is 68 bytes that
    /// start with the length and the name of the protocol, and as
    /// `FingerprintMismatch` unless its info hash is the one sent. The new
    /// connection holds the peer's id; both sides choke, none is interested,
    /// and the peer has no piece.
    pub fn connect(reply: &[u8], info_hash: &[u8; 20]) -> (r: Result<PeerConnection, WireError>)
        ensures
            !is_handshake(reply@) ==> r == Err::<PeerConnection, WireError>(
                WireError::HandshakeInvalid,
            ),
            is_handshake(reply@) && reply@.subrange(28, 48) != info_hash@ ==> r == Err::<
                PeerConnection,
                WireError,
            >(WireError::FingerprintMismatch),
            is_handshake(reply@) && reply@.subrange(28, 48) == info_hash@ ==> {
                &&& r.is_ok()
                &&& r.unwrap().peer_id@ == reply@.subrange(48, 68)
                &&& r.unwrap().peer_choking
                &&& !r.unwrap().peer_interested
                &&& r.unwrap().am_choking
                &&& !r.unwrap().am_interested
                &&& r.unwrap().bitfield@ == Seq::<u8>::empty()
            },
    {
        proof {
            reveal_strlit("BitTorrent protocol");
        }
        if reply.len() != 68 || reply[0] != 19 {
            return Err(WireError::HandshakeInvalid);
        }
        let name = ascii_bytes("BitTorrent protocol");
        if !is_equal(vstd::slice::slice_subrange(reply, 1, 20), name.as_slice()) {
            return Err(WireError::HandshakeInvalid);
        }
        if !is_equal(vstd::slice::slice_subrange(reply, 28, 48), info_hash.as_slice()) {
            return Err(WireError::FingerprintMismatch);
        }
        let mut peer_id: [u8; 20] = [0u8; 20];
        let mut i: usize = 0;
        while i < 20
            invariant
                i <= 20,
                reply@.len() == 68,
                forall|j: int| 0 <= j < i ==> peer_id@[j] == reply@[48 + j],
            decreases 20 - i,
        {
            peer_id[i] = reply[48 + i];
            i = i + 1;
        }
        assert(peer_id@ =~= reply@.subrange(48, 68));
        Ok(
            PeerConnection {
                peer_id,
                peer_choking: true,
                peer_interested: false,
                am_choking: true,
                am_interested: false,
                bitfield: Vec::new(),
            },
        )
    }

    /// The frame of `msg`, as it is to be sent to the peer.
    pub fn send_message(&self, msg: &Message) -> (r: Result<Vec<u8>, WireError>)
        ensures
            match r {
                Ok(out) => fits_frame(msg@) && out@ == frame_of(msg@),
                Err(e) => !fits_frame(msg@) && e == WireError::TooLong,
            },
    {
        msg.encode()
    }

    /// Reads the message in the frame that starts `input` and records what
    /// it says of the peer: its choke and interest flags and its pieces.
    /// The number of bytes of the frame comes with the message.
    ///
    /// On an error the connection is as it was.
    pub fn read_message(&mut self, input: &[u8]) -> (r: Result<(Message, usize), WireError>)
        ensures
            match parse_frame(input@) {
                Ok((m, n)) => {
                    &&& r.is_ok()
                    &&& r.unwrap().0@ == m
                    &&& r.unwrap().1 == n
                    &&& final(self).peer_id == old(self).peer_id
                    &&& final(self).am_choking == old(self).am_choking
                    &&& final(self).am_interested == old(self).am_interested
                    &&& final(self).peer_choking == observe(*old(self), m).peer_choking
                    &&& final(self).peer_interested == observe(*old(self), m).peer_interested
                    &&& final(self).bitfield@ == observe_bits(old(self).bitfield@, m)
                },
                Err(e) => r == Err::<(Message, usize), WireError>(e) && *final(self) == *old(self),
            },
    {
        let (msg, n) = match Message::decode(input) {
            Ok(pair) => pair,
            Err(e) => {
                return Err(e);
            },
        };
        match &msg {
            Message::Choke => {
                self.peer_choking = true;
            },
            Message::Unchoke => {
                self.peer_choking = false;
            },
            Message::Interested => {
                self.peer_interested = true;
            },
            Message::NotInterested => {
                self.peer_interested = false;
            },
            Message::Have(index) => {
                set_bit(&mut self.bitfield, *index as usize);
            },
            Message::Bitfield(bits) => {
                self.bitfield = bits.clone();
            },
            _ => {},
        }
        Ok((msg, n))
    }
}

} // verus!
