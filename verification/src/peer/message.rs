use vstd::prelude::*;
use crate::byte_order::{be_u32, push_u32, read_u32, u32_be};

verus! {

/// A message of the peer wire protocol.
#[derive(Debug)]
pub enum Message {
    /// The empty frame that keeps a connection alive.
    KeepAlive,
    /// Id 0: the sender will not answer requests.
    Choke,
    /// Id 1: the sender will answer requests.
    Unchoke,
    /// Id 2: the sender wants pieces of the receiver.
    Interested,
    /// Id 3: the sender wants none.
    NotInterested,
    /// Id 4: the sender now has the piece of this index.
    Have(u32),
    /// Id 5: the pieces that the sender has, one bit each.
    Bitfield(Vec<u8>),
    /// Id 6: asks for `length` bytes of piece `index` from offset `begin`.
    Request { index: u32, begin: u32, length: u32 },
    /// Id 7: the bytes of piece `index` from offset `begin`.
    Piece { index: u32, begin: u32, block: Vec<u8> },
    /// Id 8: withdraws a request.
    Cancel { index: u32, begin: u32, length: u32 },
    /// Id 20: a message of the extension protocol; `id` 0 is its handshake.
    Extended { id: u8, payload: Vec<u8> },
}

/// The content of a message.
pub ghost enum MessageView {
    KeepAlive,
    Choke,
    Unchoke,
    Interested,
    NotInterested,
    Have(u32),
    Bitfield(Seq<u8>),
    Request { index: u32, begin: u32, length: u32 },
    Piece { index: u32, begin: u32, block: Seq<u8> },
    Cancel { index: u32, begin: u32, length: u32 },
    Extended { id: u8, payload: Seq<u8> },
}

impl View for Message {
    type V = MessageView;

    open spec fn view(&self) -> MessageView {
        match self {
            Message::KeepAlive => MessageView::KeepAlive,
            Message::Choke => MessageView::Choke,
            Message::Unchoke => MessageView::Unchoke,
            Message::Interested => MessageView::Interested,
            Message::NotInterested => MessageView::NotInterested,
            Message::Have(index) => MessageView::Have(*index),
            Message::Bitfield(bits) => MessageView::Bitfield(bits@),
            Message::Request { index, begin, length } => MessageView::Request {
                index: *index,
                begin: *begin,
                length: *length,
            },
            Message::Piece { index, begin, block } => MessageView::Piece {
                index: *index,
                begin: *begin,
                block: block@,
            },
            Message::Cancel { index, begin, length } => MessageView::Cancel {
                index: *index,
                begin: *begin,
                length: *length,
            },
            Message::Extended { id, payload } => MessageView::Extended {
                id: *id,
                payload: payload@,
            },
        }
    }
}

/// Why a handshake or a frame was not accepted.
#[derive(Debug, Clone, Copy, PartialEq, Eq, Structural)]
pub enum WireError {
    /// The handshake reply is not 68 bytes that start with the protocol name.
    HandshakeInvalid,
    /// The handshake reply names another info hash than the one sent.
    FingerprintMismatch,
    /// The input ends before the frame that its length prefix announces.
    Truncated,
    /// The frame has a known id and a length that this id does not allow.
    Malformed,
    /// The frame has an id that the protocol does not know.
    UnknownMessage(u8),
    /// The message is too long for a 32-bit length prefix.
    TooLong,
}

/// What a frame holds after its length prefix: nothing for a keep-alive,
/// else the id and what the message carries.
pub open spec fn payload_of(m: MessageView) -> Seq<u8> {
    match m {
        MessageView::KeepAlive => Seq::empty(),
        MessageView::Choke => seq![0u8],
        MessageView::Unchoke => seq![1u8],
        MessageView::Interested => seq![2u8],
        MessageView::NotInterested => seq![3u8],
        MessageView::Have(index) => seq![4u8] + u32_be(index),
        MessageView::Bitfield(bits) => seq![5u8] + bits,
        MessageView::Request { index, begin, length } => seq![6u8] + u32_be(index) + u32_be(begin)
            + u32_be(length),
        MessageView::Piece { index, begin, block } => seq![7u8] + u32_be(index) + u32_be(begin)
            + block,
        MessageView::Cancel { index, begin, length } => seq![8u8] + u32_be(index) + u32_be(begin)
            + u32_be(length),
        MessageView::Extended { id, payload } => seq![20u8, id] + payload,
    }
}

/// Whether a message fits a frame: its payload is at most `u32::MAX` bytes.
pub open spec fn fits_frame(m: MessageView) -> bool {
    payload_of(m).len() <= u32::MAX
}

/// The frame of a message: the length of its payload in four bytes, most
/// significant first, then the payload.
pub open spec fn frame_of(m: MessageView) -> Seq<u8> {
    u32_be(payload_of(m).len() as u32) + payload_of(m)
}

/// The message that a payload holds.
///
/// An empty payload is a keep-alive. Otherwise the first byte is the id; a
/// message of fixed size must have exactly that size.
pub open spec fn message_of(p: Seq<u8>) -> Result<MessageView, WireError> {
    if p.len() == 0 {
        Ok(MessageView::KeepAlive)
    } else if p[0] == 0 {
        if p.len() == 1 {
            Ok(MessageView::Choke)
        } else {
            Err(WireError::Malformed)
        }
    } else if p[0] == 1 {
        if p.len() == 1 {
            Ok(MessageView::Unchoke)
        } else {
            Err(WireError::Malformed)
        }
    } else if p[0] == 2 {
        if p.len() == 1 {
            Ok(MessageView::Interested)
        } else {
            Err(WireError::Malformed)
        }
    } else if p[0] == 3 {
        if p.len() == 1 {
            Ok(MessageView::NotInterested)
        } else {
            Err(WireError::Malformed)
        }
    } else if p[0] == 4 {
        if p.len() == 5 {
            Ok(MessageView::Have(be_u32(p, 1)))
        } else {
            Err(WireError::Malformed)
        }
    } else if p[0] == 5 {
        Ok(MessageView::Bitfield(p.skip(1)))
    } else if p[0] == 6 {
        if p.len() == 13 {
            Ok(
                MessageView::Request {
                    index: be_u32(p, 1),
                    begin: be_u32(p, 5),
                    length: be_u32(p, 9),
                },
            )
        } else {
            Err(WireError::Malformed)
        }
    } else if p[0] == 7 {
        if p.len() >= 9 {
            Ok(MessageView::Piece { index: be_u32(p, 1), begin: be_u32(p, 5), block: p.skip(9) })
        } else {
            Err(WireError::Malformed)
        }
    } else if p[0] == 8 {
        if p.len() == 13 {
            Ok(
                MessageView::Cancel {
                    index: be_u32(p, 1),
                    begin: be_u32(p, 5),
                    length: be_u32(p, 9),
                },
            )
        } else {
            Err(WireError::Malformed)
        }
    } else if p[0] == 20 {
        if p.len() >= 2 {
            Ok(MessageView::Extended { id: p[1], payload: p.skip(2) })
        } else {
            Err(WireError::Malformed)
        }
    } else {
        Err(WireError::UnknownMessage(p[0]))
    }
}

/// The number of bytes of the frame that starts `input`, its length prefix
/// included, where `input` holds at least the prefix.
pub open spec fn frame_len(input: Seq<u8>) -> int {
    4 + be_u32(input, 0)
}

/// The message in the frame that starts `input`, with the number of bytes
/// of that frame.
pub open spec fn parse_frame(input: Seq<u8>) -> Result<(MessageView, int), WireError> {
    if input.len() < 4 || input.len() < frame_len(input) {
        Err(WireError::Truncated)
    } else {
        match message_of(input.subrange(4, frame_len(input))) {
            Ok(m) => Ok((m, frame_len(input))),
            Err(e) => Err(e),
        }
    }
}

/// The frame of `len` payload bytes that start with `head`, followed by
/// `body`, or the error that they are too many.
fn frame(head: Vec<u8>, body: &[u8]) -> (r: Result<Vec<u8>, WireError>)
    requires
        head@.len() <= 13,
    ensures
        match r {
            Ok(out) => head@.len() + body@.len() <= u32::MAX && out@ == u32_be(
                (head@.len() + body@.len()) as u32,
            ) + (head@ + body@),
            Err(e) => head@.len() + body@.len() > u32::MAX && e == WireError::TooLong,
        },
{
    let n = body.len();
    if n > (u32::MAX as usize) - head.len() {
        return Err(WireError::TooLong);
    }
    let mut out: Vec<u8> = Vec::new();
    push_u32(&mut out, (head.len() + n) as u32);
    out.extend_from_slice(head.as_slice());
    out.extend_from_slice(body);
    assert(out@ =~= u32_be((head@.len() + body@.len()) as u32) + (head@ + body@));
    Ok(out)
}

impl Message {
    /// The frame of the message, as it goes over the wire.
    pub fn encode(&self) -> (r: Result<Vec<u8>, WireError>)
        ensures
            match r {
                Ok(out) => fits_frame(self@) && out@ == frame_of(self@),
                Err(e) => !fits_frame(self@) && e == WireError::TooLong,
            },
    {
        let mut head: Vec<u8> = Vec::new();
        let empty: Vec<u8> = Vec::new();
        match self {
            Message::KeepAlive => {
                let r = frame(head, empty.as_slice());
                assert(head@ + empty@ =~= payload_of(self@));
                r
            },
            Message::Choke => {
                head.push(0);
                let r = frame(head, empty.as_slice());
                assert(head@ + empty@ =~= payload_of(self@));
                r
            },
            Message::Unchoke => {
                head.push(1);
                let r = frame(head, empty.as_slice());
                assert(head@ + empty@ =~= payload_of(self@));
                r
            },
            Message::Interested => {
                head.push(2);
                let r = frame(head, empty.as_slice());
                assert(head@ + empty@ =~= payload_of(self@));
                r
            },
            Message::NotInterested => {
                head.push(3);
                let r = frame(head, empty.as_slice());
                assert(head@ + empty@ =~= payload_of(self@));
                r
            },
            Message::Have(index) => {
                head.push(4);
                push_u32(&mut head, *index);
                let r = frame(head, empty.as_slice());
                assert(head@ + empty@ =~= payload_of(self@));
                r
            },
            Message::Bitfield(bits) => {
                head.push(5);
                let r = frame(head, bits.as_slice());
                assert(head@ + bits@ =~= payload_of(self@));
                r
            },
            Message::Request { index, begin, length } => {
                head.push(6);
                push_u32(&mut head, *index);
                push_u32(&mut head, *begin);
                push_u32(&mut head, *length);
                let r = frame(head, empty.as_slice());
                assert(head@ + empty@ =~= payload_of(self@));
                r
            },
            Message::Piece { index, begin, block } => {
                head.push(7);
                push_u32(&mut head, *index);
                push_u32(&mut head, *begin);
                let r = frame(head, block.as_slice());
                assert(head@ + block@ =~= payload_of(self@));
                r
            },
            Message::Cancel { index, begin, length } => {
                head.push(8);
                push_u32(&mut head, *index);
                push_u32(&mut head, *begin);
                push_u32(&mut head, *length);
                let r = frame(head, empty.as_slice());
                assert(head@ + empty@ =~= payload_of(self@));
                r
            },
            Message::Extended { id, payload } => {
                head.push(20);
                head.push(*id);
                let r = frame(head, payload.as_slice());
                assert(head@ + payload@ =~= payload_of(self@));
                r
            },
        }
    }

    /// The message in the frame that starts `input`, with the number of
    /// bytes of that frame; bytes after the frame are not looked at.
    pub fn decode(input: &[u8]) -> (r: Result<(Message, usize), WireError>)
        ensures
            match parse_frame(input@) {
                Ok((m, n)) => r.is_ok() && r.unwrap().0@ == m && r.unwrap().1 == n,
                Err(e) => r == Err::<(Message, usize), WireError>(e),
            },
    {
        let total = input.len();
        if total < 4 {
            return Err(WireError::Truncated);
        }
        let n = read_u32(input, 0) as usize;
        if total - 4 < n {
            return Err(WireError::Truncated);
        }
        let end: usize = 4 + n;
        let p = vstd::slice::slice_subrange(input, 4, end);
        if n == 0 {
            return Ok((Message::KeepAlive, end));
        }
        let id = p[0];
        if id <= 3 {
            if n != 1 {
                return Err(WireError::Malformed);
            }
            let m = if id == 0 {
                Message::Choke
            } else if id == 1 {
                Message::Unchoke
            } else if id == 2 {
                Message::Interested
            } else {
                Message::NotInterested
            };
            Ok((m, end))
        } else if id == 4 {
            if n != 5 {
                return Err(WireError::Malformed);
            }
            Ok((Message::Have(read_u32(p, 1)), end))
        } else if id == 5 {
            let bits = vstd::slice::slice_to_vec(vstd::slice::slice_subrange(p, 1, n));
            assert(bits@ =~= p@.skip(1));
            Ok((Message::Bitfield(bits), end))
        } else if id == 6 {
            if n != 13 {
                return Err(WireError::Malformed);
            }
            Ok(
                (
                    Message::Request {
                        index: read_u32(p, 1),
                        begin: read_u32(p, 5),
                        length: read_u32(p, 9),
                    },
                    end,
                ),
            )
        } else if id == 7 {
            if n < 9 {
                return Err(WireError::Malformed);
            }
            let block = vstd::slice::slice_to_vec(vstd::slice::slice_subrange(p, 9, n));
            assert(block@ =~= p@.skip(9));
            Ok((Message::Piece { index: read_u32(p, 1), begin: read_u32(p, 5), block }, end))
        } else if id == 8 {
            if n != 13 {
                return Err(WireError::Malformed);
            }
            Ok(
                (
                    Message::Cancel {
                        index: read_u32(p, 1),
                        begin: read_u32(p, 5),
                        length: read_u32(p, 9),
                    },
                    end,
                ),
            )
        } else if id == 20 {
            if n < 2 {
                return Err(WireError::Malformed);
            }
            let payload = vstd::slice::slice_to_vec(vstd::slice::slice_subrange(p, 2, n));
            assert(payload@ =~= p@.skip(2));
            Ok((Message::Extended { id: p[1], payload }, end))
        } else {
            Err(WireError::UnknownMessage(id))
        }
    }
}

} // verus!
