//! Fetching the `info` dictionary of a torrent from a peer, by the
//! metadata extension, when only its info hash is known.
use vstd::prelude::*;
use crate::bencoding::bencode::{Bencode, Value, dict_insert, entries_view, insert_entry, lemma_view_dict};
use crate::bencoding::decoder::{decode, lemma_decode_bounds, spec_decode};
use crate::bencoding::encoder::spec_encode;
use crate::bencoding::info_hash::{info_hash, sha1_digest};
use crate::lex_order::is_equal;
use crate::buffer::{with_block, write_block, zeros};
use crate::peer::extension::{ExtensionInfo, extension_handshake, handshake_payload, low_u32, wrap_u32};
use crate::peer::message::{Message, MessageView};
use crate::text::{ascii, ascii_bytes};
use crate::torrent::int_at;

verus! {

/// The length of a piece of metadata; the last piece may be shorter.
pub const METADATA_PIECE: u32 = 16384;

/// The id that we give to the transfer of metadata when we fetch it.
pub const OUR_METADATA_ID: u8 = 2;

/// Why the metadata could not be had from a peer.
#[derive(Debug, Clone, Copy, PartialEq, Eq, Structural)]
pub enum MetadataError {
    /// The peer named no id for the transfer of metadata, or no size.
    ExtensionUnsupported,
    /// The peer sent a message of the extension that does not decode.
    CodecInvalid,
    /// The peer refused a piece.
    Rejected,
    /// What the peer sent does not have the info hash.
    HashMismatch,
}

/// What a message of the metadata extension says.
pub ghost enum MetadataMessage {
    /// The bytes of the piece of this index.
    Data { piece: u32, data: Seq<u8> },
    /// The peer refuses a piece.
    Reject,
    /// Anything else.
    Other,
}

/// What the payload of a message of the metadata extension says: a
/// dictionary with a `msg_type`, 1 for data and 2 for a refusal, and for
/// data the index `piece`, 0 where it is missing, with the bytes of the
/// piece after the dictionary.
pub open spec fn metadata_message(payload: Seq<u8>) -> Result<MetadataMessage, MetadataError> {
    match spec_decode(payload, 0) {
        Err(_) => Err(MetadataError::CodecInvalid),
        Ok((root, pos)) => match int_at(root, ascii("msg_type")) {
            Some(t) => if t == 1 {
                Ok(
                    MetadataMessage::Data {
                        piece: match int_at(root, ascii("piece")) {
                            Some(i) => low_u32(i),
                            None => 0,
                        },
                        data: payload.subrange(pos, payload.len() as int),
                    },
                )
            } else if t == 2 {
                Ok(MetadataMessage::Reject)
            } else {
                Ok(MetadataMessage::Other)
            },
            None => Ok(MetadataMessage::Other),
        },
    }
}

/// The payload of the request for the piece of metadata `piece`: the
/// encoding of a dictionary with `msg_type` 0 and the index.
pub open spec fn request_payload(piece: u32) -> Seq<u8> {
    spec_encode(
        Value::Dict(
            dict_insert(
                dict_insert(Seq::empty(), ascii("msg_type"), Value::Int(0)),
                ascii("piece"),
                Value::Int(piece as int),
            ),
        ),
    )
}

/// The number of pieces of a metadata of `size` bytes.
pub open spec fn metadata_pieces(size: int) -> int {
    (size + 16383) / 16384
}

/// The metadata after the bytes `data` have come for the piece `piece`:
/// they are written at `piece * 16384`, as far as the metadata reaches;
/// nothing is written where the piece starts beyond its end.
pub open spec fn with_metadata(buffer: Seq<u8>, piece: u32, data: Seq<u8>) -> Seq<u8> {
    let start = piece * 16384;
    if start < buffer.len() {
        let n = if start + data.len() > buffer.len() {
            buffer.len() - start
        } else {
            data.len() as int
        };
        with_block(buffer, start, data.take(n))
    } else {
        buffer
    }
}

/// The payload of the request for the piece of metadata `piece`.
pub fn metadata_request(piece: u32) -> (out: Vec<u8>)
    ensures
        out@ == request_payload(piece),
{
    proof {
        reveal_strlit("msg_type");
        reveal_strlit("piece");
    }
    let mut req: Vec<(Vec<u8>, Bencode)> = Vec::new();
    assert(entries_view(req@) =~= Seq::<(Seq<u8>, Value)>::empty());
    insert_entry(&mut req, ascii_bytes("msg_type"), Bencode::Int(0));
    insert_entry(&mut req, ascii_bytes("piece"), Bencode::Int(piece as i64));
    proof {
        lemma_view_dict(req);
    }
    Bencode::Dict(req).encode()
}

/// The metadata that is being fetched from one peer.
#[derive(Debug)]
pub struct MetadataFetch {
    /// The info hash that the metadata must have.
    pub info_hash: [u8; 20],
    /// The id that the peer gave to the transfer of metadata.
    pub ut_metadata_id: u8,
    /// The metadata, as far as it has come.
    pub buffer: Vec<u8>,
    /// The number of pieces that have come.
    pub received: u32,
    /// The number of pieces.
    pub piece_count: u32,
}

impl MetadataFetch {
    /// The payload of the extension handshake that opens a fetch: it gives
    /// the id 2 to the transfer of metadata.
    pub fn handshake() -> (out: Vec<u8>)
        ensures
            out@ == handshake_payload(None, Some(OUR_METADATA_ID)),
    {
        extension_handshake(None, Some(OUR_METADATA_ID))
    }

    /// Starts the fetch from a peer whose extension handshake said `info`.
    ///
    /// The peer must have named an id for the transfer of metadata and a
    /// size, neither of them zero. The fetch starts with a buffer of that
    /// size; the caller gets one request for every piece of 16384 bytes, to
    /// send under the id of the peer.
    pub fn start(info_hash: [u8; 20], info: &ExtensionInfo) -> (r: Result<
        (MetadataFetch, Vec<Message>),
        MetadataError,
    >)
        ensures
            match (info.ut_metadata, info.metadata_size) {
                (Some(id), Some(size)) => if id != 0 && size != 0 {
                    &&& r is Ok
                    &&& r.unwrap().0.info_hash == info_hash
                    &&& r.unwrap().0.ut_metadata_id == id
                    &&& r.unwrap().0.buffer@ == Seq::new(size as nat, |i: int| 0u8)
                    &&& r.unwrap().0.received == 0
                    &&& r.unwrap().0.piece_count == metadata_pieces(size as int)
                    &&& r.unwrap().1@.len() == metadata_pieces(size as int)
                    &&& forall|i: int|
                        0 <= i < r.unwrap().1@.len() ==> (#[trigger] r.unwrap().1@[i])@
                            == (MessageView::Extended {
                            id,
                            payload: request_payload(i as u32),
                        })
                } else {
                    r == Err::<(MetadataFetch, Vec<Message>), MetadataError>(
                        MetadataError::ExtensionUnsupported,
                    )
                },
                _ => r == Err::<(MetadataFetch, Vec<Message>), MetadataError>(
                    MetadataError::ExtensionUnsupported,
                ),
            },
    {
        let id = match info.ut_metadata {
            Some(id) => id,
            None => {
                return Err(MetadataError::ExtensionUnsupported);
            },
        };
        let size = match info.metadata_size {
            Some(size) => size,
            None => {
                return Err(MetadataError::ExtensionUnsupported);
            },
        };
        if id == 0 || size == 0 {
            return Err(MetadataError::ExtensionUnsupported);
        }
        let piece_count: u32 = size / METADATA_PIECE + if size % METADATA_PIECE == 0 {
            0
        } else {
            1
        };
        let mut requests: Vec<Message> = Vec::new();
        let mut i: u32 = 0;
        while i < piece_count
            invariant
                i <= piece_count,
                requests@.len() == i,
                forall|j: int|
                    0 <= j < i ==> (#[trigger] requests@[j])@ == (MessageView::Extended {
                        id,
                        payload: request_payload(j as u32),
                    }),
            decreases piece_count - i,
        {
            requests.push(Message::Extended { id, payload: metadata_request(i) });
            i = i + 1;
        }
        let fetch = MetadataFetch {
            info_hash,
            ut_metadata_id: id,
            buffer: zeros(size as usize),
            received: 0,
            piece_count,
        };
        Ok((fetch, requests))
    }

    /// Handles a message that the peer sent during the fetch, and returns
    /// whether as many pieces have come as the metadata has.
    ///
    /// Only a message of the extension protocol under the peer's id for the
    /// transfer of metadata is looked at, and only while pieces are still to
    /// come. Data is written at its place and counted, unless it is empty or
    /// its piece starts beyond the end of the metadata. A refusal ends the
    /// fetch, and so does a message that does not decode.
    pub fn on_message(&mut self, msg: &Message) -> (r: Result<bool, MetadataError>)
        ensures
            final(self).info_hash == old(self).info_hash,
            final(self).ut_metadata_id == old(self).ut_metadata_id,
            final(self).piece_count == old(self).piece_count,
            final(self).buffer@.len() == old(self).buffer@.len(),
            match old(self).relevant(msg@) {
                None => {
                    &&& r == Ok::<bool, MetadataError>(old(self).received >= old(self).piece_count)
                    &&& *final(self) == *old(self)
                },
                Some(Err(e)) => r == Err::<bool, MetadataError>(e) && *final(self) == *old(self),
                Some(Ok(MetadataMessage::Reject)) => r == Err::<bool, MetadataError>(
                    MetadataError::Rejected,
                ) && *final(self) == *old(self),
                Some(Ok(MetadataMessage::Other)) => r == Ok::<bool, MetadataError>(false)
                    && *final(self) == *old(self),
                Some(Ok(MetadataMessage::Data { piece, data })) => if data.len() > 0 && piece
                    * 16384 < old(self).buffer@.len() {
                    &&& final(self).buffer@ == with_metadata(old(self).buffer@, piece, data)
                    &&& final(self).received == old(self).received + 1
                    &&& r == Ok::<bool, MetadataError>(
                        final(self).received >= final(self).piece_count,
                    )
                } else {
                    r == Ok::<bool, MetadataError>(false) && *final(self) == *old(self)
                },
            },
    {
        if self.received >= self.piece_count {
            return Ok(true);
        }
        let payload = match msg {
            Message::Extended { id, payload } => {
                if *id != self.ut_metadata_id {
                    return Ok(false);
                }
                payload
            },
            _ => {
                return Ok(false);
            },
        };
        let length = payload.len();
        proof {
            reveal_strlit("msg_type");
            reveal_strlit("piece");
            lemma_decode_bounds(payload@, 0);
        }
        let mut pos: usize = 0;
        let root = match decode(payload.as_slice(), &mut pos) {
            Ok(root) => root,
            Err(_) => {
                return Err(MetadataError::CodecInvalid);
            },
        };
        let kind: i64 = match root.get(ascii_bytes("msg_type").as_slice()) {
            Some(Bencode::Int(t)) => *t,
            _ => {
                return Ok(false);
            },
        };
        if kind == 2 {
            return Err(MetadataError::Rejected);
        }
        if kind != 1 {
            return Ok(false);
        }
        let piece: u32 = match root.get(ascii_bytes("piece").as_slice()) {
            Some(Bencode::Int(i)) => wrap_u32(*i),
            _ => 0,
        };
        let total = self.buffer.len();
        let start: u64 = piece as u64 * METADATA_PIECE as u64;
        if pos >= length || start >= total as u64 {
            return Ok(false);
        }
        let start: usize = start as usize;
        let available = length - pos;
        let n = if available > total - start {
            total - start
        } else {
            available
        };
        let data = vstd::slice::slice_subrange(payload.as_slice(), pos, pos + n);
        assert(data@ =~= payload@.subrange(pos as int, payload@.len() as int).take(n as int));
        write_block(&mut self.buffer, start, data);
        self.received = self.received + 1;
        Ok(self.received >= self.piece_count)
    }

    /// What the message `m` says to the fetch, where the fetch looks at it:
    /// pieces are still to come, and `m` is a message of the extension
    /// protocol under the peer's id for the transfer of metadata.
    pub open spec fn relevant(&self, m: MessageView) -> Option<
        Result<MetadataMessage, MetadataError>,
    > {
        if self.received >= self.piece_count {
            None
        } else {
            match m {
                MessageView::Extended { id, payload } => if id == self.ut_metadata_id {
                    Some(metadata_message(payload))
                } else {
                    Some(Ok(MetadataMessage::Other))
                },
                _ => Some(Ok(MetadataMessage::Other)),
            }
        }
    }

    /// Ends the fetch: the metadata, where its SHA-1 digest is the info
    /// hash.
    pub fn finish(self) -> (r: Result<Vec<u8>, MetadataError>)
        ensures
            sha1_digest(self.buffer@) == self.info_hash@ ==> r is Ok && r.unwrap()@ == self.buffer@,
            sha1_digest(self.buffer@) != self.info_hash@ ==> r == Err::<Vec<u8>, MetadataError>(
                MetadataError::HashMismatch,
            ),
    {
        let digest = info_hash(self.buffer.as_slice());
        self.finish_with(&digest)
    }

    /// Ends the fetch, given the digest `digest` of the metadata: the
    /// metadata, where `digest` is the info hash.
    pub fn finish_with(self, digest: &[u8; 20]) -> (r: Result<Vec<u8>, MetadataError>)
        ensures
            digest@ == self.info_hash@ ==> r is Ok && r.unwrap()@ == self.buffer@,
            digest@ != self.info_hash@ ==> r == Err::<Vec<u8>, MetadataError>(
                MetadataError::HashMismatch,
            ),
    {
        if is_equal(digest.as_slice(), self.info_hash.as_slice()) {
            Ok(self.buffer)
        } else {
            Err(MetadataError::HashMismatch)
        }
    }
}

} // verus!
