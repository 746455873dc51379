use vstd::prelude::*;
use rand::rngs::ThreadRng;
use super::piece_map::{PieceMap, all_have, have_count, is_available, is_bitfield_of, piece_len};
use super::state::PieceStatus;
use crate::bencoding::bencode::{Bencode, Value};
use crate::bencoding::decoder::{decode, spec_decode};
use crate::bencoding::info_hash::{info_hash, sha1_digest};
use crate::buffer::{with_block, write_block, zeros};
use crate::lex_order::is_equal;
use crate::peer::connection::PeerConnection;
use crate::metadata::OUR_METADATA_ID;
use crate::peer::extension::{ExtensionInfo, extension_handshake, extension_info, handshake_payload, parse_extension_handshake};
use crate::peer::message::{Message, MessageView};
use crate::peer_addr::{PeerAddr, compact_peers, parse_compact_peers};
use crate::text::{ascii, ascii_bytes};

verus! {

/// The length of a block, the unit in which a piece is asked for; the last
/// block of a piece may be shorter.
pub const BLOCK_SIZE: u32 = 16384;

/// The greatest length of a request that is honoured.
pub const MAX_REQUEST: u32 = 131072;

/// The id that we give to peer exchange in our extension handshake.
pub const OUR_PEX_ID: u8 = 1;

/// The piece that a session is fetching.
#[derive(Debug)]
pub struct CurrentPiece {
    /// The index of the piece.
    pub index: usize,
    /// The bytes of the piece, as far as they have come.
    pub buffer: Vec<u8>,
    /// The number of blocks of the piece.
    pub blocks_total: usize,
    /// The number of blocks that have come.
    pub blocks_received: usize,
}

/// The state of the session with one peer.
#[derive(Debug)]
pub struct PeerSession {
    /// What the connection knows of the peer.
    pub conn: PeerConnection,
    /// The piece that the session is fetching.
    pub current_piece: Option<CurrentPiece>,
    /// The piece that the session has verified and handed out for storing.
    pub storing: Option<usize>,
    /// The ids that the peer gave to the extensions.
    pub extensions: ExtensionInfo,
    /// The bytes served to the peer.
    pub uploaded: u64,
}

/// What the caller has to do after a message has been handled.
#[derive(Debug)]
pub enum Reaction {
    /// Nothing.
    Nothing,
    /// Write the verified piece `data` at `offset` of the content, then
    /// call `stored`; call `abort` where the write fails.
    Store { piece: usize, offset: u64, data: Vec<u8> },
    /// Read `length` bytes at `offset` of the content and send them as a
    /// `Piece` message for `index` and `begin`, then call `served`.
    Serve { index: u32, begin: u32, length: u32, offset: u64 },
    /// Offer these endpoints to the manager as candidates.
    Peers(Vec<PeerAddr>),
    /// Close the connection: the peer sent a piece that does not match its
    /// digest.
    Close,
}

/// What the caller has to do after the session has looked for a piece.
#[derive(Debug)]
pub enum Selection {
    /// Nothing: the peer chokes us, or a piece is under way, or the peer has
    /// no piece that is missing.
    Idle,
    /// Every piece is `Have`: the download is complete.
    Finished,
    /// Send these requests, in this order.
    Requests(Vec<Message>),
}

/// The number of blocks of a piece of `len` bytes.
pub open spec fn block_count(len: int) -> int {
    (len + 16383) / 16384
}

/// The length of block `b` of a piece of `len` bytes.
pub open spec fn block_len(len: int, b: int) -> int {
    if (b + 1) * 16384 > len {
        len - b * 16384
    } else {
        16384
    }
}

/// The request for block `b` of piece `index`, a piece of `len` bytes.
pub open spec fn block_request(index: int, len: int, b: int) -> MessageView {
    MessageView::Request {
        index: index as u32,
        begin: (b * 16384) as u32,
        length: block_len(len, b) as u32,
    }
}

/// The endpoints that the payload of a peer exchange message adds: those
/// of the byte string bound to `added` in the dictionary that it encodes.
pub open spec fn pex_added(payload: Seq<u8>) -> Option<Seq<PeerAddr>> {
    match spec_decode(payload, 0) {
        Ok((root, _)) => match root.lookup(ascii("added")) {
            Some(Value::Bytes(b)) => Some(compact_peers(b)),
            _ => None,
        },
        Err(_) => None,
    }
}

/// Whether a request is honoured: it asks for at most 131072 bytes of a
/// piece that is `Have`.
pub open spec fn request_honoured(map: PieceMap, index: u32, begin: u32, length: u32) -> bool {
    &&& length <= 131072
    &&& index < map.status@.len()
    &&& map.status@[index as int] == PieceStatus::Have
}

impl CurrentPiece {
    /// Whether the piece under way is consistent: some of its blocks are
    /// still to come.
    pub open spec fn wf(&self) -> bool {
        self.blocks_received < self.blocks_total
    }
}

impl PeerSession {
    /// Whether the session is consistent: it is not both fetching a piece
    /// and storing one, and the piece that it fetches is consistent.
    pub open spec fn wf(&self) -> bool {
        &&& self.current_piece is Some ==> self.storing is None && self.current_piece.unwrap().wf()
    }

    /// The piece that the session holds in the state `InProgress`: the one
    /// that it is fetching or the one that it is storing.
    pub open spec fn held(&self) -> Option<usize> {
        match self.current_piece {
            Some(c) => Some(c.index),
            None => self.storing,
        }
    }

    /// Whether the piece under way fits the map: it is a piece of the map,
    /// and its buffer has the length of that piece. A session without a piece
    /// under way fits every map. Only the number of pieces and the two
    /// lengths of the map count, which no session changes.
    pub open spec fn fits(&self, map: PieceMap) -> bool {
        match self.current_piece {
            Some(c) => c.index < map.status@.len() && c.buffer@.len() == map.spec_piece_len(
                c.index as int,
            ),
            None => true,
        }
    }

    /// Whether the session is consistent.
    pub fn is_consistent(&self) -> (r: bool)
        ensures
            r == self.wf(),
    {
        match &self.current_piece {
            Some(cur) => self.storing.is_none() && cur.blocks_received < cur.blocks_total,
            None => true,
        }
    }

    /// The session that starts on a connection after the handshake: no
    /// piece is under way, and the peer has named no extension.
    pub fn new(conn: PeerConnection) -> (s: PeerSession)
        ensures
            s.conn == conn,
            s.current_piece is None,
            s.storing is None,
            s.extensions == (ExtensionInfo { ut_pex: None, ut_metadata: None, metadata_size: None }),
            s.uploaded == 0,
            s.wf(),
            forall|map: PieceMap| #[trigger] s.fits(map),
    {
        PeerSession {
            conn,
            current_piece: None,
            storing: None,
            extensions: ExtensionInfo { ut_pex: None, ut_metadata: None, metadata_size: None },
            uploaded: 0,
        }
    }

    /// The messages that open a session: the bitfield of our pieces, where
    /// we have any, then `Interested`, then our extension handshake.
    pub fn entry_messages(map: &PieceMap) -> (out: Vec<Message>)
        ensures
            have_count(map.status@, map.status@.len() as int) > 0 ==> out@.len() == 3 && out@[0]
                is Bitfield && is_bitfield_of(out@[0]->Bitfield_0@, map.status@),
            have_count(map.status@, map.status@.len() as int) <= 0 ==> out@.len() == 2,
            out@[out@.len() - 2]@ == MessageView::Interested,
            out@[out@.len() - 1]@ == (MessageView::Extended {
                id: 0,
                payload: handshake_payload(Some(OUR_PEX_ID), Some(OUR_METADATA_ID)),
            }),
    {
        let mut out: Vec<Message> = Vec::new();
        let counts = map.snapshot_counts();
        if counts.0 > 0 {
            out.push(Message::Bitfield(map.bitfield()));
        }
        out.push(Message::Interested);
        out.push(
            Message::Extended {
                id: 0,
                payload: extension_handshake(Some(OUR_PEX_ID), Some(OUR_METADATA_ID)),
            },
        );
        out
    }
}

/// Whether `digest` is the digest of piece `index`: the map, of `count`
/// pieces, and the manifest have such a piece, and `digest` is the digest
/// that the manifest gives for it.
pub open spec fn digest_matches(index: int, digest: Seq<u8>, hashes: Seq<[u8; 20]>, count: int) -> bool {
    0 <= index < hashes.len() && index < count && digest == hashes[index]@
}

/// Whether `data` is piece `index`: the map has such a piece, and the
/// SHA-1 digest of `data` is the digest that the manifest gives for it.
pub open spec fn piece_verified(data: Seq<u8>, index: int, hashes: Seq<[u8; 20]>, count: int) -> bool {
    digest_matches(index, sha1_digest(data), hashes, count)
}

/// The requests for the blocks of piece `index`, a piece of `len` bytes, in
/// the order of their offsets.
pub fn block_requests(index: u32, len: u32) -> (out: Vec<Message>)
    ensures
        out@.len() == block_count(len as int),
        forall|b: int| 0 <= b < out@.len() ==> (#[trigger] out@[b])@ == block_request(index as int, len as int, b),
{
    let total: u32 = len / BLOCK_SIZE + if len % BLOCK_SIZE == 0 {
        0
    } else {
        1
    };
    let mut out: Vec<Message> = Vec::new();
    let mut b: u32 = 0;
    while b < total
        invariant
            b <= total,
            total == block_count(len as int),
            out@.len() == b,
            forall|j: int| 0 <= j < b ==> (#[trigger] out@[j])@ == block_request(index as int, len as int, j),
        decreases total - b,
    {
        let begin: u32 = b * BLOCK_SIZE;
        let length: u32 = if len - begin < BLOCK_SIZE {
            len - begin
        } else {
            BLOCK_SIZE
        };
        out.push(Message::Request { index, begin, length });
        b = b + 1;
    }
    out
}

impl PeerSession {
    /// Whether the session takes a block: it is fetching piece `index`, and
    /// the block of `len` bytes at `begin` lies within the piece.
    pub open spec fn accepts_block(&self, index: u32, begin: u32, len: int) -> bool {
        &&& self.current_piece is Some
        &&& self.current_piece.unwrap().index == index
        &&& begin + len <= self.current_piece.unwrap().buffer@.len()
    }

    /// Whether `r`, `after` and `map_after` are what handling a `Piece`
    /// message gives, for a session `self` and a map `map`.
    ///
    /// A block that is not taken changes nothing. A block that is taken is
    /// written into the piece and counted. With the last block the piece is
    /// held against its digest: where it matches, it is handed out for
    /// storing at `index * piece_length` and the session holds it; where it
    /// does not, it goes back to `Missing` and the connection is closed.
    pub open spec fn piece_handled(
        &self,
        map: PieceMap,
        index: u32,
        begin: u32,
        block: Seq<u8>,
        hashes: Seq<[u8; 20]>,
        r: Reaction,
        after: PeerSession,
        map_after: PieceMap,
    ) -> bool {
        &&& after.conn == self.conn
        &&& after.extensions == self.extensions
        &&& after.uploaded == self.uploaded
        &&& map_after.piece_length == map.piece_length
        &&& map_after.total_length == map.total_length
        &&& map_after.downloaded_bytes == map.downloaded_bytes
        &&& map_after.uploaded_bytes == map.uploaded_bytes
        &&& if !self.accepts_block(index, begin, block.len() as int) {
            &&& r is Nothing
            &&& after == *self
            &&& map_after == map
        } else {
            let cur = self.current_piece.unwrap();
            let data = with_block(cur.buffer@, begin as int, block);
            if cur.blocks_received + 1 != cur.blocks_total {
                &&& r is Nothing
                &&& map_after == map
                &&& after.storing == self.storing
                &&& after.current_piece is Some
                &&& after.current_piece.unwrap().index == index
                &&& after.current_piece.unwrap().buffer@ == data
                &&& after.current_piece.unwrap().blocks_total == cur.blocks_total
                &&& after.current_piece.unwrap().blocks_received == cur.blocks_received + 1
            } else if piece_verified(data, index as int, hashes, map.status@.len() as int) {
                &&& after.current_piece is None
                &&& r is Store
                &&& r->piece == index
                &&& r->Store_offset == index * map.piece_length
                &&& r->data@ == data
                &&& after.storing == Some(index as usize)
                &&& map_after == map
            } else {
                &&& after.current_piece is None
                &&& r is Close
                &&& after.storing is None
                &&& map_after.status@ == if index < map.status@.len() && map.status@[index as int]
                    == PieceStatus::InProgress {
                    map.status@.update(index as int, PieceStatus::Missing)
                } else {
                    map.status@
                }
            }
        }
    }

    /// Whether `r` and `after` are what handling an `Extended` message
    /// gives, for a session `self`.
    ///
    /// With id 0 the ids and the size that the handshake names are recorded.
    /// With the id that the peer gave to peer exchange, the endpoints that
    /// the message adds are handed out. Any other is dropped.
    pub open spec fn extended_handled(
        &self,
        id: u8,
        payload: Seq<u8>,
        r: Reaction,
        after: PeerSession,
    ) -> bool {
        &&& after.conn == self.conn
        &&& after.current_piece == self.current_piece
        &&& after.storing == self.storing
        &&& after.uploaded == self.uploaded
        &&& if id == 0 {
            &&& r is Nothing
            &&& after.extensions == merge_extensions(self.extensions, extension_info(payload))
        } else {
            &&& after.extensions == self.extensions
            &&& if self.extensions.ut_pex == Some(id) {
                match pex_added(payload) {
                    Some(peers) => r is Peers && r->Peers_0@ == peers,
                    None => r is Nothing,
                }
            } else {
                r is Nothing
            }
        }
    }

    /// What a `Request` message calls for: the block is served where the
    /// request is honoured, and dropped otherwise.
    pub open spec fn request_reaction(map: PieceMap, index: u32, begin: u32, length: u32) -> Reaction {
        if request_honoured(map, index, begin, length) {
            Reaction::Serve {
                index,
                begin,
                length,
                offset: (index * map.piece_length + begin) as u64,
            }
        } else {
            Reaction::Nothing
        }
    }

    /// Whether `r`, `after` and `map_after` are what recording a stored
    /// piece gives, for a session `self` and a map `map`.
    ///
    /// The piece that was handed out for storing goes from `InProgress` to
    /// `Have`, its length is added to `downloaded_bytes`, and the caller gets
    /// the `Have` message with whether every piece is now `Have`. Nothing
    /// happens where no piece was handed out.
    pub open spec fn stored_as(
        &self,
        map: PieceMap,
        r: Option<(Message, bool)>,
        after: PeerSession,
        map_after: PieceMap,
    ) -> bool {
        &&& after.conn == self.conn
        &&& after.extensions == self.extensions
        &&& after.uploaded == self.uploaded
        &&& after.current_piece == self.current_piece
        &&& after.storing is None
        &&& map_after.piece_length == map.piece_length
        &&& map_after.total_length == map.total_length
        &&& map_after.uploaded_bytes == map.uploaded_bytes
        &&& match self.storing {
            Some(i) => {
                &&& r is Some
                &&& r.unwrap().0@ == MessageView::Have(i as u32)
                &&& r.unwrap().1 == all_have(map_after.status@)
                &&& if i < map.status@.len() && map.status@[i as int] == PieceStatus::InProgress {
                    &&& map_after.status@ == map.status@.update(i as int, PieceStatus::Have)
                    &&& map_after.downloaded_bytes == map.downloaded_bytes + map.spec_piece_len(
                        i as int,
                    )
                } else {
                    &&& map_after.status@ == map.status@
                    &&& map_after.downloaded_bytes == map.downloaded_bytes
                }
            },
            None => r is None && map_after == map,
        }
    }

    /// Whether `after` and `map_after` are what giving back the piece that
    /// the session holds gives, for a session `self` and a map `map`: the
    /// piece goes from `InProgress` to `Missing`, and the session holds none.
    pub open spec fn aborted(&self, map: PieceMap, after: PeerSession, map_after: PieceMap) -> bool {
        &&& after.conn == self.conn
        &&& after.extensions == self.extensions
        &&& after.uploaded == self.uploaded
        &&& after.current_piece is None
        &&& after.storing is None
        &&& map_after.piece_length == map.piece_length
        &&& map_after.total_length == map.total_length
        &&& map_after.downloaded_bytes == map.downloaded_bytes
        &&& map_after.uploaded_bytes == map.uploaded_bytes
        &&& map_after.status@ == match self.held() {
            Some(i) => if i < map.status@.len() && map.status@[i as int]
                == PieceStatus::InProgress {
                map.status@.update(i as int, PieceStatus::Missing)
            } else {
                map.status@
            },
            None => map.status@,
        }
    }

    /// Whether `r`, `after` and `map_after` are what looking for a piece
    /// gives, for a session `self` and a map `map`.
    ///
    /// Nothing is done while the peer chokes us or the session holds a
    /// piece. Otherwise, where every piece is `Have`, the download is
    /// finished. Otherwise a piece that is `Missing` and that the peer has
    /// is claimed, a buffer of zero bytes of its length is set up, and the
    /// requests for its blocks come in the order of their offsets; nothing
    /// is done where the peer has no such piece.
    pub open spec fn selected(
        &self,
        map: PieceMap,
        r: Selection,
        after: PeerSession,
        map_after: PieceMap,
    ) -> bool {
        &&& after.conn == self.conn
        &&& after.extensions == self.extensions
        &&& after.uploaded == self.uploaded
        &&& after.storing == self.storing
        &&& map_after.piece_length == map.piece_length
        &&& map_after.total_length == map.total_length
        &&& map_after.downloaded_bytes == map.downloaded_bytes
        &&& map_after.uploaded_bytes == map.uploaded_bytes
        &&& if self.conn.peer_choking || self.held() is Some {
            &&& r is Idle
            &&& after == *self
            &&& map_after == map
        } else if all_have(map.status@) {
            &&& r is Finished
            &&& after == *self
            &&& map_after == map
        } else {
            match after.current_piece {
                Some(cur) => {
                    let len = map.spec_piece_len(cur.index as int);
                    &&& is_available(map.status@, self.conn.bitfield@, cur.index as int)
                    &&& map_after.status@ == map.status@.update(
                        cur.index as int,
                        PieceStatus::InProgress,
                    )
                    &&& cur.buffer@ == Seq::new(len as nat, |i: int| 0u8)
                    &&& cur.blocks_received == 0
                    &&& cur.blocks_total == block_count(len)
                    &&& r is Requests
                    &&& r->Requests_0@.len() == cur.blocks_total
                    &&& forall|b: int|
                        0 <= b < cur.blocks_total ==> (#[trigger] r->Requests_0@[b])@
                            == block_request(cur.index as int, len, b)
                },
                None => {
                    &&& r is Idle
                    &&& forall|i: int| !is_available(map.status@, self.conn.bitfield@, i)
                    &&& map_after.status@ == map.status@
                },
            }
        }
    }

    /// Handles a `Piece` message.
    ///
    /// A block is taken only where it belongs to the piece under way and
    /// lies within it; any other is dropped. A block that is taken is written
    /// into the piece and counted. With the last block the piece is held
    /// against its digest `hashes[index]`: where it matches, the caller gets
    /// it for storing at `index * piece_length`, and the session holds the
    /// piece until `stored` is called; where it does not, the piece goes back
    /// to `Missing` and the connection is to be closed.
    pub fn on_piece(
        &mut self,
        index: u32,
        begin: u32,
        block: &[u8],
        hashes: &Vec<[u8; 20]>,
        map: &mut PieceMap,
    ) -> (r: Reaction)
        requires
            old(self).wf(),
            old(map).wf(),
        ensures
            final(self).wf(),
            final(map).wf(),
            old(self).piece_handled(
                *old(map),
                index,
                begin,
                block@,
                hashes@,
                r,
                *final(self),
                *final(map),
            ),
            old(self).fits(*old(map)) ==> final(self).fits(*final(map)),
            old(self).fits(*old(map)) && r is Store ==> r->data@.len() == old(map).spec_piece_len(
                index as int,
            ),
    {
        let mut cur = match self.current_piece.take() {
            Some(cur) => cur,
            None => {
                return Reaction::Nothing;
            },
        };
        if cur.index != index as usize || block.len() > cur.buffer.len() || begin as usize
            > cur.buffer.len() - block.len() {
            self.current_piece = Some(cur);
            return Reaction::Nothing;
        }
        write_block(&mut cur.buffer, begin as usize, block);
        cur.blocks_received = cur.blocks_received + 1;
        if cur.blocks_received != cur.blocks_total {
            self.current_piece = Some(cur);
            return Reaction::Nothing;
        }
        let digest = info_hash(cur.buffer.as_slice());
        self.judge_piece(cur, &digest, hashes, map)
    }

    /// Holds a piece whose blocks have all come against the manifest, given
    /// the digest `digest` of its bytes.
    ///
    /// Where the map and the manifest have the piece and `digest` is the
    /// digest that the manifest gives for it, the caller gets the bytes for
    /// storing at `index * piece_length` and the session holds the piece as
    /// the one being stored. Otherwise the piece goes back to `Missing` and
    /// the connection is to be closed. Either way no piece is under way
    /// afterwards.
    pub fn judge_piece(
        &mut self,
        piece: CurrentPiece,
        digest: &[u8; 20],
        hashes: &Vec<[u8; 20]>,
        map: &mut PieceMap,
    ) -> (r: Reaction)
        requires
            old(map).wf(),
        ensures
            final(map).wf(),
            final(self).conn == old(self).conn,
            final(self).extensions == old(self).extensions,
            final(self).uploaded == old(self).uploaded,
            final(self).current_piece is None,
            final(map).piece_length == old(map).piece_length,
            final(map).total_length == old(map).total_length,
            final(map).downloaded_bytes == old(map).downloaded_bytes,
            final(map).uploaded_bytes == old(map).uploaded_bytes,
            if digest_matches(piece.index as int, digest@, hashes@, old(map).status@.len() as int) {
                &&& r is Store
                &&& r->piece == piece.index
                &&& r->Store_offset == piece.index * old(map).piece_length
                &&& r->data@ == piece.buffer@
                &&& final(self).storing == Some(piece.index)
                &&& *final(map) == *old(map)
            } else {
                &&& r is Close
                &&& final(self).storing == old(self).storing
                &&& final(map).status@ == if piece.index < old(map).status@.len() && old(
                    map,
                ).status@[piece.index as int] == PieceStatus::InProgress {
                    old(map).status@.update(piece.index as int, PieceStatus::Missing)
                } else {
                    old(map).status@
                }
            },
    {
        self.current_piece = None;
        let index = piece.index;
        if index < hashes.len() && index < map.status.len() && is_equal(
            digest.as_slice(),
            hashes[index].as_slice(),
        ) {
            let offset = map.piece_offset(index);
            self.storing = Some(index);
            Reaction::Store { piece: index, offset, data: piece.buffer }
        } else {
            map.release(index);
            Reaction::Close
        }
    }

    /// Records that the piece handed out for storing has been written: it
    /// goes from `InProgress` to `Have`, its length is added to
    /// `downloaded_bytes`, and the caller gets the `Have` message to send
    /// and whether every piece is now `Have`. Nothing happens where no piece
    /// was handed out.
    pub fn stored(&mut self, map: &mut PieceMap) -> (r: Option<(Message, bool)>)
        requires
            old(self).wf(),
            old(map).wf(),
        ensures
            final(self).wf(),
            final(map).wf(),
            old(self).stored_as(*old(map), r, *final(self), *final(map)),
            old(self).fits(*old(map)) ==> final(self).fits(*final(map)),
    {
        match self.storing.take() {
            Some(i) => {
                let done = map.complete(i);
                Some((Message::Have(i as u32), done))
            },
            None => None,
        }
    }

    /// Gives back the piece that the session holds, after a failure or a
    /// stop: the piece goes from `InProgress` to `Missing`, and the session
    /// holds none.
    pub fn abort(&mut self, map: &mut PieceMap)
        requires
            old(self).wf(),
            old(map).wf(),
        ensures
            final(self).wf(),
            final(map).wf(),
            old(self).aborted(*old(map), *final(self), *final(map)),
            final(self).fits(*final(map)),
    {
        match self.current_piece.take() {
            Some(cur) => {
                map.release(cur.index);
            },
            None => match self.storing.take() {
                Some(i) => {
                    map.release(i);
                },
                None => {},
            },
        }
        self.storing = None;
    }

    /// Handles a `Request` message: tells the caller to serve the block
    /// where the request asks for at most 131072 bytes of a piece that we
    /// have, at `index * piece_length + begin` of the content. Any other
    /// request is dropped.
    pub fn on_request(&self, index: u32, begin: u32, length: u32, map: &PieceMap) -> (r: Reaction)
        requires
            map.wf(),
        ensures
            r == Self::request_reaction(*map, index, begin, length),
    {
        if length > MAX_REQUEST {
            return Reaction::Nothing;
        }
        if !map.has(index as usize) {
            return Reaction::Nothing;
        }
        let base = map.piece_offset(index as usize);
        assert(index * map.piece_length <= 0xffff_ffff * 0xffff_ffff) by (nonlinear_arith)
            requires
                0 <= index <= 0xffff_ffff,
                0 <= map.piece_length <= 0xffff_ffff,
        ;
        Reaction::Serve { index, begin, length, offset: base + begin as u64 }
    }

    /// Records that `length` bytes have been served to the peer: they are
    /// added to the bytes uploaded, of the session and of the map.
    pub fn served(&mut self, length: u32, map: &mut PieceMap)
        requires
            old(map).wf(),
        ensures
            final(map).wf(),
            final(self).conn == old(self).conn,
            final(self).extensions == old(self).extensions,
            final(self).current_piece == old(self).current_piece,
            final(self).storing == old(self).storing,
            final(self).uploaded == if old(self).uploaded + length > u64::MAX {
                u64::MAX
            } else {
                (old(self).uploaded + length) as u64
            },
            final(map).status@ == old(map).status@,
            final(map).piece_length == old(map).piece_length,
            final(map).total_length == old(map).total_length,
            final(map).downloaded_bytes == old(map).downloaded_bytes,
            final(map).uploaded_bytes == if old(map).uploaded_bytes + length > u64::MAX {
                u64::MAX
            } else {
                (old(map).uploaded_bytes + length) as u64
            },
    {
        map.add_uploaded(length as u64);
        if length as u64 > u64::MAX - self.uploaded {
            self.uploaded = u64::MAX;
        } else {
            self.uploaded = self.uploaded + length as u64;
        }
    }

    /// Handles an `Extended` message.
    ///
    /// With id 0 it is the peer's extension handshake: the ids and the size
    /// that it names are recorded, each where it names one. With the id
    /// that the peer gave to peer exchange, the endpoints that it adds go
    /// to the caller. Any other is dropped.
    pub fn on_extended(&mut self, id: u8, payload: &[u8]) -> (r: Reaction)
        ensures
            old(self).extended_handled(id, payload@, r, *final(self)),
    {
        if id == 0 {
            let info = parse_extension_handshake(payload);
            self.extensions = ExtensionInfo {
                ut_pex: match info.ut_pex {
                    Some(x) => Some(x),
                    None => self.extensions.ut_pex,
                },
                ut_metadata: match info.ut_metadata {
                    Some(x) => Some(x),
                    None => self.extensions.ut_metadata,
                },
                metadata_size: match info.metadata_size {
                    Some(x) => Some(x),
                    None => self.extensions.metadata_size,
                },
            };
            return Reaction::Nothing;
        }
        let is_pex = match self.extensions.ut_pex {
            Some(pex) => pex == id,
            None => false,
        };
        if !is_pex {
            return Reaction::Nothing;
        }
        proof {
            reveal_strlit("added");
        }
        let mut pos: usize = 0;
        match decode(payload, &mut pos) {
            Ok(root) => match root.get(ascii_bytes("added").as_slice()) {
                Some(Bencode::Bytes(added)) => Reaction::Peers(parse_compact_peers(added.as_slice())),
                _ => Reaction::Nothing,
            },
            Err(_) => Reaction::Nothing,
        }
    }

    /// Looks for a piece to fetch.
    ///
    /// Nothing is done while the peer chokes us or the session holds a
    /// piece. Otherwise, where every piece is `Have`, the download is
    /// complete. Otherwise one of the pieces that are `Missing` and that the
    /// peer has is claimed at random, a buffer of its length is set up, and
    /// the caller gets the requests for its blocks, 16384 bytes each but for
    /// the last, in the order of their offsets.
    pub fn select(&mut self, map: &mut PieceMap, rng: &mut ThreadRng) -> (r: Selection)
        requires
            old(self).wf(),
            old(map).wf(),
        ensures
            final(self).wf(),
            final(map).wf(),
            old(self).selected(*old(map), r, *final(self), *final(map)),
            old(self).fits(*old(map)) ==> final(self).fits(*final(map)),
    {
        if self.conn.peer_choking || self.current_piece.is_some() || self.storing.is_some() {
            return Selection::Idle;
        }
        if map.is_complete() {
            return Selection::Finished;
        }
        let index = match map.claim_random_available(self.conn.bitfield.as_slice(), rng) {
            Some(index) => index,
            None => {
                return Selection::Idle;
            },
        };
        let len = map.piece_len(index);
        let requests = block_requests(index as u32, len as u32);
        self.current_piece = Some(
            CurrentPiece {
                index,
                buffer: zeros(len as usize),
                blocks_total: requests.len(),
                blocks_received: 0,
            },
        );
        Selection::Requests(requests)
    }

    /// Handles a message that was read from the peer: a block, a request or
    /// an extension message. The messages that only change what the
    /// connection knows of the peer have done so when they were read, and
    /// call for nothing more.
    pub fn on_message(&mut self, msg: &Message, hashes: &Vec<[u8; 20]>, map: &mut PieceMap) -> (r:
        Reaction)
        requires
            old(self).wf(),
            old(map).wf(),
        ensures
            final(self).wf(),
            final(map).wf(),
            match msg@ {
                MessageView::Piece { index, begin, block } => old(self).piece_handled(
                    *old(map),
                    index,
                    begin,
                    block,
                    hashes@,
                    r,
                    *final(self),
                    *final(map),
                ),
                MessageView::Request { index, begin, length } => {
                    &&& r == Self::request_reaction(*old(map), index, begin, length)
                    &&& *final(self) == *old(self)
                    &&& *final(map) == *old(map)
                },
                MessageView::Extended { id, payload } => {
                    &&& old(self).extended_handled(id, payload, r, *final(self))
                    &&& *final(map) == *old(map)
                },
                _ => {
                    &&& r is Nothing
                    &&& *final(self) == *old(self)
                    &&& *final(map) == *old(map)
                },
            },
            old(self).fits(*old(map)) ==> final(self).fits(*final(map)),
            old(self).fits(*old(map)) && r is Store ==> r->data@.len() == old(map).spec_piece_len(
                r->piece as int,
            ),
    {
        match msg {
            Message::Piece { index, begin, block } => self.on_piece(
                *index,
                *begin,
                block.as_slice(),
                hashes,
                map,
            ),
            Message::Request { index, begin, length } => self.on_request(*index, *begin, *length, map),
            Message::Extended { id, payload } => self.on_extended(*id, payload.as_slice()),
            _ => Reaction::Nothing,
        }
    }
}

/// The ids after a peer's extension handshake: each id that the handshake
/// names replaces the one recorded, and the others stay.
pub open spec fn merge_extensions(old: ExtensionInfo, new: ExtensionInfo) -> ExtensionInfo {
    ExtensionInfo {
        ut_pex: if new.ut_pex is Some {
            new.ut_pex
        } else {
            old.ut_pex
        },
        ut_metadata: if new.ut_metadata is Some {
            new.ut_metadata
        } else {
            old.ut_metadata
        },
        metadata_size: if new.metadata_size is Some {
            new.metadata_size
        } else {
            old.metadata_size
        },
    }
}

} // verus!
