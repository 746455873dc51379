use vstd::prelude::*;
use rand::rngs::ThreadRng;
use super::piece_map::{PieceMap, layout_ok, piece_len};
use super::state::{Downloader, PieceStatus};
use crate::bencoding::info_hash::{info_hash, sha1_digest};
use crate::lex_order::is_equal;
use crate::random::random_bytes;
use crate::storage::Storage;
use crate::text::{ascii, ascii_bytes};
use crate::torrent::{Torrent, TorrentError, parse_torrent, spec_parse_torrent};

verus! {

/// The peer id made of the random bytes `random`: the first eight bytes
/// are the tag of this client, `-TD0001-`, the other twelve are those of
/// `random`.
pub fn make_peer_id(random: [u8; 20]) -> (id: [u8; 20])
    ensures
        id@.subrange(0, 8) == ascii("-TD0001-"),
        id@.subrange(8, 20) == random@.subrange(8, 20),
{
    proof {
        reveal_strlit("-TD0001-");
    }
    let tag = ascii_bytes("-TD0001-");
    let mut id = random;
    let mut i: usize = 0;
    while i < 8
        invariant
            i <= 8,
            tag@ == ascii("-TD0001-"),
            tag@.len() == 8,
            forall|j: int| 0 <= j < i ==> id@[j] == tag@[j],
            forall|j: int| 8 <= j < 20 ==> id@[j] == random@[j],
        decreases 8 - i,
    {
        id[i] = tag[i];
        i = i + 1;
    }
    assert(id@.subrange(0, 8) =~= ascii("-TD0001-"));
    assert(id@.subrange(8, 20) =~= random@.subrange(8, 20));
    id
}

/// Whether `r` is what setting up the download of `torrent` gives: a
/// download of that torrent with a peer id that starts with the tag of this
/// client, the length of the content, and a consistent map of its pieces,
/// all `Missing`, with both counters at zero; or the refusal of a manifest
/// whose pieces do not lay out its content.
pub open spec fn set_up(torrent: Torrent, r: Result<Downloader, TorrentError>) -> bool {
    match r {
        Ok(d) => {
            &&& layout_ok(
                torrent.pieces@.len() as int,
                torrent.piece_length as int,
                torrent.spec_total_length(),
            )
            &&& d.wf()
            &&& d.torrent == torrent
            &&& d.peer_id@.subrange(0, 8) == ascii("-TD0001-")
            &&& d.total_length == torrent.spec_total_length()
            &&& forall|i: int|
                0 <= i < d.pieces.status@.len() ==> d.pieces.status@[i] == PieceStatus::Missing
            &&& d.pieces.downloaded_bytes == 0
            &&& d.pieces.uploaded_bytes == 0
        },
        Err(e) => e == TorrentError::ManifestInvalid && !layout_ok(
            torrent.pieces@.len() as int,
            torrent.piece_length as int,
            torrent.spec_total_length(),
        ),
    }
}

/// Sets up the download of `torrent` into `storage`: a fresh peer id, the
/// length of the content, and a map of its pieces, all `Missing`.
///
/// The manifest is refused where its pieces do not lay out its content:
/// the digests must be as many as pieces of `piece_length` bytes are needed
/// for the content, the last piece holding at least one byte.
pub fn from_torrent(torrent: Torrent, storage: Storage, rng: &mut ThreadRng) -> (r: Result<
    Downloader,
    TorrentError,
>)
    ensures
        set_up(torrent, r),
{
    let peer_id = make_peer_id(random_bytes(rng));
    let total_length = torrent.total_length();
    match PieceMap::new(torrent.pieces.len(), torrent.piece_length, total_length) {
        Some(pieces) => Ok(Downloader { torrent, peer_id, storage, pieces, total_length }),
        None => Err(TorrentError::ManifestInvalid),
    }
}

impl Downloader {
    /// Sets up the download of `torrent` into `storage`.
    pub fn from_torrent(torrent: Torrent, storage: Storage, rng: &mut ThreadRng) -> (r: Result<
        Downloader,
        TorrentError,
    >)
        ensures
            set_up(torrent, r),
    {
        from_torrent(torrent, storage, rng)
    }

    /// Sets up the download of the torrent file `input` into `storage`: the
    /// file is read as a manifest, and the download of that manifest is set
    /// up. A file that is no manifest is refused with the error of the
    /// reading.
    pub fn new(input: &[u8], storage: Storage, rng: &mut ThreadRng) -> (r: Result<
        Downloader,
        TorrentError,
    >)
        ensures
            match spec_parse_torrent(input@) {
                Ok((root, hash)) => exists|t: Torrent| #[trigger] t.holds(root, hash) && set_up(t, r),
                Err(e) => r == Err::<Downloader, TorrentError>(e),
            },
    {
        match parse_torrent(input) {
            Ok(torrent) => {
                let ghost t = torrent;
                let r = from_torrent(torrent, storage, rng);
                proof {
                    let said = spec_parse_torrent(input@);
                    assert(t.holds(said->Ok_0.0, said->Ok_0.1) && set_up(t, r));
                }
                r
            },
            Err(e) => Err(e),
        }
    }

    /// Whether the download is consistent: the map of its pieces is, and it
    /// has one piece for each digest of the manifest, of the manifest's piece
    /// length, for a content of `total_length` bytes.
    pub open spec fn wf(&self) -> bool {
        &&& self.pieces.wf()
        &&& self.pieces.status@.len() == self.torrent.pieces@.len()
        &&& self.pieces.piece_length == self.torrent.piece_length
        &&& self.pieces.total_length == self.total_length
    }

    /// Whether the download is consistent.
    pub fn is_consistent(&self) -> (r: bool)
        ensures
            r == self.wf(),
    {
        self.pieces.is_consistent() && self.pieces.status.len() == self.torrent.pieces.len()
            && self.pieces.piece_length == self.torrent.piece_length && self.pieces.total_length
            == self.total_length
    }

    /// Whether `data` is piece `index` as the manifest gives it: of the
    /// length of that piece, and with its digest.
    pub open spec fn is_piece(&self, index: int, data: Seq<u8>) -> bool {
        &&& 0 <= index < self.pieces.status@.len()
        &&& data.len() == self.pieces.spec_piece_len(index)
        &&& sha1_digest(data) == self.torrent.pieces@[index]@
    }

    /// The name of the file that holds the content: the name that the
    /// manifest gives, or `output.bin` for a torrent of several files.
    pub fn file_name(&self) -> (name: String)
        ensures
            name@ == if self.torrent.length is None {
                "output.bin"@
            } else {
                self.torrent.name@
            },
    {
        if self.torrent.length.is_none() {
            "output.bin".to_owned()
        } else {
            self.torrent.name.clone()
        }
    }

    /// Where piece `index` lies in a file of `file_len` bytes: its offset
    /// and its length, where the file holds all of it.
    pub fn existing_range(&self, index: usize, file_len: u64) -> (r: Option<(u64, u64)>)
        requires
            self.wf(),
        ensures
            match r {
                Some((offset, len)) => {
                    &&& index < self.pieces.status@.len()
                    &&& offset == index * self.torrent.piece_length
                    &&& len == self.pieces.spec_piece_len(index as int)
                    &&& offset + len <= file_len
                },
                None => index >= self.pieces.status@.len() || index * self.torrent.piece_length
                    + self.pieces.spec_piece_len(index as int) > file_len,
            },
    {
        if index >= self.pieces.status.len() {
            return None;
        }
        let offset = self.pieces.piece_offset(index);
        let len = self.pieces.piece_len(index);
        if offset + len <= file_len {
            Some((offset, len))
        } else {
            None
        }
    }

    /// Holds the bytes `data`, read from the file at the place of piece
    /// `index`, against the manifest: where they are that piece, and the
    /// piece is `Missing`, it becomes a `Have` and its length is added to
    /// `downloaded_bytes`. Returns whether the bytes are that piece.
    pub fn check_piece(&mut self, index: usize, data: &[u8]) -> (r: bool)
        requires
            old(self).wf(),
        ensures
            final(self).wf(),
            final(self).torrent == old(self).torrent,
            final(self).peer_id == old(self).peer_id,
            final(self).total_length == old(self).total_length,
            final(self).pieces.uploaded_bytes == old(self).pieces.uploaded_bytes,
            r == old(self).is_piece(index as int, data@),
            r && old(self).pieces.status@[index as int] == PieceStatus::Missing ==> {
                &&& final(self).pieces.status@ == old(self).pieces.status@.update(
                    index as int,
                    PieceStatus::Have,
                )
                &&& final(self).pieces.downloaded_bytes == old(self).pieces.downloaded_bytes
                    + data@.len()
            },
            !(r && old(self).pieces.status@[index as int] == PieceStatus::Missing) ==> {
                &&& final(self).pieces.status@ == old(self).pieces.status@
                &&& final(self).pieces.downloaded_bytes == old(self).pieces.downloaded_bytes
            },
    {
        let digest = info_hash(data);
        self.accept_piece(index, data.len(), &digest)
    }

    /// Takes up a piece that was read from the file at the place of piece
    /// `index`, given the number `length` of its bytes and their digest
    /// `digest`: where the download has such a piece, of that length and with
    /// that digest, and the piece is `Missing`, it becomes a `Have` and its
    /// length is added to `downloaded_bytes`. Returns whether the length and
    /// the digest are those of the piece.
    pub fn accept_piece(&mut self, index: usize, length: usize, digest: &[u8; 20]) -> (r: bool)
        requires
            old(self).wf(),
        ensures
            final(self).wf(),
            final(self).torrent == old(self).torrent,
            final(self).peer_id == old(self).peer_id,
            final(self).total_length == old(self).total_length,
            final(self).pieces.uploaded_bytes == old(self).pieces.uploaded_bytes,
            r == (index < old(self).pieces.status@.len() && length == old(
                self,
            ).pieces.spec_piece_len(index as int) && digest@ == old(
                self,
            ).torrent.pieces@[index as int]@),
            r && old(self).pieces.status@[index as int] == PieceStatus::Missing ==> {
                &&& final(self).pieces.status@ == old(self).pieces.status@.update(
                    index as int,
                    PieceStatus::Have,
                )
                &&& final(self).pieces.downloaded_bytes == old(self).pieces.downloaded_bytes
                    + length
            },
            !(r && old(self).pieces.status@[index as int] == PieceStatus::Missing) ==> {
                &&& final(self).pieces.status@ == old(self).pieces.status@
                &&& final(self).pieces.downloaded_bytes == old(self).pieces.downloaded_bytes
            },
    {
        if index >= self.pieces.status.len() {
            return false;
        }
        let len = self.pieces.piece_len(index);
        if length as u64 != len {
            return false;
        }
        if !is_equal(digest.as_slice(), self.torrent.pieces[index].as_slice()) {
            return false;
        }
        self.pieces.mark_existing(index);
        true
    }

    /// Looks through `content`, what the file of the download holds, for
    /// pieces that are already there: each piece that is `Missing`, lies
    /// within `content` and has the digest of the manifest becomes a `Have`,
    /// and every other piece stays as it is.
    pub fn check_existing_data(&mut self, content: &[u8])
        requires
            old(self).wf(),
        ensures
            final(self).wf(),
            final(self).torrent == old(self).torrent,
            final(self).peer_id == old(self).peer_id,
            final(self).total_length == old(self).total_length,
            final(self).pieces.uploaded_bytes == old(self).pieces.uploaded_bytes,
            final(self).pieces.status@.len() == old(self).pieces.status@.len(),
            forall|i: int|
                0 <= i < final(self).pieces.status@.len() ==> #[trigger] final(self).pieces.status@[i] == if old(
                    self,
                ).pieces.status@[i] == PieceStatus::Missing && old(self).found_in(i, content@) {
                    PieceStatus::Have
                } else {
                    old(self).pieces.status@[i]
                },
    {
        let count = self.pieces.status.len();
        let file_len = content.len() as u64;
        let mut i: usize = 0;
        while i < count
            invariant
                i <= count,
                file_len == content@.len(),
                content@.len() <= usize::MAX,
                self.wf(),
                count == self.pieces.status@.len(),
                self.torrent == old(self).torrent,
                self.peer_id == old(self).peer_id,
                self.total_length == old(self).total_length,
                self.pieces.uploaded_bytes == old(self).pieces.uploaded_bytes,
                forall|j: int|
                    0 <= j < i ==> #[trigger] self.pieces.status@[j] == if old(self).pieces.status@[j]
                        == PieceStatus::Missing && old(self).found_in(j, content@) {
                        PieceStatus::Have
                    } else {
                        old(self).pieces.status@[j]
                    },
                forall|j: int| i <= j < count ==> #[trigger] self.pieces.status@[j] == old(self).pieces.status@[j],
                self.pieces.piece_length == old(self).pieces.piece_length,
                self.pieces.total_length == old(self).pieces.total_length,
                old(self).pieces.status@.len() == count,
            decreases count - i,
        {
            match self.existing_range(i, file_len) {
                Some((offset, len)) => {
                    let data = vstd::slice::slice_subrange(
                        content,
                        offset as usize,
                        (offset + len) as usize,
                    );
                    self.check_piece(i, data);
                },
                None => {},
            }
            i = i + 1;
        }
    }

    /// Whether piece `index` is found in `content`: it lies within it, and
    /// its bytes there have the digest of the manifest.
    pub open spec fn found_in(&self, index: int, content: Seq<u8>) -> bool {
        let offset = index * self.torrent.piece_length;
        let len = self.pieces.spec_piece_len(index);
        offset + len <= content.len() && sha1_digest(content.subrange(offset, offset + len))
            == self.torrent.pieces@[index]@
    }
}

} // verus!
