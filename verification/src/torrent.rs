//! The manifest of a torrent, as its file gives it.
use vstd::prelude::*;
use crate::bencoding::bencode::{Bencode, Value, lemma_view_list, list_view};
use crate::bencoding::decoder::{decode, spec_decode};
use crate::bencoding::info_hash::{info_hash, sha1_digest};
use crate::bencoding::info_slice::{find_info_slice, spec_locate};
use crate::text::{ascii, ascii_bytes, lossy_string, utf8_lossy};

verus! {

/// One file of a torrent of several files.
#[derive(Debug)]
pub struct FileEntry {
    /// The length of the file in bytes.
    pub length: u64,
    /// The components of its path.
    pub path: Vec<String>,
}

/// The manifest of a torrent.
#[derive(Debug)]
pub struct Torrent {
    /// The URL of the first tracker.
    pub announce: String,
    /// The tiers of further trackers, where the manifest lists any.
    pub announce_list: Option<Vec<Vec<String>>>,
    /// The SHA-1 digest of the bytes that encode the `info` dictionary.
    pub info_hash: [u8; 20],
    /// The name of the content.
    pub name: String,
    /// The SHA-1 digest of each piece.
    pub pieces: Vec<[u8; 20]>,
    /// The length of every piece but the last.
    pub piece_length: u64,
    /// The length of the content, for a torrent of one file.
    pub length: Option<u64>,
    /// The files, for a torrent of several.
    pub files: Option<Vec<FileEntry>>,
}

/// Why a torrent file was refused.
#[derive(Debug, Clone, Copy, PartialEq, Eq, Structural)]
pub enum TorrentError {
    /// The file is no bencoded value.
    CodecInvalid,
    /// The file is no manifest: it is no dictionary, a required key is
    /// missing or of the wrong kind, the piece hashes are no multiple of 20
    /// bytes, or it gives neither a length nor files.
    ManifestInvalid,
}

/// The byte string bound to `key` in the dictionary `v`.
pub open spec fn bytes_at(v: Value, key: Seq<u8>) -> Option<Seq<u8>> {
    match v.lookup(key) {
        Some(Value::Bytes(b)) => Some(b),
        _ => None,
    }
}

/// The integer bound to `key` in the dictionary `v`.
pub open spec fn int_at(v: Value, key: Seq<u8>) -> Option<int> {
    match v.lookup(key) {
        Some(Value::Int(i)) => Some(i),
        _ => None,
    }
}

/// The byte strings of a list, in order; none where `v` is no list or one
/// of its items is no byte string.
pub open spec fn strings_of(v: Value) -> Option<Seq<Seq<u8>>> {
    match v {
        Value::List(items) => if forall|i: int| 0 <= i < items.len() ==> items[i] is Bytes {
            Some(Seq::new(items.len(), |i: int| items[i]->Bytes_0))
        } else {
            None
        },
        _ => None,
    }
}

/// The tiers of trackers that a list of lists of byte strings gives; none
/// where `v` is not of that form.
pub open spec fn tiers_of(v: Value) -> Option<Seq<Seq<Seq<u8>>>> {
    match v {
        Value::List(items) => if forall|i: int|
            0 <= i < items.len() ==> strings_of(items[i]) is Some {
            Some(Seq::new(items.len(), |i: int| strings_of(items[i]).unwrap()))
        } else {
            None
        },
        _ => None,
    }
}

/// The length and the path of a file that an entry of `files` gives; none
/// where the entry has no length from 0 to `u64::MAX` or no path of byte
/// strings.
pub open spec fn file_of(v: Value) -> Option<(int, Seq<Seq<u8>>)> {
    match (int_at(v, ascii("length")), v.lookup(ascii("path"))) {
        (Some(n), Some(p)) => if 0 <= n <= u64::MAX && strings_of(p) is Some {
            Some((n, strings_of(p).unwrap()))
        } else {
            None
        },
        _ => None,
    }
}

/// The files that a list of file entries gives; none where `v` is no list
/// or one of its items is no file entry.
pub open spec fn files_of(v: Value) -> Option<Seq<(int, Seq<Seq<u8>>)>> {
    match v {
        Value::List(items) => if forall|i: int| 0 <= i < items.len() ==> file_of(items[i]) is Some {
            Some(Seq::new(items.len(), |i: int| file_of(items[i]).unwrap()))
        } else {
            None
        },
        _ => None,
    }
}

/// Whether `strings` holds the text of each of the byte strings `bytes`.
pub open spec fn texts_match(strings: Seq<String>, bytes: Seq<Seq<u8>>) -> bool {
    strings.len() == bytes.len() && forall|i: int|
        0 <= i < strings.len() ==> (#[trigger] strings[i])@ == utf8_lossy(bytes[i])
}

/// Whether `tiers` holds the text of each URL of `bytes`, tier by tier.
pub open spec fn tiers_match(tiers: Seq<Vec<String>>, bytes: Seq<Seq<Seq<u8>>>) -> bool {
    tiers.len() == bytes.len() && forall|i: int|
        0 <= i < tiers.len() ==> texts_match((#[trigger] tiers[i])@, bytes[i])
}

/// Whether `files` holds the length and the path of each of `entries`.
pub open spec fn files_match(files: Seq<FileEntry>, entries: Seq<(int, Seq<Seq<u8>>)>) -> bool {
    files.len() == entries.len() && forall|i: int|
        0 <= i < files.len() ==> (#[trigger] files[i]).length == entries[i].0 && texts_match(
            files[i].path@,
            entries[i].1,
        )
}

/// Whether the `info` dictionary `info` is that of a manifest: it has a
/// name, a positive piece length that fits 64 bits, piece hashes of a
/// multiple of 20 bytes, and a length from 0 to `u64::MAX` or a list of
/// files.
pub open spec fn info_valid(info: Value) -> bool {
    &&& info is Dict
    &&& bytes_at(info, ascii("name")) is Some
    &&& int_at(info, ascii("piece length")) is Some
    &&& 0 < int_at(info, ascii("piece length")).unwrap() <= u64::MAX
    &&& bytes_at(info, ascii("pieces")) is Some
    &&& bytes_at(info, ascii("pieces")).unwrap().len() % 20 == 0
    &&& match info.lookup(ascii("length")) {
        Some(Value::Int(n)) => 0 <= n <= u64::MAX,
        Some(_) => false,
        None => match info.lookup(ascii("files")) {
            Some(f) => files_of(f) is Some,
            None => false,
        },
    }
}

/// Whether the value `root` is a manifest: a dictionary with an `announce`
/// URL and an `info` dictionary that is valid.
pub open spec fn manifest_valid(root: Value) -> bool {
    &&& root is Dict
    &&& bytes_at(root, ascii("announce")) is Some
    &&& root.lookup(ascii("info")) is Some
    &&& info_valid(root.lookup(ascii("info")).unwrap())
}

impl Torrent {
    /// Whether the torrent holds what the manifest `root` says, and
    /// `info_hash` as its info hash.
    pub open spec fn holds(&self, root: Value, info_hash: Seq<u8>) -> bool {
        let info = root.lookup(ascii("info")).unwrap();
        let pieces = bytes_at(info, ascii("pieces")).unwrap();
        &&& self.announce@ == utf8_lossy(bytes_at(root, ascii("announce")).unwrap())
        &&& match root.lookup(ascii("announce-list")) {
            Some(v) => match tiers_of(v) {
                Some(tiers) => self.announce_list is Some && tiers_match(
                    self.announce_list.unwrap()@,
                    tiers,
                ),
                None => self.announce_list is None,
            },
            None => self.announce_list is None,
        }
        &&& self.info_hash@ == info_hash
        &&& self.name@ == utf8_lossy(bytes_at(info, ascii("name")).unwrap())
        &&& self.piece_length == int_at(info, ascii("piece length")).unwrap()
        &&& self.pieces@.len() == pieces.len() / 20
        &&& forall|i: int|
            0 <= i < self.pieces@.len() ==> (#[trigger] self.pieces@[i])@ == pieces.subrange(
                20 * i,
                20 * i + 20,
            )
        &&& match info.lookup(ascii("length")) {
            Some(Value::Int(n)) => self.length == Some(n as u64) && self.files is None,
            _ => self.length is None && self.files is Some && files_match(
                self.files.unwrap()@,
                files_of(info.lookup(ascii("files")).unwrap()).unwrap(),
            ),
        }
    }
}

/// The lengths of the files below `n`, added up.
pub open spec fn files_length(files: Seq<FileEntry>, n: int) -> int
    decreases n,
{
    if n <= 0 {
        0
    } else {
        files_length(files, n - 1) + files[n - 1].length
    }
}

impl Torrent {
    /// The length of the content: the length that the manifest gives, or
    /// the sum of the lengths of its files, or 0 where it gives neither. A
    /// sum that 64 bits do not hold counts as `u64::MAX`.
    pub open spec fn spec_total_length(&self) -> int {
        match self.length {
            Some(n) => n as int,
            None => match self.files {
                Some(files) => if files_length(files@, files@.len() as int) > u64::MAX {
                    u64::MAX as int
                } else {
                    files_length(files@, files@.len() as int)
                },
                None => 0,
            },
        }
    }

    /// The length of the content.
    pub fn total_length(&self) -> (total: u64)
        ensures
            total == self.spec_total_length(),
    {
        match &self.length {
            Some(n) => *n,
            None => match &self.files {
                Some(files) => {
                    let mut sum: u64 = 0;
                    let mut i: usize = 0;
                    while i < files.len()
                        invariant
                            i <= files@.len(),
                            sum == if files_length(files@, i as int) > u64::MAX {
                                u64::MAX as int
                            } else {
                                files_length(files@, i as int)
                            },
                            files_length(files@, i as int) >= 0,
                        decreases files@.len() - i,
                    {
                        let n = files[i].length;
                        if n > u64::MAX - sum {
                            sum = u64::MAX;
                        } else {
                            sum = sum + n;
                        }
                        i = i + 1;
                    }
                    sum
                },
                None => 0,
            },
        }
    }
}

/// What reading `input` as a torrent file gives: the manifest that it
/// encodes with the digest of the bytes of its `info` dictionary, or why it
/// is refused.
pub open spec fn spec_parse_torrent(input: Seq<u8>) -> Result<(Value, Seq<u8>), TorrentError> {
    match spec_decode(input, 0) {
        Err(_) => Err(TorrentError::CodecInvalid),
        Ok((root, _)) => match spec_locate(input, ascii("info")) {
            Err(_) => Err(TorrentError::ManifestInvalid),
            Ok((from, to)) => if manifest_valid(root) {
                Ok((root, sha1_digest(input.subrange(from, to))))
            } else {
                Err(TorrentError::ManifestInvalid)
            },
        },
    }
}

/// The text of each byte string of the list `v`.
fn read_strings(v: &Bencode) -> (r: Option<Vec<String>>)
    ensures
        match strings_of(v@) {
            Some(bytes) => r is Some && texts_match(r.unwrap()@, bytes),
            None => r is None,
        },
{
    match v {
        Bencode::List(items) => {
            proof {
                lemma_view_list(*items);
            }
            let ghost views = list_view(items@);
            let mut out: Vec<String> = Vec::new();
            let mut i: usize = 0;
            while i < items.len()
                invariant
                    i <= items@.len(),
                    views == list_view(items@),
                    v@ == Value::List(views),
                    out@.len() == i,
                    forall|j: int| 0 <= j < i ==> views[j] is Bytes,
                    forall|j: int|
                        0 <= j < i ==> (#[trigger] out@[j])@ == utf8_lossy(views[j]->Bytes_0),
                decreases items@.len() - i,
            {
                match &items[i] {
                    Bencode::Bytes(b) => {
                        out.push(lossy_string(b.as_slice()));
                    },
                    _ => {
                        assert(!(views[i as int] is Bytes));
                        return None;
                    },
                }
                i = i + 1;
            }
            Some(out)
        },
        _ => None,
    }
}

/// The tiers of trackers that the list of lists `v` gives.
fn read_tiers(v: &Bencode) -> (r: Option<Vec<Vec<String>>>)
    ensures
        match tiers_of(v@) {
            Some(tiers) => r is Some && tiers_match(r.unwrap()@, tiers),
            None => r is None,
        },
{
    match v {
        Bencode::List(items) => {
            proof {
                lemma_view_list(*items);
            }
            let ghost views = list_view(items@);
            let mut out: Vec<Vec<String>> = Vec::new();
            let mut i: usize = 0;
            while i < items.len()
                invariant
                    i <= items@.len(),
                    views == list_view(items@),
                    v@ == Value::List(views),
                    out@.len() == i,
                    forall|j: int| 0 <= j < i ==> strings_of(views[j]) is Some,
                    forall|j: int|
                        0 <= j < i ==> texts_match(
                            (#[trigger] out@[j])@,
                            strings_of(views[j]).unwrap(),
                        ),
                decreases items@.len() - i,
            {
                match read_strings(&items[i]) {
                    Some(tier) => {
                        out.push(tier);
                    },
                    None => {
                        assert(strings_of(views[i as int]) is None);
                        return None;
                    },
                }
                i = i + 1;
            }
            Some(out)
        },
        _ => None,
    }
}

/// The files that the list of file entries `v` gives.
fn read_files(v: &Bencode) -> (r: Option<Vec<FileEntry>>)
    ensures
        match files_of(v@) {
            Some(entries) => r is Some && files_match(r.unwrap()@, entries),
            None => r is None,
        },
{
    proof {
        reveal_strlit("length");
        reveal_strlit("path");
    }
    match v {
        Bencode::List(items) => {
            proof {
                lemma_view_list(*items);
            }
            let ghost views = list_view(items@);
            let key_length = ascii_bytes("length");
            let key_path = ascii_bytes("path");
            let mut out: Vec<FileEntry> = Vec::new();
            let mut i: usize = 0;
            while i < items.len()
                invariant
                    i <= items@.len(),
                    views == list_view(items@),
                    v@ == Value::List(views),
                    key_length@ == ascii("length"),
                    key_path@ == ascii("path"),
                    out@.len() == i,
                    forall|j: int| 0 <= j < i ==> file_of(views[j]) is Some,
                    forall|j: int|
                        0 <= j < i ==> (#[trigger] out@[j]).length == file_of(views[j]).unwrap().0
                            && texts_match(out@[j].path@, file_of(views[j]).unwrap().1),
                decreases items@.len() - i,
            {
                let item = &items[i];
                assert(item@ == views[i as int]);
                let length: u64 = match item.get(key_length.as_slice()) {
                    Some(Bencode::Int(n)) => {
                        if *n < 0 {
                            assert(file_of(views[i as int]) is None);
                            return None;
                        }
                        *n as u64
                    },
                    _ => {
                        assert(file_of(views[i as int]) is None);
                        return None;
                    },
                };
                let path = match item.get(key_path.as_slice()) {
                    Some(p) => match read_strings(p) {
                        Some(path) => path,
                        None => {
                            assert(file_of(views[i as int]) is None);
                            return None;
                        },
                    },
                    None => {
                        assert(file_of(views[i as int]) is None);
                        return None;
                    },
                };
                out.push(FileEntry { length, path });
                i = i + 1;
            }
            Some(out)
        },
        _ => None,
    }
}

/// The digests of the pieces: each run of 20 bytes of `bytes`.
fn read_pieces(bytes: &[u8]) -> (r: Vec<[u8; 20]>)
    requires
        bytes@.len() % 20 == 0,
    ensures
        r@.len() == bytes@.len() / 20,
        forall|i: int|
            0 <= i < r@.len() ==> (#[trigger] r@[i])@ == bytes@.subrange(20 * i, 20 * i + 20),
{
    let count = bytes.len() / 20;
    assert(20 * count == bytes@.len());
    let mut out: Vec<[u8; 20]> = Vec::new();
    let mut i: usize = 0;
    while i < count
        invariant
            i <= count,
            count == bytes@.len() / 20,
            20 * count == bytes@.len(),
            bytes@.len() <= usize::MAX,
            out@.len() == i,
            forall|j: int|
                0 <= j < i ==> (#[trigger] out@[j])@ == bytes@.subrange(20 * j, 20 * j + 20),
        decreases count - i,
    {
        let mut digest: [u8; 20] = [0u8; 20];
        let mut k: usize = 0;
        while k < 20
            invariant
                k <= 20,
                i < count,
                20 * count == bytes@.len(),
                bytes@.len() <= usize::MAX,
                forall|j: int| 0 <= j < k ==> digest@[j] == bytes@[20 * i + j],
            decreases 20 - k,
        {
            digest[k] = bytes[20 * i + k];
            k = k + 1;
        }
        assert(digest@ =~= bytes@.subrange(20 * i, 20 * i + 20));
        out.push(digest);
        i = i + 1;
    }
    out
}

/// Reads a torrent file.
///
/// The file must encode a dictionary with an `announce` URL and an `info`
/// dictionary; the `info` dictionary must hold a `name`, a positive
/// `piece length`, the `pieces` digests as a byte string of a multiple of 20
/// bytes, and a `length` or a list of `files`. The info hash is the SHA-1
/// digest of the bytes of the `info` dictionary exactly as they stand in the
/// file.
pub fn parse_torrent(input: &[u8]) -> (r: Result<Torrent, TorrentError>)
    ensures
        match spec_parse_torrent(input@) {
            Ok((root, hash)) => r is Ok && r.unwrap().holds(root, hash),
            Err(e) => r == Err::<Torrent, TorrentError>(e),
        },
{
    proof {
        reveal_strlit("announce");
        reveal_strlit("announce-list");
        reveal_strlit("info");
        reveal_strlit("name");
        reveal_strlit("piece length");
        reveal_strlit("pieces");
        reveal_strlit("length");
        reveal_strlit("files");
    }
    let mut pos: usize = 0;
    let root = match decode(input, &mut pos) {
        Ok(root) => root,
        Err(_) => {
            return Err(TorrentError::CodecInvalid);
        },
    };
    let info_bytes = match find_info_slice(input) {
        Ok(bytes) => bytes,
        Err(_) => {
            return Err(TorrentError::ManifestInvalid);
        },
    };
    let hash = info_hash(info_bytes);
    let announce = match root.get(ascii_bytes("announce").as_slice()) {
        Some(Bencode::Bytes(b)) => lossy_string(b.as_slice()),
        _ => {
            return Err(TorrentError::ManifestInvalid);
        },
    };
    let announce_list = match root.get(ascii_bytes("announce-list").as_slice()) {
        Some(v) => read_tiers(v),
        None => None,
    };
    let info = match root.get(ascii_bytes("info").as_slice()) {
        Some(info) => info,
        None => {
            return Err(TorrentError::ManifestInvalid);
        },
    };
    match info {
        Bencode::Dict(_) => {},
        _ => {
            return Err(TorrentError::ManifestInvalid);
        },
    }
    let name = match info.get(ascii_bytes("name").as_slice()) {
        Some(Bencode::Bytes(b)) => lossy_string(b.as_slice()),
        _ => {
            return Err(TorrentError::ManifestInvalid);
        },
    };
    let piece_length: u64 = match info.get(ascii_bytes("piece length").as_slice()) {
        Some(Bencode::Int(n)) => {
            if *n <= 0 {
                return Err(TorrentError::ManifestInvalid);
            }
            *n as u64
        },
        _ => {
            return Err(TorrentError::ManifestInvalid);
        },
    };
    let pieces = match info.get(ascii_bytes("pieces").as_slice()) {
        Some(Bencode::Bytes(b)) => {
            if b.len() % 20 != 0 {
                return Err(TorrentError::ManifestInvalid);
            }
            read_pieces(b.as_slice())
        },
        _ => {
            return Err(TorrentError::ManifestInvalid);
        },
    };
    let (length, files) = match info.get(ascii_bytes("length").as_slice()) {
        Some(Bencode::Int(n)) => {
            if *n < 0 {
                return Err(TorrentError::ManifestInvalid);
            }
            (Some(*n as u64), None)
        },
        Some(_) => {
            return Err(TorrentError::ManifestInvalid);
        },
        None => match info.get(ascii_bytes("files").as_slice()) {
            Some(f) => match read_files(f) {
                Some(files) => (None, Some(files)),
                None => {
                    return Err(TorrentError::ManifestInvalid);
                },
            },
            None => {
                return Err(TorrentError::ManifestInvalid);
            },
        },
    };
    Ok(Torrent { announce, announce_list, info_hash: hash, name, pieces, piece_length, length, files })
}

} // verus!
