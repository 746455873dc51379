//! Magnet links: the info hash and the trackers that one names.
use hex::FromHexError;
use vstd::prelude::*;
use vstd::string::StringSliceAdditionalSpecFns;
use vstd::utf8::encode_utf8;
use crate::text::{ascii, ascii_bytes, has_prefix, starts_with, texts_of};
use crate::lex_order::is_equal;
use crate::url_parts::{ParsedUrl, pairs_view, parse_url, url_parses, url_query_pairs, url_scheme};

verus! {

/// Why the `hex` crate refused a string.
#[verifier::external_type_specification]
#[verifier::external_body]
pub struct ExFromHexError(FromHexError);

/// Why a magnet link was refused.
#[derive(Debug, Clone, Copy, PartialEq, Eq, Structural)]
pub enum MagnetError {
    /// The link is no URL.
    InvalidUrl,
    /// The scheme of the URL is not `magnet`.
    NotMagnet,
    /// The info hash has 40 characters that are not all hexadecimal digits.
    InvalidHex,
    /// The info hash has 32 characters, the base32 form.
    UnsupportedHashEncoding,
    /// The link names no info hash of 40 characters.
    MissingInfoHash,
}

/// The value of a hexadecimal digit, in either case.
pub open spec fn hex_val(c: u8) -> Option<u8> {
    if 0x30 <= c <= 0x39 {
        Some((c - 0x30) as u8)
    } else if 0x41 <= c <= 0x46 {
        Some((c - 0x41 + 10) as u8)
    } else if 0x61 <= c <= 0x66 {
        Some((c - 0x61 + 10) as u8)
    } else {
        None
    }
}

/// The 20 bytes that 40 hexadecimal digits denote, two digits for each
/// byte, the first of the two being the upper half; none where `s` is not
/// 40 hexadecimal digits.
pub open spec fn hex_hash(s: Seq<u8>) -> Option<Seq<u8>> {
    if s.len() == 40 && forall|i: int| 0 <= i < 40 ==> hex_val(#[trigger] s[i]) is Some {
        Some(
            Seq::new(
                20,
                |i: int| (hex_val(s[2 * i]).unwrap() * 16 + hex_val(s[2 * i + 1]).unwrap()) as u8,
            ),
        )
    } else {
        None
    }
}

/// The 20 bytes that the hexadecimal digits `h` denote, by
/// `hex::decode_to_slice` into an array of 20 bytes.
///
/// The call accepts exactly the strings of 40 hexadecimal digits, in either
/// case, and makes each byte of two digits, the first being its upper half.
#[verifier::external_body]
fn decode_hex_hash(h: &[u8]) -> (r: Result<[u8; 20], FromHexError>)
    ensures
        match hex_hash(h@) {
            Some(bytes) => r is Ok && r.unwrap()@ == bytes,
            None => r is Err,
        },
{
    let mut hash = [0u8; 20];
    hex::decode_to_slice(h, &mut hash)?;
    Ok(hash)
}

/// What has been gathered from the pairs of a magnet link: the info hash
/// that the last `xt` of the right form gave, and the trackers that the
/// `tr` gave so far.
pub type Gathered = (Option<Seq<u8>>, Seq<Seq<char>>);

/// What one pair of the query adds to what has been gathered.
///
/// An `xt` whose value starts with `urn:btih:` gives the info hash where 40
/// characters follow, which must be hexadecimal digits; it is refused where
/// 32 follow, and passed over otherwise. A `tr` gives a tracker. Any other
/// pair is passed over.
pub open spec fn magnet_step(acc: Gathered, name: Seq<char>, value: Seq<char>) -> Result<
    Gathered,
    MagnetError,
> {
    let v = encode_utf8(value);
    if encode_utf8(name) == ascii("xt") {
        if has_prefix(v, ascii("urn:btih:")) {
            let h = v.subrange(9, v.len() as int);
            if h.len() == 40 {
                match hex_hash(h) {
                    Some(hash) => Ok((Some(hash), acc.1)),
                    None => Err(MagnetError::InvalidHex),
                }
            } else if h.len() == 32 {
                Err(MagnetError::UnsupportedHashEncoding)
            } else {
                Ok(acc)
            }
        } else {
            Ok(acc)
        }
    } else if encode_utf8(name) == ascii("tr") {
        Ok((acc.0, acc.1.push(value)))
    } else {
        Ok(acc)
    }
}

/// What the pairs of the query from index `i` on add to what has been
/// gathered; the first pair that is refused ends it.
pub open spec fn magnet_fold(query: Seq<(Seq<char>, Seq<char>)>, i: int, acc: Gathered) -> Result<
    Gathered,
    MagnetError,
>
    decreases query.len() - i,
{
    if i < 0 || i >= query.len() {
        Ok(acc)
    } else {
        match magnet_step(acc, query[i].0, query[i].1) {
            Ok(next) => magnet_fold(query, i + 1, next),
            Err(e) => Err(e),
        }
    }
}

/// The info hash and the trackers that a URL of this scheme and query
/// names, or why it is refused as a magnet link.
pub open spec fn spec_magnet(scheme: Seq<char>, query: Seq<(Seq<char>, Seq<char>)>) -> Result<
    (Seq<u8>, Seq<Seq<char>>),
    MagnetError,
> {
    if encode_utf8(scheme) != ascii("magnet") {
        Err(MagnetError::NotMagnet)
    } else {
        match magnet_fold(query, 0, (None, Seq::empty())) {
            Ok((Some(hash), trackers)) => Ok((hash, trackers)),
            Ok((None, _)) => Err(MagnetError::MissingInfoHash),
            Err(e) => Err(e),
        }
    }
}

/// The info hash and the trackers that the parts of a URL name, where the
/// URL is a magnet link.
pub fn magnet_from_parts(url: &ParsedUrl) -> (r: Result<([u8; 20], Vec<String>), MagnetError>)
    ensures
        match spec_magnet(url.scheme@, pairs_view(url.query@)) {
            Ok((hash, trackers)) => r is Ok && r.unwrap().0@ == hash && texts_of(r.unwrap().1@)
                == trackers,
            Err(e) => r == Err::<([u8; 20], Vec<String>), MagnetError>(e),
        },
{
    proof {
        reveal_strlit("magnet");
        reveal_strlit("xt");
        reveal_strlit("tr");
        reveal_strlit("urn:btih:");
    }
    if !is_equal(url.scheme.as_str().as_bytes(), ascii_bytes("magnet").as_slice()) {
        return Err(MagnetError::NotMagnet);
    }
    let ghost query = pairs_view(url.query@);
    let mut hash: Option<[u8; 20]> = None;
    let mut trackers: Vec<String> = Vec::new();
    let key_xt = ascii_bytes("xt");
    let key_tr = ascii_bytes("tr");
    let prefix = ascii_bytes("urn:btih:");
    assert(texts_of(trackers@) =~= Seq::<Seq<char>>::empty());
    let mut i: usize = 0;
    while i < url.query.len()
        invariant
            i <= url.query@.len(),
            query == pairs_view(url.query@),
            key_xt@ == ascii("xt"),
            key_tr@ == ascii("tr"),
            prefix@ == ascii("urn:btih:"),
            prefix@.len() == 9,
            magnet_fold(query, 0, (None, Seq::empty())) == magnet_fold(
                query,
                i as int,
                (
                    match hash {
                        Some(h) => Some(h@),
                        None => None,
                    },
                    texts_of(trackers@),
                ),
            ),
            encode_utf8(url.scheme@) == ascii("magnet"),
        decreases url.query@.len() - i,
    {
        let name = url.query[i].0.as_str().as_bytes();
        let value = url.query[i].1.as_str().as_bytes();
        assert(query[i as int] == (url.query@[i as int].0@, url.query@[i as int].1@));
        if is_equal(name, key_xt.as_slice()) {
            if starts_with(value, prefix.as_slice()) {
                let h = vstd::slice::slice_subrange(value, 9, value.len());
                if h.len() == 40 {
                    match decode_hex_hash(h) {
                        Ok(bytes) => {
                            hash = Some(bytes);
                        },
                        Err(_) => {
                            return Err(MagnetError::InvalidHex);
                        },
                    }
                } else if h.len() == 32 {
                    return Err(MagnetError::UnsupportedHashEncoding);
                }
            }
        } else if is_equal(name, key_tr.as_slice()) {
            let ghost before = texts_of(trackers@);
            trackers.push(url.query[i].1.clone());
            assert(texts_of(trackers@) =~= before.push(url.query@[i as int].1@));
        }
        i = i + 1;
    }
    match hash {
        Some(h) => Ok((h, trackers)),
        None => Err(MagnetError::MissingInfoHash),
    }
}

/// The info hash and the trackers that a magnet link names.
///
/// The link must be a URL of the scheme `magnet` whose query holds
/// `xt=urn:btih:` followed by 40 hexadecimal digits; each `tr` of the query
/// names a tracker. An info hash of 32 characters, the base32 form, is
/// refused as `UnsupportedHashEncoding`.
pub fn parse_magnet_link(uri: &str) -> (r: Result<([u8; 20], Vec<String>), MagnetError>)
    ensures
        !url_parses(uri@) ==> r == Err::<([u8; 20], Vec<String>), MagnetError>(
            MagnetError::InvalidUrl,
        ),
        url_parses(uri@) ==> match spec_magnet(url_scheme(uri@), url_query_pairs(uri@)) {
            Ok((hash, trackers)) => r is Ok && r.unwrap().0@ == hash && texts_of(r.unwrap().1@)
                == trackers,
            Err(e) => r == Err::<([u8; 20], Vec<String>), MagnetError>(e),
        },
{
    match parse_url(uri) {
        Ok(url) => magnet_from_parts(&url),
        Err(_) => Err(MagnetError::InvalidUrl),
    }
}

impl MagnetError {
    /// Why the link was refused, in words.
    pub fn message(&self) -> (text: &'static str)
        ensures
            text@ == match self {
                MagnetError::InvalidUrl => "Invalid URL"@,
                MagnetError::NotMagnet => "Not a magnet link"@,
                MagnetError::InvalidHex => "Invalid hex hash"@,
                MagnetError::UnsupportedHashEncoding => "Base32 magnet links not yet supported"@,
                MagnetError::MissingInfoHash => "Missing info hash"@,
            },
    {
        match self {
            MagnetError::InvalidUrl => "Invalid URL",
            MagnetError::NotMagnet => "Not a magnet link",
            MagnetError::InvalidHex => "Invalid hex hash",
            MagnetError::UnsupportedHashEncoding => "Base32 magnet links not yet supported",
            MagnetError::MissingInfoHash => "Missing info hash",
        }
    }
}

/// The torrent file that stands for the `info` dictionary `info` that was
/// fetched from peers: a dictionary with an empty `announce` URL and `info`.
pub fn wrap_info(info: &[u8]) -> (out: Vec<u8>)
    ensures
        out@ == ascii("d8:announce0:4:info") + info@ + ascii("e"),
{
    proof {
        reveal_strlit("d8:announce0:4:info");
        reveal_strlit("e");
    }
    let mut out = ascii_bytes("d8:announce0:4:info");
    out.extend_from_slice(info);
    let tail = ascii_bytes("e");
    out.extend_from_slice(tail.as_slice());
    out
}

} // verus!
