use sha1::{Digest, Sha1};
use vstd::prelude::*;

verus! {

/// The SHA-1 digest of `data`, as the `sha1` crate computes it: 20 bytes.
pub uninterp spec fn sha1_digest(data: Seq<u8>) -> Seq<u8>;

/// The SHA-1 digest of `info_bytes`.
///
/// This calls `Sha1::new`, `update` and `finalize` of the `sha1` crate. The
/// contract names the result: the digest is a function of the bytes alone.
#[verifier::external_body]
pub fn info_hash(info_bytes: &[u8]) -> (hash: [u8; 20])
    ensures
        hash@ == sha1_digest(info_bytes@),
{
    let mut hasher = Sha1::new();
    hasher.update(info_bytes);
    let result = hasher.finalize();
    let mut hash = [0u8; 20];
    hash.copy_from_slice(&result);
    hash
}

} // verus!
