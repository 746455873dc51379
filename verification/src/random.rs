//! Random numbers, from the thread-local generator of the `rand` crate.
use rand::rngs::ThreadRng;
use rand::Rng;
use vstd::prelude::*;

verus! {

/// The thread-local generator of the `rand` crate.
#[verifier::external_type_specification]
#[verifier::external_body]
pub struct ExThreadRng(ThreadRng);

/// `rand::rng` hands out a handle to the generator of the calling thread.
/// Nothing is claimed of it.
pub assume_specification[ rand::rng ]() -> ThreadRng
;

/// A number below `n`, by `Rng::random_range` on the range `0..n`.
///
/// The call panics on an empty range, so `n` must be positive; the result
/// lies in the range. Which number comes is not stated.
#[verifier::external_body]
pub(crate) fn random_below(rng: &mut ThreadRng, n: usize) -> (r: usize)
    requires
        n > 0,
    ensures
        r < n,
{
    rng.random_range(0..n)
}

/// Twenty random bytes, by `Rng::fill` on an array. Nothing is claimed of
/// the bytes.
#[verifier::external_body]
pub(crate) fn random_bytes(rng: &mut ThreadRng) -> [u8; 20] {
    let mut id = [0u8; 20];
    rng.fill(&mut id);
    id
}

/// Two random bytes, by `Rng::random`. Nothing is claimed of the bytes.
#[verifier::external_body]
pub(crate) fn random_pair(rng: &mut ThreadRng) -> [u8; 2] {
    rng.random()
}

/// A random 32-bit number, by `Rng::random`. Nothing is claimed of it.
#[verifier::external_body]
pub(crate) fn random_u32(rng: &mut ThreadRng) -> u32 {
    rng.random()
}

} // verus!
