//! Integers in network byte order, most significant byte first.
use vstd::prelude::*;

verus! {

/// The four bytes of `x`, most significant first.
pub open spec fn u32_be(x: u32) -> Seq<u8> {
    seq![
        (x / 0x100_0000) as u8,
        ((x / 0x1_0000) % 0x100) as u8,
        ((x / 0x100) % 0x100) as u8,
        (x % 0x100) as u8,
    ]
}

/// The number that the four bytes of `b` from index `at` on denote, most
/// significant first.
pub open spec fn be_u32(b: Seq<u8>, at: int) -> u32 {
    (b[at] * 0x100_0000 + b[at + 1] * 0x1_0000 + b[at + 2] * 0x100 + b[at + 3]) as u32
}

/// The two bytes of `x`, most significant first.
pub open spec fn u16_be(x: u16) -> Seq<u8> {
    seq![(x / 0x100) as u8, (x % 0x100) as u8]
}

/// The number that the two bytes of `b` from index `at` on denote, most
/// significant first.
pub open spec fn be_u16(b: Seq<u8>, at: int) -> u16 {
    (b[at] * 0x100 + b[at + 1]) as u16
}

/// The eight bytes of `x`, most significant first.
pub open spec fn u64_be(x: u64) -> Seq<u8> {
    u32_be((x / 0x1_0000_0000) as u32) + u32_be((x % 0x1_0000_0000) as u32)
}

/// The number that the eight bytes of `b` from index `at` on denote, most
/// significant first.
pub open spec fn be_u64(b: Seq<u8>, at: int) -> u64 {
    (be_u32(b, at) * 0x1_0000_0000 + be_u32(b, at + 4)) as u64
}

/// Reading the bytes of a 32-bit number gives the number back.
pub proof fn lemma_be_u32_of_bytes(x: u32)
    ensures
        u32_be(x).len() == 4,
        be_u32(u32_be(x), 0) == x,
{
    let v = x as int;
    let b0 = v / 0x100_0000;
    let b1 = (v / 0x1_0000) % 0x100;
    let b2 = (v / 0x100) % 0x100;
    let b3 = v % 0x100;
    assert(v == (v / 0x100) * 0x100 + b3);
    assert(v / 0x100 == (v / 0x100 / 0x100) * 0x100 + b2);
    assert(v / 0x100 / 0x100 == v / 0x1_0000);
    assert(v / 0x1_0000 == (v / 0x1_0000 / 0x100) * 0x100 + b1);
    assert(v / 0x1_0000 / 0x100 == b0);
}

/// Writing the number that four bytes denote gives the four bytes back.
pub proof fn lemma_bytes_of_be_u32(b: Seq<u8>, at: int)
    requires
        0 <= at,
        at + 4 <= b.len(),
    ensures
        u32_be(be_u32(b, at)) == b.subrange(at, at + 4),
{
    let b0 = b[at] as int;
    let b1 = b[at + 1] as int;
    let b2 = b[at + 2] as int;
    let b3 = b[at + 3] as int;
    let x = b0 * 0x100_0000 + b1 * 0x1_0000 + b2 * 0x100 + b3;
    assert(be_u32(b, at) == x);
    lemma_split(x, 0x100_0000, b0, b1 * 0x1_0000 + b2 * 0x100 + b3);
    lemma_split(x, 0x1_0000, b0 * 0x100 + b1, b2 * 0x100 + b3);
    lemma_split(b0 * 0x100 + b1, 0x100, b0, b1);
    lemma_split(x, 0x100, b0 * 0x1_0000 + b1 * 0x100 + b2, b3);
    lemma_split(b0 * 0x1_0000 + b1 * 0x100 + b2, 0x100, b0 * 0x100 + b1, b2);
    assert(u32_be(be_u32(b, at)) =~= b.subrange(at, at + 4));
}

/// A number that is `q` times `d` and a rest `r` below `d` has the
/// quotient `q` and the rest `r`.
proof fn lemma_split(x: int, d: int, q: int, r: int)
    requires
        d > 0,
        0 <= r < d,
        x == q * d + r,
    ensures
        x / d == q,
        x % d == r,
{
    vstd::arithmetic::div_mod::lemma_fundamental_div_mod_converse(x, d, q, r);
}

/// Appends the four bytes of `x`, most significant first.
pub fn push_u32(out: &mut Vec<u8>, x: u32)
    ensures
        final(out)@ == old(out)@ + u32_be(x),
{
    out.push((x / 0x100_0000) as u8);
    out.push(((x / 0x1_0000) % 0x100) as u8);
    out.push(((x / 0x100) % 0x100) as u8);
    out.push((x % 0x100) as u8);
    assert(final(out)@ =~= old(out)@ + u32_be(x));
}

/// Appends the two bytes of `x`, most significant first.
pub fn push_u16(out: &mut Vec<u8>, x: u16)
    ensures
        final(out)@ == old(out)@ + u16_be(x),
{
    out.push((x / 0x100) as u8);
    out.push((x % 0x100) as u8);
    assert(final(out)@ =~= old(out)@ + u16_be(x));
}

/// The number that the four bytes of `input` from index `at` on denote.
pub fn read_u32(input: &[u8], at: usize) -> (r: u32)
    requires
        at + 4 <= input@.len(),
    ensures
        r == be_u32(input@, at as int),
{
    let b0: u32 = input[at] as u32;
    let b1: u32 = input[at + 1] as u32;
    let b2: u32 = input[at + 2] as u32;
    let b3: u32 = input[at + 3] as u32;
    b0 * 0x100_0000 + b1 * 0x1_0000 + b2 * 0x100 + b3
}

/// The number that the two bytes of `input` from index `at` on denote.
pub fn read_u16(input: &[u8], at: usize) -> (r: u16)
    requires
        at + 2 <= input@.len(),
    ensures
        r == be_u16(input@, at as int),
{
    let b0: u16 = input[at] as u16;
    let b1: u16 = input[at + 1] as u16;
    b0 * 0x100 + b1
}

} // verus!
