//! Byte buffers that are filled block by block.
use vstd::prelude::*;

verus! {

/// The bytes of `buffer` after `block` has been written at `begin`.
pub open spec fn with_block(buffer: Seq<u8>, begin: int, block: Seq<u8>) -> Seq<u8> {
    buffer.subrange(0, begin) + block + buffer.subrange(begin + block.len(), buffer.len() as int)
}

/// A buffer of `n` zero bytes.
pub fn zeros(n: usize) -> (out: Vec<u8>)
    ensures
        out@ == Seq::new(n as nat, |i: int| 0u8),
{
    let mut out: Vec<u8> = Vec::new();
    let mut i: usize = 0;
    while i < n
        invariant
            i <= n,
            out@.len() == i,
            forall|j: int| 0 <= j < i ==> out@[j] == 0u8,
        decreases n - i,
    {
        out.push(0);
        i = i + 1;
    }
    assert(out@ =~= Seq::new(n as nat, |i: int| 0u8));
    out
}

/// Writes `block` into `buffer` at `begin`.
pub fn write_block(buffer: &mut Vec<u8>, begin: usize, block: &[u8])
    requires
        begin + block@.len() <= old(buffer)@.len(),
    ensures
        final(buffer)@ == with_block(old(buffer)@, begin as int, block@),
        final(buffer)@.len() == old(buffer)@.len(),
{
    let total = buffer.len();
    let mut k: usize = 0;
    while k < block.len()
        invariant
            k <= block@.len(),
            total == buffer@.len(),
            begin + block@.len() <= buffer@.len(),
            buffer@.len() == old(buffer)@.len(),
            forall|j: int|
                0 <= j < begin || begin + k <= j < buffer@.len() ==> buffer@[j] == old(buffer)@[j],
            forall|j: int| 0 <= j < k ==> buffer@[begin + j] == block@[j],
        decreases block@.len() - k,
    {
        buffer[begin + k] = block[k];
        k = k + 1;
    }
    assert(buffer@ =~= with_block(old(buffer)@, begin as int, block@));
}

} // verus!
