use vstd::prelude::*;

verus! {

/// Whether bit `k` of `byte` is set, bit 0 being the most significant.
pub open spec fn bit_of(byte: u8, k: u8) -> bool {
    (byte >> (7 - k) as u8) & 1u8 == 1u8
}

/// The byte in which only bit `k` is set, bit 0 being the most significant.
pub open spec fn bit_mask(k: u8) -> u8 {
    1u8 << (7 - k) as u8
}

/// Whether the bit of piece `i` is set in `bits`: bit `i mod 8` of byte
/// `i / 8`, the most significant bit of the first byte standing for piece 0.
/// A piece beyond the last byte is not set.
pub open spec fn has_bit(bits: Seq<u8>, i: int) -> bool {
    0 <= i && i / 8 < bits.len() && bit_of(bits[i / 8], (i % 8) as u8)
}

/// The bits after the bit of piece `i` has been set: `bits` is first
/// lengthened with zero bytes, where byte `i / 8` is beyond its end.
pub open spec fn with_bit(bits: Seq<u8>, i: int) -> Seq<u8> {
    let grown = if i / 8 < bits.len() {
        bits
    } else {
        bits + Seq::new((i / 8 + 1 - bits.len()) as nat, |j: int| 0u8)
    };
    grown.update(i / 8, grown[i / 8] | bit_mask((i % 8) as u8))
}

/// Setting bit `k` of a byte sets that bit and leaves the others.
pub proof fn lemma_set_bit(byte: u8, k: u8, j: u8)
    requires
        k < 8,
        j < 8,
    ensures
        bit_of(byte | bit_mask(k), j) == (j == k || bit_of(byte, j)),
{
    assert(((byte | (1u8 << (7 - k) as u8)) >> (7 - j) as u8) & 1u8 == 1u8 <==> (j == k || (byte
        >> (7 - j) as u8) & 1u8 == 1u8)) by (bit_vector)
        requires
            k < 8,
            j < 8,
    ;
}

/// No bit of the zero byte is set.
pub proof fn lemma_zero_bits(j: u8)
    requires
        j < 8,
    ensures
        !bit_of(0u8, j),
{
    assert((0u8 >> (7 - j) as u8) & 1u8 != 1u8) by (bit_vector)
        requires
            j < 8,
    ;
}

/// After the bit of piece `i` has been set, the bits are long enough to
/// hold it, that bit is set, and every other bit is as it was.
pub proof fn lemma_with_bit(bits: Seq<u8>, i: int, j: int)
    requires
        0 <= i,
    ensures
        with_bit(bits, i).len() == if i / 8 < bits.len() {
            bits.len()
        } else {
            (i / 8 + 1) as nat
        },
        has_bit(with_bit(bits, i), j) == (j == i || has_bit(bits, j)),
{
    let grown = if i / 8 < bits.len() {
        bits
    } else {
        bits + Seq::new((i / 8 + 1 - bits.len()) as nat, |j: int| 0u8)
    };
    let out = with_bit(bits, i);
    if 0 <= j && j / 8 < out.len() {
        let jb = (j % 8) as u8;
        if j / 8 >= bits.len() {
            assert(grown[j / 8] == 0u8);
            lemma_zero_bits(jb);
        }
        if j / 8 == i / 8 {
            lemma_set_bit(grown[i / 8], (i % 8) as u8, jb);
        }
    }
}

/// Whether the bit of piece `index` is set in `bits`.
pub fn test_bit(bits: &[u8], index: usize) -> (r: bool)
    ensures
        r == has_bit(bits@, index as int),
{
    let byte_index = index / 8;
    if byte_index < bits.len() {
        let k: u8 = (index % 8) as u8;
        (bits[byte_index] >> (7 - k)) & 1 == 1
    } else {
        false
    }
}

/// Sets the bit of piece `index` in `bits`, lengthening `bits` with zero
/// bytes where it is too short.
pub fn set_bit(bits: &mut Vec<u8>, index: usize)
    ensures
        final(bits)@ == with_bit(old(bits)@, index as int),
{
    let byte_index = index / 8;
    while bits.len() <= byte_index
        invariant
            byte_index == index / 8,
            bits@.len() <= byte_index + 1 || bits@.len() == old(bits)@.len(),
            old(bits)@.len() <= bits@.len(),
            bits@ =~= old(bits)@ + Seq::new((bits@.len() - old(bits)@.len()) as nat, |j: int| 0u8),
        decreases byte_index + 1 - bits@.len(),
    {
        bits.push(0);
    }
    let k: u8 = (index % 8) as u8;
    let byte = bits[byte_index];
    bits[byte_index] = byte | (1u8 << (7 - k));
    assert(final(bits)@ =~= with_bit(old(bits)@, index as int));
}

} // verus!
