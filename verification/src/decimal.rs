//! Decimal numerals in ASCII, as the bencoded format and the tracker
//! protocols write their integers.
use vstd::prelude::*;

verus! {

/// Whether `b` is one of the ASCII digits `0` to `9`.
pub open spec fn is_digit(b: u8) -> bool {
    0x30 <= b <= 0x39
}

/// Whether every byte of `s` is an ASCII digit.
pub open spec fn all_digits(s: Seq<u8>) -> bool {
    forall|i: int| 0 <= i < s.len() ==> is_digit(#[trigger] s[i])
}

/// The number that a string of decimal digits denotes, most significant digit
/// first. The empty string denotes 0.
pub open spec fn digits_value(s: Seq<u8>) -> nat
    decreases s.len(),
{
    if s.len() == 0 {
        0
    } else {
        digits_value(s.drop_last()) * 10 + (s.last() - 0x30) as nat
    }
}

/// The shortest decimal numeral of `n`: no leading zero, and `0` for zero.
pub open spec fn decimal(n: nat) -> Seq<u8>
    decreases n,
{
    if n < 10 {
        seq![(0x30 + n) as u8]
    } else {
        decimal(n / 10).push((0x30 + n % 10) as u8)
    }
}

/// What reading `s` as an unsigned decimal numeral gives: its value where `s`
/// is a non-empty string of digits whose value is at most `limit`.
pub open spec fn parse_digits_spec(s: Seq<u8>, limit: nat) -> Option<nat> {
    if s.len() > 0 && all_digits(s) && digits_value(s) <= limit {
        Some(digits_value(s))
    } else {
        None
    }
}

/// What reading `s` as a signed 64-bit decimal numeral gives: an optional
/// sign, `+` or `-`, then at least one digit, the value within the range of
/// `i64`.
pub open spec fn parse_i64_spec(s: Seq<u8>) -> Option<int> {
    if s.len() == 0 {
        None
    } else if s[0] == 0x2du8 {
        match parse_digits_spec(s.skip(1), 0x8000_0000_0000_0000) {
            Some(m) => Some(-(m as int)),
            None => None,
        }
    } else if s[0] == 0x2bu8 {
        match parse_digits_spec(s.skip(1), 0x7fff_ffff_ffff_ffff) {
            Some(m) => Some(m as int),
            None => None,
        }
    } else {
        match parse_digits_spec(s, 0x7fff_ffff_ffff_ffff) {
            Some(m) => Some(m as int),
            None => None,
        }
    }
}

/// The decimal numeral of a signed integer: a `-` before the digits of a
/// negative one, no sign otherwise.
pub open spec fn signed_decimal(i: int) -> Seq<u8> {
    if i < 0 {
        seq![0x2du8] + decimal((-i) as nat)
    } else {
        decimal(i as nat)
    }
}

/// A numeral is never empty, holds digits only, and denotes its number.
pub proof fn lemma_decimal_value(n: nat)
    ensures
        decimal(n).len() >= 1,
        all_digits(decimal(n)),
        digits_value(decimal(n)) == n,
    decreases n,
{
    if n < 10 {
        let s = decimal(n);
        assert(s.drop_last() =~= Seq::<u8>::empty());
        assert(digits_value(s.drop_last()) == 0);
    } else {
        lemma_decimal_value(n / 10);
        let p = decimal(n / 10);
        let s = decimal(n);
        assert(s.drop_last() =~= p);
        assert(s.last() == (0x30 + n % 10) as u8);
        assert forall|i: int| 0 <= i < s.len() implies is_digit(#[trigger] s[i]) by {
            if i < p.len() {
                assert(s[i] == p[i]);
            }
        }
    }
}

/// Reading a prefix of a digit string never gives more than reading all of it.
pub proof fn lemma_digits_value_prefix(s: Seq<u8>, k: int)
    requires
        0 <= k <= s.len(),
    ensures
        digits_value(s.take(k)) <= digits_value(s),
    decreases s.len(),
{
    if k == s.len() {
        assert(s.take(k) =~= s);
    } else {
        lemma_digits_value_prefix(s.drop_last(), k);
        assert(s.drop_last().take(k) =~= s.take(k));
    }
}

/// Reading the numeral of a signed 64-bit integer gives that integer back.
pub proof fn lemma_parse_signed_decimal(i: int)
    requires
        -0x8000_0000_0000_0000 <= i <= 0x7fff_ffff_ffff_ffff,
    ensures
        parse_i64_spec(signed_decimal(i)) == Some(i),
{
    let s = signed_decimal(i);
    if i < 0 {
        let m = (-i) as nat;
        lemma_decimal_value(m);
        assert(s.skip(1) =~= decimal(m));
    } else {
        lemma_decimal_value(i as nat);
        assert(is_digit(s[0]));
    }
}

/// Reads the bytes `input[start..end]` as an unsigned decimal numeral of
/// value at most `limit`.
pub fn parse_digits(input: &[u8], start: usize, end: usize, limit: u64) -> (r: Option<u64>)
    requires
        start <= end <= input@.len(),
    ensures
        match parse_digits_spec(input@.subrange(start as int, end as int), limit as nat) {
            Some(v) => r == Some(v as u64),
            None => r.is_none(),
        },
{
    let ghost s = input@.subrange(start as int, end as int);
    if start == end {
        return None;
    }
    let mut acc: u64 = 0;
    let mut i: usize = start;
    proof {
        assert(s.take(0) =~= Seq::<u8>::empty());
    }
    while i < end
        invariant
            start <= i <= end <= input@.len(),
            s == input@.subrange(start as int, end as int),
            acc as nat == digits_value(s.take(i - start)),
            acc <= limit,
            all_digits(s.take(i - start)),
        decreases end - i,
    {
        let b = input[i];
        if b < 0x30 || b > 0x39 {
            assert(!is_digit(s[i - start]));
            return None;
        }
        let d: u64 = (b - 0x30) as u64;
        let next: u128 = acc as u128 * 10 + d as u128;
        proof {
            let p = s.take(i - start + 1);
            assert(p.drop_last() =~= s.take(i - start));
            assert(p.last() == b);
            assert(digits_value(p) == next);
            assert forall|j: int| 0 <= j < p.len() implies is_digit(#[trigger] p[j]) by {
                if j < p.len() - 1 {
                    assert(p[j] == s.take(i - start)[j]);
                }
            }
            lemma_digits_value_prefix(s, i - start + 1);
        }
        if next > limit as u128 {
            return None;
        }
        acc = next as u64;
        i = i + 1;
    }
    proof {
        assert(s.take(end - start) =~= s);
    }
    Some(acc)
}

/// Reads the bytes `input[start..end]` as a signed 64-bit decimal numeral.
pub fn parse_i64(input: &[u8], start: usize, end: usize) -> (r: Option<i64>)
    requires
        start <= end <= input@.len(),
    ensures
        match parse_i64_spec(input@.subrange(start as int, end as int)) {
            Some(v) => r == Some(v as i64),
            None => r.is_none(),
        },
{
    let ghost s = input@.subrange(start as int, end as int);
    if start == end {
        return None;
    }
    let first = input[start];
    assert(first == s[0]);
    if first == 0x2d {
        assert(s.skip(1) =~= input@.subrange(start + 1, end as int));
        match parse_digits(input, start + 1, end, 0x8000_0000_0000_0000) {
            Some(m) => {
                if m == 0x8000_0000_0000_0000 {
                    Some(i64::MIN)
                } else {
                    Some(-(m as i64))
                }
            },
            None => None,
        }
    } else if first == 0x2b {
        assert(s.skip(1) =~= input@.subrange(start + 1, end as int));
        match parse_digits(input, start + 1, end, 0x7fff_ffff_ffff_ffff) {
            Some(m) => Some(m as i64),
            None => None,
        }
    } else {
        match parse_digits(input, start, end, 0x7fff_ffff_ffff_ffff) {
            Some(m) => Some(m as i64),
            None => None,
        }
    }
}

/// Appends the decimal numeral of `n` to `out`.
pub fn push_decimal(out: &mut Vec<u8>, n: u64)
    ensures
        final(out)@ == old(out)@ + decimal(n as nat),
    decreases n,
{
    if n >= 10 {
        push_decimal(out, n / 10);
    }
    let d: u8 = (n % 10) as u8;
    out.push(0x30 + d);
    proof {
        if n >= 10 {
            assert(final(out)@ =~= old(out)@ + decimal(n as nat));
        } else {
            assert(final(out)@ =~= old(out)@ + decimal(n as nat));
        }
    }
}

/// Appends the decimal numeral of the signed integer `i` to `out`.
pub fn push_signed_decimal(out: &mut Vec<u8>, i: i64)
    ensures
        final(out)@ == old(out)@ + signed_decimal(i as int),
{
    if i < 0 {
        out.push(0x2d);
        let m: u64 = if i == i64::MIN {
            0x8000_0000_0000_0000
        } else {
            (-i) as u64
        };
        push_decimal(out, m);
        assert(final(out)@ =~= old(out)@ + signed_decimal(i as int));
    } else {
        push_decimal(out, i as u64);
    }
}

} // verus!
