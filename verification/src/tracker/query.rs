//! The raw bytes of a value in a query string, before any reading as text.
use vstd::prelude::*;
use crate::bencoding::decoder::find_byte;
use crate::lex_order::is_equal;
use crate::magnet::hex_val;

verus! {

/// The bytes of `s` with every `+` made a space.
pub open spec fn plus_to_space(s: Seq<u8>) -> Seq<u8> {
    Seq::new(s.len(), |i: int| if s[i] == 0x2bu8 { 0x20u8 } else { s[i] })
}

/// The bytes that `s` denotes from index `i` on, percent signs read: a `%`
/// with two hexadecimal digits after it is the byte of those digits, and any
/// other byte is itself.
pub open spec fn percent_decoded(s: Seq<u8>, i: int) -> Seq<u8>
    decreases s.len() - i,
{
    if i < 0 || i >= s.len() {
        Seq::empty()
    } else if s[i] == 0x25u8 && i + 2 < s.len() && hex_val(s[i + 1]) is Some && hex_val(s[i + 2])
        is Some {
        seq![(hex_val(s[i + 1]).unwrap() * 16 + hex_val(s[i + 2]).unwrap()) as u8]
            + percent_decoded(s, i + 3)
    } else {
        seq![s[i]] + percent_decoded(s, i + 1)
    }
}

/// The bytes that a name or a value of a query denotes: every `+` is a
/// space, and then the percent signs are read.
pub open spec fn form_decoded(s: Seq<u8>) -> Seq<u8> {
    percent_decoded(plus_to_space(s), 0)
}

/// The name of a pair of a query: what stands before its first `=`,
/// decoded.
pub open spec fn pair_name(pair: Seq<u8>) -> Seq<u8> {
    form_decoded(pair.subrange(0, find_byte(pair, 0, 0x3du8)))
}

/// The value of a pair of a query: what stands after its first `=`,
/// decoded; nothing where it has no `=`.
pub open spec fn pair_value(pair: Seq<u8>) -> Seq<u8> {
    let eq = find_byte(pair, 0, 0x3du8);
    if eq < pair.len() {
        form_decoded(pair.subrange(eq + 1, pair.len() as int))
    } else {
        Seq::empty()
    }
}

/// The value of the last pair with the name `name` among the pairs of
/// `query` from index `i` on, or `found` where there is none. The pairs stand
/// between `&`; an empty pair is passed over.
pub open spec fn raw_value_from(query: Seq<u8>, i: int, name: Seq<u8>, found: Option<Seq<u8>>) -> Option<
    Seq<u8>,
>
    decreases query.len() - i,
{
    if i < 0 || i >= query.len() {
        found
    } else {
        let end = find_byte(query, i, 0x26u8);
        let pair = query.subrange(i, end);
        let next = if pair.len() > 0 && pair_name(pair) == name {
            Some(pair_value(pair))
        } else {
            found
        };
        if end < i {
            found
        } else if end >= query.len() {
            next
        } else {
            raw_value_from(query, end + 1, name, next)
        }
    }
}

/// The bytes of the value that `query` binds to `name`: of the last pair
/// with that name, where the name comes more than once.
pub open spec fn raw_value_of(query: Seq<u8>, name: Seq<u8>) -> Option<Seq<u8>> {
    raw_value_from(query, 0, name, None)
}

/// The value of a hexadecimal digit, in either case.
pub fn hex_digit(c: u8) -> (r: Option<u8>)
    ensures
        r == hex_val(c),
{
    if c >= 0x30 && c <= 0x39 {
        Some(c - 0x30)
    } else if c >= 0x41 && c <= 0x46 {
        Some(c - 0x41 + 10)
    } else if c >= 0x61 && c <= 0x66 {
        Some(c - 0x61 + 10)
    } else {
        None
    }
}

/// The bytes that a name or a value of a query denotes.
pub fn form_decode(input: &[u8]) -> (out: Vec<u8>)
    ensures
        out@ == form_decoded(input@),
{
    let total = input.len();
    let mut replaced: Vec<u8> = Vec::new();
    let mut k: usize = 0;
    while k < total
        invariant
            k <= total,
            total == input@.len(),
            replaced@.len() == k,
            forall|j: int| 0 <= j < k ==> replaced@[j] == plus_to_space(input@)[j],
        decreases total - k,
    {
        replaced.push(if input[k] == 0x2b {
            0x20
        } else {
            input[k]
        });
        k = k + 1;
    }
    assert(replaced@ =~= plus_to_space(input@));
    let mut out: Vec<u8> = Vec::new();
    let mut i: usize = 0;
    while i < total
        invariant
            i <= total,
            total == replaced@.len(),
            out@ + percent_decoded(replaced@, i as int) == percent_decoded(replaced@, 0),
        decreases total - i,
    {
        let ghost before = out@;
        let mut step: usize = 1;
        let mut byte = replaced[i];
        if byte == 0x25 && total - i > 2 {
            match hex_digit(replaced[i + 1]) {
                Some(high) => match hex_digit(replaced[i + 2]) {
                    Some(low) => {
                        byte = high * 16 + low;
                        step = 3;
                    },
                    None => {},
                },
                None => {},
            }
        }
        out.push(byte);
        assert(out@ + percent_decoded(replaced@, i + step) =~= before + percent_decoded(
            replaced@,
            i as int,
        ));
        i = i + step;
    }
    assert(out@ + percent_decoded(replaced@, i as int) =~= out@);
    out
}

/// The index of the first byte `b` of `input` at or after `from`, or the
/// length of `input`.
fn scan(input: &[u8], from: usize, b: u8) -> (at: usize)
    requires
        from <= input@.len(),
    ensures
        at == find_byte(input@, from as int, b),
        from <= at <= input@.len(),
{
    let mut at = from;
    while at < input.len() && input[at] != b
        invariant
            from <= at <= input@.len(),
            find_byte(input@, from as int, b) == find_byte(input@, at as int, b),
        decreases input@.len() - at,
    {
        at = at + 1;
    }
    at
}

/// The bytes of the value that `query` binds to `name`.
pub fn raw_value(query: &[u8], name: &[u8]) -> (r: Option<Vec<u8>>)
    ensures
        match raw_value_of(query@, name@) {
            Some(v) => r is Some && r.unwrap()@ == v,
            None => r is None,
        },
{
    let total = query.len();
    let mut found: Option<Vec<u8>> = None;
    let mut i: usize = 0;
    while i < total
        invariant
            total == query@.len(),
            raw_value_of(query@, name@) == raw_value_from(
                query@,
                i as int,
                name@,
                match found {
                    Some(v) => Some(v@),
                    None => None,
                },
            ),
        decreases total - i,
    {
        let end = scan(query, i, 0x26);
        let pair = vstd::slice::slice_subrange(query, i, end);
        if end > i {
            let eq = scan(pair, 0, 0x3d);
            let pair_name = form_decode(vstd::slice::slice_subrange(pair, 0, eq));
            if is_equal(pair_name.as_slice(), name) {
                if eq < pair.len() {
                    found = Some(form_decode(vstd::slice::slice_subrange(pair, eq + 1, pair.len())));
                } else {
                    found = Some(Vec::new());
                }
            }
        }
        if end >= total {
            return found;
        }
        i = end + 1;
    }
    found
}

} // verus!
