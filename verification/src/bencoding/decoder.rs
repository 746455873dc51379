use vstd::prelude::*;
use super::bencode::{lemma_wf_dict, lemma_wf_list, Bencode, Entries, Value, dict_insert, entries_view, insert_entry, lemma_view_dict, lemma_view_list, list_view, lemma_insert_sorted};
use crate::decimal::{is_digit, parse_digits, parse_digits_spec, parse_i64, parse_i64_spec};

verus! {

/// Why a value could not be decoded.
#[derive(Debug, Clone, Copy, PartialEq, Eq, Structural)]
pub enum DecodeError {
    /// The input ended inside a value.
    UnexpectedEof,
    /// The input does not follow the format: a byte that starts no value, a
    /// numeral that is not one or is out of range, a dictionary key that is no
    /// byte string, or a value inside a list or a dictionary that does not
    /// decode.
    InvalidData,
}

/// The index of the first byte `b` at or after `from`, or the length of the
/// input if there is none.
pub open spec fn find_byte(input: Seq<u8>, from: int, b: u8) -> int
    decreases input.len() - from,
{
    if from < 0 || from >= input.len() || input[from] == b {
        from
    } else {
        find_byte(input, from + 1, b)
    }
}

/// The value that starts at `pos` in `input`, with the position after it.
///
/// An integer is `i`, a signed decimal numeral and `e`. A byte string is a
/// decimal length, a colon and that many bytes. A list is `l`, values, and
/// `e`. A dictionary is `d`, pairs of a byte string and a value, and `e`; a
/// key that comes again replaces the earlier binding, and the entries are
/// kept in the order of their keys.
pub open spec fn spec_decode(input: Seq<u8>, pos: int) -> Result<(Value, int), DecodeError>
    decreases input.len() - pos, 0nat,
{
    if pos < 0 || pos >= input.len() {
        Err(DecodeError::UnexpectedEof)
    } else if input[pos] == 0x69u8 {
        let end = find_byte(input, pos + 1, 0x65u8);
        if end >= input.len() {
            Err(DecodeError::UnexpectedEof)
        } else {
            match parse_i64_spec(input.subrange(pos + 1, end)) {
                Some(n) => Ok((Value::Int(n), end + 1)),
                None => Err(DecodeError::InvalidData),
            }
        }
    } else if input[pos] == 0x6cu8 {
        match decode_items(input, pos + 1, Seq::empty()) {
            Ok((items, next)) => Ok((Value::List(items), next)),
            Err(e) => Err(e),
        }
    } else if input[pos] == 0x64u8 {
        match decode_entries(input, pos + 1, Seq::empty()) {
            Ok((entries, next)) => Ok((Value::Dict(entries), next)),
            Err(e) => Err(e),
        }
    } else if is_digit(input[pos]) {
        let colon = find_byte(input, pos, 0x3au8);
        if colon >= input.len() {
            Err(DecodeError::UnexpectedEof)
        } else {
            match parse_digits_spec(input.subrange(pos, colon), usize::MAX as nat) {
                Some(n) => if colon + 1 + n > input.len() {
                    Err(DecodeError::UnexpectedEof)
                } else {
                    Ok((Value::Bytes(input.subrange(colon + 1, colon + 1 + n)), colon + 1 + n))
                },
                None => Err(DecodeError::InvalidData),
            }
        }
    } else {
        Err(DecodeError::InvalidData)
    }
}

/// The items of a list whose next item starts at `pos`, after the items
/// `acc` that came before, with the position after the closing `e`.
pub open spec fn decode_items(input: Seq<u8>, pos: int, acc: Seq<Value>) -> Result<
    (Seq<Value>, int),
    DecodeError,
>
    decreases input.len() - pos, 1nat,
{
    if pos < 0 || pos >= input.len() {
        Err(DecodeError::UnexpectedEof)
    } else if input[pos] == 0x65u8 {
        Ok((acc, pos + 1))
    } else {
        match spec_decode(input, pos) {
            Ok((v, next)) => if pos < next <= input.len() {
                decode_items(input, next, acc.push(v))
            } else {
                Err(DecodeError::InvalidData)
            },
            Err(_) => Err(DecodeError::InvalidData),
        }
    }
}

/// The entries of a dictionary whose next key starts at `pos`, after the
/// entries `acc` that came before, with the position after the closing `e`.
pub open spec fn decode_entries(input: Seq<u8>, pos: int, acc: Entries) -> Result<
    (Entries, int),
    DecodeError,
>
    decreases input.len() - pos, 1nat,
{
    if pos < 0 || pos >= input.len() {
        Err(DecodeError::UnexpectedEof)
    } else if input[pos] == 0x65u8 {
        Ok((acc, pos + 1))
    } else {
        match spec_decode(input, pos) {
            Ok((Value::Bytes(key), mid)) => if pos < mid <= input.len() {
                match spec_decode(input, mid) {
                    Ok((v, next)) => if mid < next <= input.len() {
                        decode_entries(input, next, dict_insert(acc, key, v))
                    } else {
                        Err(DecodeError::InvalidData)
                    },
                    Err(_) => Err(DecodeError::InvalidData),
                }
            } else {
                Err(DecodeError::InvalidData)
            },
            _ => Err(DecodeError::InvalidData),
        }
    }
}

/// The first byte `b` at or after `from` lies at or after `from` and within
/// the input or at its end, and no byte between is `b`.
pub proof fn lemma_find_byte(input: Seq<u8>, from: int, b: u8)
    requires
        0 <= from <= input.len(),
    ensures
        from <= find_byte(input, from, b) <= input.len(),
        find_byte(input, from, b) < input.len() ==> input[find_byte(input, from, b)] == b,
        forall|j: int| from <= j < find_byte(input, from, b) ==> input[j] != b,
    decreases input.len() - from,
{
    if from < input.len() && input[from] != b {
        lemma_find_byte(input, from + 1, b);
    }
}

/// A decoded value spans at least one byte and ends within the input, and
/// it is admissible.
pub proof fn lemma_decode_bounds(input: Seq<u8>, pos: int)
    requires
        input.len() <= usize::MAX,
    ensures
        match spec_decode(input, pos) {
            Ok((v, next)) => 0 <= pos < next <= input.len() && v.wf(),
            Err(_) => true,
        },
    decreases input.len() - pos, 0nat,
{
    if pos < 0 || pos >= input.len() {
    } else if input[pos] == 0x69u8 {
        lemma_find_byte(input, pos + 1, 0x65u8);
    } else if input[pos] == 0x6cu8 {
        lemma_wf_list(Seq::empty());
        lemma_decode_items_bounds(input, pos + 1, Seq::empty());
    } else if input[pos] == 0x64u8 {
        lemma_wf_dict(Seq::empty());
        lemma_decode_entries_bounds(input, pos + 1, Seq::empty());
    } else if is_digit(input[pos]) {
        lemma_find_byte(input, pos, 0x3au8);
    }
}

/// The items of a decoded list end within the input and are admissible,
/// where those that came before are.
pub proof fn lemma_decode_items_bounds(input: Seq<u8>, pos: int, acc: Seq<Value>)
    requires
        input.len() <= usize::MAX,
        Value::List(acc).wf(),
    ensures
        match decode_items(input, pos, acc) {
            Ok((items, next)) => 0 <= pos < next <= input.len() && Value::List(items).wf(),
            Err(_) => true,
        },
    decreases input.len() - pos, 1nat,
{
    lemma_wf_list(acc);
    if pos < 0 || pos >= input.len() || input[pos] == 0x65u8 {
    } else {
        lemma_decode_bounds(input, pos);
        match spec_decode(input, pos) {
            Ok((v, next)) => {
                if pos < next {
                    let acc2 = acc.push(v);
                    lemma_wf_list(acc);
                    lemma_wf_list(acc2);
                    assert forall|i: int| 0 <= i < acc2.len() implies (#[trigger] acc2[i]).wf() by {
                        if i < acc.len() {
                            assert(acc2[i] == acc[i]);
                        }
                    }
                    lemma_decode_items_bounds(input, next, acc2);
                }
            },
            Err(_) => {},
        }
    }
}

/// The entries of a decoded dictionary end within the input and are
/// admissible, where those that came before are.
pub proof fn lemma_decode_entries_bounds(input: Seq<u8>, pos: int, acc: Entries)
    requires
        input.len() <= usize::MAX,
        Value::Dict(acc).wf(),
    ensures
        match decode_entries(input, pos, acc) {
            Ok((entries, next)) => 0 <= pos < next <= input.len() && Value::Dict(entries).wf(),
            Err(_) => true,
        },
    decreases input.len() - pos, 1nat,
{
    if pos < 0 || pos >= input.len() || input[pos] == 0x65u8 {
    } else {
        lemma_decode_bounds(input, pos);
        match spec_decode(input, pos) {
            Ok((Value::Bytes(key), mid)) => {
                if pos < mid {
                    lemma_decode_bounds(input, mid);
                    match spec_decode(input, mid) {
                        Ok((v, next)) => {
                            if mid < next {
                                lemma_insert_wf(acc, key, v);
                                lemma_decode_entries_bounds(input, next, dict_insert(acc, key, v));
                            }
                        },
                        Err(_) => {},
                    }
                }
            },
            _ => {},
        }
    }
}

/// Binding an admissible key and value in an admissible dictionary leaves it
/// admissible.
pub proof fn lemma_insert_wf(entries: Entries, key: Seq<u8>, value: Value)
    requires
        Value::Dict(entries).wf(),
        key.len() <= usize::MAX,
        value.wf(),
    ensures
        Value::Dict(dict_insert(entries, key, value)).wf(),
{
    lemma_insert_sorted(entries, key, value);
    lemma_wf_dict(entries);
    lemma_wf_dict(dict_insert(entries, key, value));
    super::bencode::lemma_lower_bound(entries, key, 0);
    let p = super::bencode::lower_bound(entries, key, 0);
    let out = dict_insert(entries, key, value);
    assert forall|i: int| 0 <= i < out.len() implies (#[trigger] out[i]).1.wf() && out[i].0.len()
        <= usize::MAX by {
        if p < entries.len() && entries[p].0 == key {
            if i != p {
                assert(out[i] == entries[i]);
            }
        } else {
            if i < p {
                assert(out[i] == entries[i]);
            } else if i > p {
                assert(out[i] == entries[i - 1]);
            }
        }
    }
}

/// Decodes the value that starts at `*pos` in `input` and moves `*pos` past
/// it. On an error `*pos` stays where it was.
pub fn decode(input: &[u8], pos: &mut usize) -> (r: Result<Bencode, DecodeError>)
    ensures
        match spec_decode(input@, *old(pos) as int) {
            Ok((v, next)) => r.is_ok() && r.unwrap()@ == v && *final(pos) == next && v.wf(),
            Err(e) => r == Err::<Bencode, DecodeError>(e),
        },
        r is Err ==> *final(pos) == *old(pos),
    decreases input@.len() - *old(pos),
{
    let start: usize = *pos;
    let total: usize = input.len();
    proof {
        lemma_decode_bounds(input@, start as int);
    }
    if start >= total {
        *pos = start;
            return Err(DecodeError::UnexpectedEof);
    }
    let c = input[start];
    if c == 0x69 {
        let mut end: usize = start + 1;
        while end < input.len() && input[end] != 0x65
            invariant
                start + 1 <= end <= input@.len(),
                find_byte(input@, start + 1, 0x65u8) == find_byte(input@, end as int, 0x65u8),
            decreases input@.len() - end,
        {
            end = end + 1;
        }
        *pos = end;
        if end >= input.len() {
            *pos = start;
            return Err(DecodeError::UnexpectedEof);
        }
        match parse_i64(input, start + 1, end) {
            Some(n) => {
                *pos = end + 1;
                Ok(Bencode::Int(n))
            },
            None => {
                *pos = start;
                Err(DecodeError::InvalidData)
            },
        }
    } else if c == 0x6c {
        *pos = start + 1;
        let mut list: Vec<Bencode> = Vec::new();
        proof {
            assert(list_view(list@) =~= Seq::<Value>::empty());
            lemma_wf_list(list_view(list@));
        }
        while *pos < input.len() && input[*pos as usize] != 0x65
            invariant
                start == *old(pos),
                start < input@.len(),
                input@[start as int] == 0x6cu8,
                start + 1 <= *pos <= input@.len(),
                input@.len() <= usize::MAX,
                Value::List(list_view(list@)).wf(),
                decode_items(input@, start + 1, Seq::empty()) == decode_items(
                    input@,
                    *pos as int,
                    list_view(list@),
                ),
            decreases input@.len() - *pos,
        {
            let ghost before = *pos;
            let ghost acc = list_view(list@);
            proof {
                lemma_decode_bounds(input@, before as int);
            }
            match decode(input, pos) {
                Ok(val) => {
                    list.push(val);
                    proof {
                        let acc2 = list_view(list@);
                        assert(acc2 =~= acc.push(val@));
                        lemma_wf_list(acc);
                        lemma_wf_list(acc2);
                        assert forall|i: int| 0 <= i < acc2.len() implies (#[trigger] acc2[i]).wf() by {
                            if i < acc.len() {
                                assert(acc2[i] == acc[i]);
                            }
                        }
                    }
                },
                Err(_) => {
                    *pos = start;
            return Err(DecodeError::InvalidData);
                },
            }
        }
        if *pos >= input.len() {
            *pos = start;
            return Err(DecodeError::UnexpectedEof);
        }
        *pos = *pos + 1;
        proof {
            lemma_view_list(list);
        }
        Ok(Bencode::List(list))
    } else if c == 0x64 {
        *pos = start + 1;
        let mut dict: Vec<(Vec<u8>, Bencode)> = Vec::new();
        proof {
            assert(entries_view(dict@) =~= Seq::<(Seq<u8>, Value)>::empty());
            lemma_wf_dict(entries_view(dict@));
        }
        while *pos < input.len() && input[*pos as usize] != 0x65
            invariant
                start == *old(pos),
                start < input@.len(),
                input@[start as int] == 0x64u8,
                start + 1 <= *pos <= input@.len(),
                input@.len() <= usize::MAX,
                Value::Dict(entries_view(dict@)).wf(),
                decode_entries(input@, start + 1, Seq::empty()) == decode_entries(
                    input@,
                    *pos as int,
                    entries_view(dict@),
                ),
            decreases input@.len() - *pos,
        {
            let ghost before = *pos;
            let ghost acc = entries_view(dict@);
            proof {
                lemma_decode_bounds(input@, before as int);
            }
            let key = match decode(input, pos) {
                Ok(Bencode::Bytes(b)) => b,
                _ => {
                    *pos = start;
            return Err(DecodeError::InvalidData);
                },
            };
            let ghost mid = *pos;
            proof {
                lemma_decode_bounds(input@, mid as int);
            }
            let val = match decode(input, pos) {
                Ok(val) => val,
                Err(_) => {
                    *pos = start;
            return Err(DecodeError::InvalidData);
                },
            };
            proof {
                lemma_insert_wf(acc, key@, val@);
            }
            insert_entry(&mut dict, key, val);
        }
        if *pos >= input.len() {
            *pos = start;
            return Err(DecodeError::UnexpectedEof);
        }
        *pos = *pos + 1;
        proof {
            lemma_view_dict(dict);
        }
        Ok(Bencode::Dict(dict))
    } else if c >= 0x30 && c <= 0x39 {
        let mut colon: usize = start;
        while colon < input.len() && input[colon] != 0x3a
            invariant
                start <= colon <= input@.len(),
                find_byte(input@, start as int, 0x3au8) == find_byte(input@, colon as int, 0x3au8),
            decreases input@.len() - colon,
        {
            colon = colon + 1;
        }
        *pos = colon;
        if colon >= input.len() {
            *pos = start;
            return Err(DecodeError::UnexpectedEof);
        }
        let len = match parse_digits(input, start, colon, usize::MAX as u64) {
            Some(n) => n as usize,
            None => {
                *pos = start;
            return Err(DecodeError::InvalidData);
            },
        };
        *pos = colon + 1;
        if len > input.len() - (colon + 1) {
            *pos = start;
            return Err(DecodeError::UnexpectedEof);
        }
        let bytes = vstd::slice::slice_to_vec(vstd::slice::slice_subrange(input, colon + 1, colon + 1 + len));
        *pos = colon + 1 + len;
        Ok(Bencode::Bytes(bytes))
    } else {
        Err(DecodeError::InvalidData)
    }
}

} // verus!
