//! What holds of the codec as a whole: decoding undoes encoding, and a value
//! is located in an encoded dictionary exactly where its encoding stands.
use vstd::prelude::*;
use super::bencode::{Entries, Value, dict_lookup, key_index, lemma_insert_last, lemma_key_index, lemma_wf_dict, lemma_wf_list};
use crate::lex_order::bytes_lt;
use super::decoder::{DecodeError, decode_entries, decode_items, find_byte, spec_decode};
use super::encoder::{encode_bytes, encode_entries, encode_items, spec_encode};
use super::info_slice::{LocateError, locate_from, spec_locate};
use crate::decimal::{decimal, is_digit, lemma_decimal_value, lemma_parse_signed_decimal, parse_digits_spec, signed_decimal};

verus! {

/// Whether the bytes `x` stand in `input` from index `pos` on.
pub open spec fn holds_at(input: Seq<u8>, pos: int, x: Seq<u8>) -> bool {
    &&& 0 <= pos
    &&& pos + x.len() <= input.len()
    &&& forall|k: int| 0 <= k < x.len() ==> input[pos + k] == #[trigger] x[k]
}

/// Two strings stand one after the other where their concatenation stands.
pub proof fn lemma_holds_split(input: Seq<u8>, pos: int, a: Seq<u8>, b: Seq<u8>)
    requires
        holds_at(input, pos, a + b),
    ensures
        holds_at(input, pos, a),
        holds_at(input, pos + a.len(), b),
{
    let ab = a + b;
    assert forall|k: int| 0 <= k < a.len() implies input[pos + k] == #[trigger] a[k] by {
        assert(ab[k] == a[k]);
    }
    assert forall|k: int| 0 <= k < b.len() implies input[pos + a.len() + k] == #[trigger] b[k] by {
        assert(ab[a.len() + k] == b[k]);
    }
}

/// What stands in `input` from `pos` on is the part of `input` of that length.
pub proof fn lemma_holds_subrange(input: Seq<u8>, pos: int, x: Seq<u8>)
    requires
        holds_at(input, pos, x),
    ensures
        input.subrange(pos, pos + x.len()) == x,
{
    assert(input.subrange(pos, pos + x.len()) =~= x);
}

/// A string stands at index 0 of itself.
pub proof fn lemma_holds_self(x: Seq<u8>)
    ensures
        holds_at(x, 0, x),
{
}

/// The first byte `b` at or after `from` is at `target`, where `target` holds
/// `b` and no index between does.
pub proof fn lemma_find_byte_is(input: Seq<u8>, from: int, b: u8, target: int)
    requires
        0 <= from <= target < input.len(),
        input[target] == b,
        forall|j: int| from <= j < target ==> input[j] != b,
    ensures
        find_byte(input, from, b) == target,
    decreases target - from,
{
    if from < target {
        lemma_find_byte_is(input, from + 1, b, target);
    }
}

/// An encoding is not empty, and its first byte is not the `e` that closes a
/// list or a dictionary.
pub proof fn lemma_encode_head(v: Value)
    ensures
        spec_encode(v).len() >= 1,
        spec_encode(v)[0] != 0x65u8,
        v is Int ==> spec_encode(v)[0] == 0x69u8,
        v is List ==> spec_encode(v)[0] == 0x6cu8,
        v is Dict ==> spec_encode(v)[0] == 0x64u8,
        v is Bytes ==> is_digit(spec_encode(v)[0]),
{
    match v {
        Value::Bytes(b) => {
            lemma_decimal_value(b.len());
            assert(spec_encode(v)[0] == decimal(b.len())[0]);
        },
        _ => {},
    }
}

/// Decoding the encoding of a byte string gives the byte string back,
/// wherever in the input the encoding stands, and ends right after it.
pub proof fn lemma_decode_encoded_bytes(b: Seq<u8>, input: Seq<u8>, pos: int)
    requires
        b.len() <= usize::MAX,
        holds_at(input, pos, encode_bytes(b)),
    ensures
        spec_decode(input, pos) == Ok::<(Value, int), DecodeError>(
            (Value::Bytes(b), pos + encode_bytes(b).len()),
        ),
{
    let enc = encode_bytes(b);
    lemma_encode_head(Value::Bytes(b));
    assert(input[pos + 0] == enc[0]);
    let d = decimal(b.len());
    let colon = pos + d.len();
    lemma_decimal_value(b.len());
    lemma_holds_split(input, pos, d + seq![0x3au8], b);
    lemma_holds_split(input, pos, d, seq![0x3au8]);
    assert(input[colon] == 0x3au8) by {
        assert(seq![0x3au8][0] == 0x3au8);
        assert(input[pos + d.len() + 0] == seq![0x3au8][0]);
    }
    assert forall|j: int| pos <= j < colon implies input[j] != 0x3au8 by {
        let k = j - pos;
        assert(input[pos + k] == d[k]);
        assert(is_digit(d[k]));
    }
    lemma_find_byte_is(input, pos, 0x3au8, colon);
    lemma_holds_subrange(input, pos, d);
    lemma_holds_subrange(input, colon + 1, b);
    assert(parse_digits_spec(d, usize::MAX as nat) == Some(b.len()));
}

/// Decoding what `encode` wrote for an admissible value gives the value
/// back, wherever in the input the encoding stands, and ends right after it.
pub proof fn lemma_decode_encoded(v: Value, input: Seq<u8>, pos: int)
    requires
        v.wf(),
        holds_at(input, pos, spec_encode(v)),
    ensures
        spec_decode(input, pos) == Ok::<(Value, int), DecodeError>(
            (v, pos + spec_encode(v).len()),
        ),
    decreases v, 0nat,
{
    let enc = spec_encode(v);
    lemma_encode_head(v);
    assert(input[pos + 0] == enc[0]);
    match v {
        Value::Int(i) => {
            let sd = signed_decimal(i);
            let end = pos + 1 + sd.len();
            lemma_holds_split(input, pos, seq![0x69u8] + sd, seq![0x65u8]);
            lemma_holds_split(input, pos, seq![0x69u8], sd);
            assert(input[end] == 0x65u8) by {
                assert(seq![0x65u8][0] == 0x65u8);
                assert(input[pos + (1 + sd.len()) + 0] == seq![0x65u8][0]);
            }
            if i < 0 {
                lemma_decimal_value((-i) as nat);
            } else {
                lemma_decimal_value(i as nat);
            }
            assert forall|j: int| pos + 1 <= j < end implies input[j] != 0x65u8 by {
                let k = j - (pos + 1);
                assert(input[pos + 1 + k] == sd[k]);
                if i < 0 {
                    if k > 0 {
                        assert(sd[k] == decimal((-i) as nat)[k - 1]);
                        assert(is_digit(decimal((-i) as nat)[k - 1]));
                    }
                } else {
                    assert(is_digit(sd[k]));
                }
            }
            lemma_find_byte_is(input, pos + 1, 0x65u8, end);
            lemma_holds_subrange(input, pos + 1, sd);
            lemma_parse_signed_decimal(i);
        },
        Value::Bytes(b) => {
            lemma_decode_encoded_bytes(b, input, pos);
        },
        Value::List(items) => {
            let body = encode_items(items, 0);
            lemma_holds_split(input, pos, seq![0x6cu8] + body, seq![0x65u8]);
            lemma_holds_split(input, pos, seq![0x6cu8], body);
            assert(holds_at(input, pos + 1, body + seq![0x65u8])) by {
                let t = body + seq![0x65u8];
                assert forall|k: int| 0 <= k < t.len() implies input[pos + 1 + k] == #[trigger] t[k] by {
                    assert(enc[1 + k] == t[k]);
                }
            }
            assert(items.take(0) =~= Seq::<Value>::empty());
            lemma_decode_items_encoded(items, 0, input, pos + 1);
        },
        Value::Dict(entries) => {
            let body = encode_entries(entries, 0);
            lemma_holds_split(input, pos, seq![0x64u8] + body, seq![0x65u8]);
            lemma_holds_split(input, pos, seq![0x64u8], body);
            assert(holds_at(input, pos + 1, body + seq![0x65u8])) by {
                let t = body + seq![0x65u8];
                assert forall|k: int| 0 <= k < t.len() implies input[pos + 1 + k] == #[trigger] t[k] by {
                    assert(enc[1 + k] == t[k]);
                }
            }
            assert(entries.take(0) =~= Seq::<(Seq<u8>, Value)>::empty());
            lemma_decode_entries_encoded(entries, 0, input, pos + 1);
        },
    }
}

/// Decoding the items of an encoded list from item `i` on, after the items
/// before it, gives all the items.
pub proof fn lemma_decode_items_encoded(items: Seq<Value>, i: int, input: Seq<u8>, pos: int)
    requires
        Value::List(items).wf(),
        0 <= i <= items.len(),
        holds_at(input, pos, encode_items(items, i) + seq![0x65u8]),
    ensures
        decode_items(input, pos, items.take(i)) == Ok::<(Seq<Value>, int), DecodeError>(
            (items, pos + encode_items(items, i).len() + 1),
        ),
    decreases items, items.len() - i, 1nat,
{
    lemma_wf_list(items);
    let rest = encode_items(items, i);
    let tail = rest + seq![0x65u8];
    if i >= items.len() {
        assert(tail[0] == 0x65u8);
        assert(input[pos + 0] == tail[0]);
        assert(items.take(i) =~= items);
    } else {
        let v = items[i];
        let enc = spec_encode(v);
        let after = encode_items(items, i + 1);
        lemma_encode_head(v);
        assert(tail =~= enc + (after + seq![0x65u8]));
        lemma_holds_split(input, pos, enc, after + seq![0x65u8]);
        assert(input[pos + 0] == enc[0]);
        lemma_decode_encoded(v, input, pos);
        lemma_decode_items_encoded(items, i + 1, input, pos + enc.len());
        assert(items.take(i).push(v) =~= items.take(i + 1));
    }
}

/// Decoding the entries of an encoded dictionary from entry `i` on, after
/// the entries before it, gives all the entries.
pub proof fn lemma_decode_entries_encoded(entries: Entries, i: int, input: Seq<u8>, pos: int)
    requires
        Value::Dict(entries).wf(),
        0 <= i <= entries.len(),
        holds_at(input, pos, encode_entries(entries, i) + seq![0x65u8]),
    ensures
        decode_entries(input, pos, entries.take(i)) == Ok::<(Entries, int), DecodeError>(
            (entries, pos + encode_entries(entries, i).len() + 1),
        ),
    decreases entries, entries.len() - i, 1nat,
{
    lemma_wf_dict(entries);
    let rest = encode_entries(entries, i);
    let tail = rest + seq![0x65u8];
    if i >= entries.len() {
        assert(tail[0] == 0x65u8);
        assert(input[pos + 0] == tail[0]);
        assert(entries.take(i) =~= entries);
    } else {
        let key = entries[i].0;
        let v = entries[i].1;
        let kenc = encode_bytes(key);
        let venc = spec_encode(v);
        let after = encode_entries(entries, i + 1);
        lemma_encode_head(Value::Bytes(key));
        lemma_encode_head(v);
        assert(tail =~= kenc + (venc + (after + seq![0x65u8])));
        lemma_holds_split(input, pos, kenc, venc + (after + seq![0x65u8]));
        lemma_holds_split(input, pos + kenc.len(), venc, after + seq![0x65u8]);
        assert(input[pos + 0] == kenc[0]);
        lemma_decode_encoded_bytes(key, input, pos);
        assert(decreases_to!(entries => entries[i]));
        assert(decreases_to!(entries[i] => entries[i].1));
        lemma_decode_encoded(v, input, pos + kenc.len());
        let acc = entries.take(i);
        assert forall|j: int| 0 <= j < acc.len() implies bytes_lt(#[trigger] acc[j].0, key) by {
            assert(acc[j] == entries[j]);
        }
        lemma_insert_last(acc, key, v);
        assert(acc.push((key, v)) =~= entries.take(i + 1));
        lemma_decode_entries_encoded(entries, i + 1, input, pos + kenc.len() + venc.len());
    }
}

/// Decoding the encoding of an admissible value gives the value back and
/// uses up the whole encoding.
pub proof fn lemma_decode_encode_roundtrip(v: Value)
    requires
        v.wf(),
    ensures
        spec_decode(spec_encode(v), 0) == Ok::<(Value, int), DecodeError>(
            (v, spec_encode(v).len() as int),
        ),
{
    lemma_holds_self(spec_encode(v));
    lemma_decode_encoded(v, spec_encode(v), 0);
}

/// In the entries of an encoded dictionary from entry `i` on, the value of
/// the first entry with key `key` is located where its encoding stands, and
/// nothing is found where no entry has that key.
pub proof fn lemma_locate_from_encoded(
    entries: Entries,
    i: int,
    input: Seq<u8>,
    pos: int,
    key: Seq<u8>,
)
    requires
        Value::Dict(entries).wf(),
        0 <= i <= entries.len(),
        holds_at(input, pos, encode_entries(entries, i) + seq![0x65u8]),
    ensures
        match locate_from(input, pos, key) {
            Ok((from, to)) => {
                &&& key_index(entries, key, i) < entries.len()
                &&& 0 <= from <= to <= input.len()
                &&& input.subrange(from, to) == spec_encode(
                    entries[key_index(entries, key, i)].1,
                )
            },
            Err(e) => key_index(entries, key, i) >= entries.len() && e == LocateError::NotFound,
        },
    decreases entries.len() - i,
{
    lemma_wf_dict(entries);
    lemma_key_index(entries, key, i);
    let rest = encode_entries(entries, i);
    let tail = rest + seq![0x65u8];
    if i >= entries.len() {
        assert(tail[0] == 0x65u8);
        assert(input[pos + 0] == tail[0]);
    } else {
        let k = entries[i].0;
        let v = entries[i].1;
        let kenc = encode_bytes(k);
        let venc = spec_encode(v);
        let after = encode_entries(entries, i + 1);
        lemma_encode_head(Value::Bytes(k));
        lemma_encode_head(v);
        assert(tail =~= kenc + (venc + (after + seq![0x65u8])));
        lemma_holds_split(input, pos, kenc, venc + (after + seq![0x65u8]));
        lemma_holds_split(input, pos + kenc.len(), venc, after + seq![0x65u8]);
        assert(input[pos + 0] == kenc[0]);
        lemma_decode_encoded_bytes(k, input, pos);
        lemma_decode_encoded(v, input, pos + kenc.len());
        if k == key {
            lemma_holds_subrange(input, pos + kenc.len(), venc);
        } else {
            lemma_locate_from_encoded(entries, i + 1, input, pos + kenc.len() + venc.len(), key);
        }
    }
}

/// In the encoding of an admissible dictionary, the value bound to a key is
/// located exactly where its own encoding stands, and a key that the
/// dictionary lacks is not found.
pub proof fn lemma_locate_encoded(entries: Entries, key: Seq<u8>)
    requires
        Value::Dict(entries).wf(),
    ensures
        match spec_locate(spec_encode(Value::Dict(entries)), key) {
            Ok((from, to)) => {
                &&& 0 <= from <= to <= spec_encode(Value::Dict(entries)).len()
                &&& dict_lookup(entries, key) is Some
                &&& spec_encode(Value::Dict(entries)).subrange(from, to) == spec_encode(
                    dict_lookup(entries, key).unwrap(),
                )
            },
            Err(e) => dict_lookup(entries, key) is None && e == LocateError::NotFound,
        },
{
    let input = spec_encode(Value::Dict(entries));
    let body = encode_entries(entries, 0);
    lemma_holds_self(input);
    lemma_holds_split(input, 0, seq![0x64u8] + body, seq![0x65u8]);
    lemma_holds_split(input, 0, seq![0x64u8], body);
    assert(holds_at(input, 1, body + seq![0x65u8])) by {
        let t = body + seq![0x65u8];
        assert forall|k: int| 0 <= k < t.len() implies input[1 + k] == #[trigger] t[k] by {
            assert(input[1 + k] == t[k]);
        }
    }
    assert(input[0] == 0x64u8);
    lemma_locate_from_encoded(entries, 0, input, 1, key);
}

/// The index in the encoded entries of a dictionary at which the encoding
/// of entry `i` starts.
pub open spec fn entry_offset(entries: Entries, i: int) -> int {
    encode_entries(entries, 0).len() - encode_entries(entries, i).len()
}

/// The encoded entries from `b` on stand at the end of the encoded entries
/// from `a` on, and entries further on leave fewer bytes.
pub proof fn lemma_entries_suffix(entries: Entries, a: int, b: int)
    requires
        0 <= a <= b <= entries.len(),
    ensures
        encode_entries(entries, b).len() <= encode_entries(entries, a).len(),
        a < b ==> encode_entries(entries, b).len() < encode_entries(entries, a).len(),
        holds_at(
            encode_entries(entries, a),
            encode_entries(entries, a).len() - encode_entries(entries, b).len(),
            encode_entries(entries, b),
        ),
    decreases b - a,
{
    if a < b {
        lemma_entries_suffix(entries, a + 1, b);
        lemma_encode_head(Value::Bytes(entries[a].0));
        let head = encode_bytes(entries[a].0) + spec_encode(entries[a].1);
        let whole = encode_entries(entries, a);
        let rest = encode_entries(entries, a + 1);
        let tail = encode_entries(entries, b);
        assert(whole =~= head + rest);
        let at = rest.len() - tail.len();
        assert forall|k: int| 0 <= k < tail.len() implies whole[whole.len() - tail.len() + k]
            == #[trigger] tail[k] by {
            assert(rest[at + k] == tail[k]);
            assert(whole[head.len() + (at + k)] == rest[at + k]);
        }
    }
}

/// In the encoding of an admissible dictionary the keys are written in
/// strictly increasing lexicographic order: of two entries, the one with the
/// lesser key is written first, and each key stands, as a byte string, where
/// its entry starts.
pub proof fn lemma_keys_written_in_order(entries: Entries, i: int, j: int)
    requires
        Value::Dict(entries).wf(),
        0 <= i < j < entries.len(),
    ensures
        bytes_lt(entries[i].0, entries[j].0),
        0 <= entry_offset(entries, i) < entry_offset(entries, j),
        holds_at(encode_entries(entries, 0), entry_offset(entries, i), encode_bytes(entries[i].0)),
        holds_at(encode_entries(entries, 0), entry_offset(entries, j), encode_bytes(entries[j].0)),
{
    lemma_wf_dict(entries);
    lemma_entries_suffix(entries, 0, i);
    lemma_entries_suffix(entries, 0, j);
    lemma_entries_suffix(entries, i, j);
    lemma_entry_starts_with_key(entries, i);
    lemma_entry_starts_with_key(entries, j);
}

/// The encoding of the key of entry `i` stands where the entry starts.
proof fn lemma_entry_starts_with_key(entries: Entries, i: int)
    requires
        0 <= i < entries.len(),
    ensures
        holds_at(encode_entries(entries, 0), entry_offset(entries, i), encode_bytes(entries[i].0)),
{
    lemma_entries_suffix(entries, 0, i);
    let whole = encode_entries(entries, 0);
    let from = encode_entries(entries, i);
    let key = encode_bytes(entries[i].0);
    let at = entry_offset(entries, i);
    assert(from =~= key + (spec_encode(entries[i].1) + encode_entries(entries, i + 1)));
    assert forall|k: int| 0 <= k < key.len() implies whole[at + k] == #[trigger] key[k] by {
        assert(whole[at + k] == from[k]);
    }
}

} // verus!
