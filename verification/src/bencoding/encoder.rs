use vstd::prelude::*;
use super::bencode::{Bencode, Entries, Value, entries_view, lemma_view_dict, lemma_view_list, list_view};
use crate::decimal::{decimal, push_decimal, push_signed_decimal, signed_decimal};

verus! {

/// The encoding of a byte string: its length in decimal, a colon, the bytes.
pub open spec fn encode_bytes(b: Seq<u8>) -> Seq<u8> {
    decimal(b.len()) + seq![0x3au8] + b
}

/// The encoding of a value.
///
/// An integer is written as `i`, its decimal numeral and `e`; a byte string
/// as its length, a colon and its bytes; a list as `l`, its items and `e`; a
/// dictionary as `d`, each key followed by its value, and `e`. The entries of
/// a dictionary are written in the order in which it holds them.
pub open spec fn spec_encode(v: Value) -> Seq<u8>
    decreases v,
{
    match v {
        Value::Int(i) => seq![0x69u8] + signed_decimal(i) + seq![0x65u8],
        Value::Bytes(b) => encode_bytes(b),
        Value::List(items) => seq![0x6cu8] + encode_items(items, 0) + seq![0x65u8],
        Value::Dict(entries) => seq![0x64u8] + encode_entries(entries, 0) + seq![0x65u8],
    }
}

/// The encodings of the items from index `i` on, one after the other.
pub open spec fn encode_items(items: Seq<Value>, i: int) -> Seq<u8>
    decreases items, items.len() - i,
{
    if i < 0 || i >= items.len() {
        Seq::empty()
    } else {
        spec_encode(items[i]) + encode_items(items, i + 1)
    }
}

/// The encodings of the entries from index `i` on: each key, as a byte
/// string, followed by its value.
pub open spec fn encode_entries(entries: Entries, i: int) -> Seq<u8>
    decreases entries, entries.len() - i,
{
    if i < 0 || i >= entries.len() {
        Seq::empty()
    } else {
        encode_bytes(entries[i].0) + spec_encode(entries[i].1) + encode_entries(entries, i + 1)
    }
}

/// Appends the encoding of a byte string to `out`.
pub fn encode_bytes_into(b: &[u8], out: &mut Vec<u8>)
    ensures
        final(out)@ == old(out)@ + encode_bytes(b@),
{
    push_decimal(out, b.len() as u64);
    out.push(0x3a);
    out.extend_from_slice(b);
    assert(final(out)@ =~= old(out)@ + encode_bytes(b@));
}

impl Bencode {
    /// Appends the encoding of the value to `out`.
    pub fn encode_into(&self, out: &mut Vec<u8>)
        ensures
            final(out)@ == old(out)@ + spec_encode(self@),
        decreases self,
    {
        match self {
            Bencode::Int(i) => {
                out.push(0x69);
                push_signed_decimal(out, *i);
                out.push(0x65);
                assert(out@ =~= old(out)@ + spec_encode(self@));
            },
            Bencode::Bytes(b) => {
                encode_bytes_into(b.as_slice(), out);
            },
            Bencode::List(items) => {
                proof {
                    lemma_view_list(*items);
                }
                let ghost views = list_view(items@);
                out.push(0x6c);
                let mut i: usize = 0;
                while i < items.len()
                    invariant
                        i <= items@.len(),
                        views == list_view(items@),
                        self == Bencode::List(*items),
                        out@ + encode_items(views, i as int) == old(out)@ + seq![0x6cu8]
                            + encode_items(views, 0),
                    decreases items@.len() - i,
                {
                    let ghost before = out@;
                    proof {
                        vstd::std_specs::vec::axiom_vec_index_decreases(*items, i as int);
                        assert(decreases_to!(*self => self->List_0));
                    }
                    items[i].encode_into(out);
                    proof {
                        assert(views[i as int] == items@[i as int]@);
                        assert(out@ + encode_items(views, i + 1) =~= before + encode_items(
                            views,
                            i as int,
                        ));
                    }
                    i = i + 1;
                }
                out.push(0x65);
                assert(out@ =~= old(out)@ + spec_encode(self@));
            },
            Bencode::Dict(entries) => {
                proof {
                    lemma_view_dict(*entries);
                }
                let ghost views = entries_view(entries@);
                out.push(0x64);
                let mut i: usize = 0;
                while i < entries.len()
                    invariant
                        i <= entries@.len(),
                        views == entries_view(entries@),
                        self == Bencode::Dict(*entries),
                        out@ + encode_entries(views, i as int) == old(out)@ + seq![0x64u8]
                            + encode_entries(views, 0),
                    decreases entries@.len() - i,
                {
                    let ghost before = out@;
                    encode_bytes_into(entries[i].0.as_slice(), out);
                    proof {
                        vstd::std_specs::vec::axiom_vec_index_decreases(*entries, i as int);
                        assert(decreases_to!(*self => self->Dict_0));
                        assert(decreases_to!(entries[i as int] => entries[i as int].1));
                    }
                    entries[i].1.encode_into(out);
                    proof {
                        assert(views[i as int] == (entries@[i as int].0@, entries@[i as int].1@));
                        assert(out@ + encode_entries(views, i + 1) =~= before + encode_entries(
                            views,
                            i as int,
                        ));
                    }
                    i = i + 1;
                }
                out.push(0x65);
                assert(out@ =~= old(out)@ + spec_encode(self@));
            },
        }
    }

    /// The encoding of the value.
    pub fn encode(&self) -> (out: Vec<u8>)
        ensures
            out@ == spec_encode(self@),
    {
        let mut out: Vec<u8> = Vec::new();
        self.encode_into(&mut out);
        assert(out@ =~= spec_encode(self@));
        out
    }
}

} // verus!
