use vstd::prelude::*;
use crate::lex_order::{bytes_lt, is_equal, is_less, lemma_bytes_lt_total, lemma_bytes_lt_trans};

verus! {

/// The mathematical content of a bencoded value.
///
/// A dictionary is the sequence of its entries in the order in which they are
/// written out; see [`Value::wf`] for the order that a dictionary keeps.
pub ghost enum Value {
    Int(int),
    Bytes(Seq<u8>),
    List(Seq<Value>),
    Dict(Seq<(Seq<u8>, Value)>),
}

/// The entries of a dictionary, as contracts see them.
pub type Entries = Seq<(Seq<u8>, Value)>;

/// Whether the keys of `entries` are strictly increasing in lexicographic
/// order, so that no key occurs twice.
pub open spec fn sorted_keys(entries: Entries) -> bool {
    forall|i: int, j: int|
        0 <= i < j < entries.len() ==> bytes_lt(#[trigger] entries[i].0, #[trigger] entries[j].0)
}

/// The index of the first entry at or after `i` whose key is not below `key`,
/// or the number of entries if there is none.
pub open spec fn lower_bound(entries: Entries, key: Seq<u8>, i: int) -> int
    decreases entries.len() - i,
{
    if i < 0 || i >= entries.len() || !bytes_lt(entries[i].0, key) {
        i
    } else {
        lower_bound(entries, key, i + 1)
    }
}

/// The entries after `key` has been bound to `value`: an entry with that key
/// is replaced, otherwise the new entry goes before the first greater key.
pub open spec fn dict_insert(entries: Entries, key: Seq<u8>, value: Value) -> Entries {
    let p = lower_bound(entries, key, 0);
    if p < entries.len() && entries[p].0 == key {
        entries.update(p, (key, value))
    } else {
        entries.insert(p, (key, value))
    }
}

/// The index of the first entry at or after `i` whose key is `key`, or the
/// number of entries if there is none.
pub open spec fn key_index(entries: Entries, key: Seq<u8>, i: int) -> int
    decreases entries.len() - i,
{
    if i < 0 || i >= entries.len() || entries[i].0 == key {
        i
    } else {
        key_index(entries, key, i + 1)
    }
}

/// The value that the first entry with key `key` holds.
pub open spec fn dict_lookup(entries: Entries, key: Seq<u8>) -> Option<Value> {
    let p = key_index(entries, key, 0);
    if p < entries.len() {
        Some(entries[p].1)
    } else {
        None
    }
}

impl Value {
    /// Whether a value is admissible: its integers fit 64 bits, signed, its byte
    /// strings have a length that the machine can hold, and every dictionary
    /// in it has its keys in strictly increasing lexicographic order.
    pub open spec fn wf(self) -> bool
        decreases self,
    {
        match self {
            Value::Int(i) => i64::MIN <= i <= i64::MAX,
            Value::Bytes(b) => b.len() <= usize::MAX,
            Value::List(items) => forall|i: int| 0 <= i < items.len() ==> (#[trigger] items[i]).wf(),
            Value::Dict(entries) => {
                &&& forall|i: int| 0 <= i < entries.len() ==> (#[trigger] entries[i]).1.wf()
                &&& forall|i: int|
                    0 <= i < entries.len() ==> (#[trigger] entries[i]).0.len() <= usize::MAX
                &&& sorted_keys(entries)
            },
        }
    }

    /// The value bound to `key`, where `self` is a dictionary that has it.
    pub open spec fn lookup(self, key: Seq<u8>) -> Option<Value> {
        match self {
            Value::Dict(entries) => dict_lookup(entries, key),
            _ => None,
        }
    }
}

/// A bencoded value.
///
/// `Dict` holds its entries as key and value pairs; the functions of this
/// crate that build one keep the keys in strictly increasing lexicographic
/// order.
#[derive(Debug)]
pub enum Bencode {
    Int(i64),
    Bytes(Vec<u8>),
    List(Vec<Bencode>),
    Dict(Vec<(Vec<u8>, Bencode)>),
}

/// The contents of a list of values.
pub open spec fn list_view(items: Seq<Bencode>) -> Seq<Value> {
    Seq::new(items.len(), |i: int| items[i]@)
}

/// The contents of the entries of a dictionary.
pub open spec fn entries_view(entries: Seq<(Vec<u8>, Bencode)>) -> Entries {
    Seq::new(entries.len(), |i: int| (entries[i].0@, entries[i].1@))
}

impl Bencode {
    /// The content of the value: that of each item of a list, and of each
    /// key and value of a dictionary, in their order.
    pub open spec fn content(&self) -> Value
        decreases self,
    {
        match self {
            Bencode::Int(i) => Value::Int(*i as int),
            Bencode::Bytes(b) => Value::Bytes(b.view()),
            Bencode::List(items) => Value::List(
                Seq::new(
                    items.len() as nat,
                    |i: int|
                        if 0 <= i < items.len() {
                            items[i].content()
                        } else {
                            Value::Int(0)
                        },
                ),
            ),
            Bencode::Dict(entries) => Value::Dict(
                Seq::new(
                    entries.len() as nat,
                    |i: int|
                        if 0 <= i < entries.len() {
                            (entries[i].0.view(), entries[i].1.content())
                        } else {
                            (Seq::empty(), Value::Int(0))
                        },
                ),
            ),
        }
    }
}

impl View for Bencode {
    type V = Value;

    open spec fn view(&self) -> Value {
        self.content()
    }
}

/// A list is viewed item by item.
pub proof fn lemma_view_list(items: Vec<Bencode>)
    ensures
        Bencode::List(items)@ == Value::List(list_view(items@)),
{
    assert(Bencode::List(items)@->List_0 =~= list_view(items@));
}

/// A dictionary is viewed entry by entry.
pub proof fn lemma_view_dict(entries: Vec<(Vec<u8>, Bencode)>)
    ensures
        Bencode::Dict(entries)@ == Value::Dict(entries_view(entries@)),
{
    assert(Bencode::Dict(entries)@->Dict_0 =~= entries_view(entries@));
}

/// A list is admissible where each of its items is.
pub proof fn lemma_wf_list(items: Seq<Value>)
    ensures
        Value::List(items).wf() <==> forall|i: int|
            0 <= i < items.len() ==> (#[trigger] items[i]).wf(),
{
    let v = Value::List(items);
    if v.wf() {
        assert forall|i: int| 0 <= i < items.len() implies (#[trigger] items[i]).wf() by {
            assert(decreases_to!(v => v->List_0));
            assert(decreases_to!(items => items[i]));
            assert(decreases_to!(v => items[i]));
        }
    }
    if forall|i: int| 0 <= i < items.len() ==> (#[trigger] items[i]).wf() {
        assert forall|i: int| 0 <= i < items.len() implies decreases_to!(v => #[trigger] items[i]) by {
            assert(decreases_to!(v => v->List_0));
            assert(decreases_to!(items => items[i]));
        }
        assert(v.wf());
    }
}

/// A dictionary is admissible where its keys are strictly increasing and
/// each of its keys and values is admissible.
pub proof fn lemma_wf_dict(entries: Entries)
    ensures
        Value::Dict(entries).wf() <==> {
            &&& forall|i: int| 0 <= i < entries.len() ==> (#[trigger] entries[i]).1.wf()
            &&& forall|i: int|
                0 <= i < entries.len() ==> (#[trigger] entries[i]).0.len() <= usize::MAX
            &&& sorted_keys(entries)
        },
{
    let v = Value::Dict(entries);
    if v.wf() {
        assert forall|i: int| 0 <= i < entries.len() implies (#[trigger] entries[i]).1.wf() by {
            assert(decreases_to!(v => v->Dict_0));
            assert(decreases_to!(entries => entries[i]));
            assert(decreases_to!(entries[i] => entries[i].1));
            assert(decreases_to!(v => entries[i].1));
        }
    }
    if forall|i: int| 0 <= i < entries.len() ==> (#[trigger] entries[i]).1.wf() {
        assert forall|i: int| 0 <= i < entries.len() implies decreases_to!(v => (#[trigger] entries[i]).1) by {
            assert(decreases_to!(v => v->Dict_0));
            assert(decreases_to!(entries => entries[i]));
            assert(decreases_to!(entries[i] => entries[i].1));
        }
    }
}

/// The lower bound of a key lies within the entries; every key before it is
/// below the key, and the key at it is not.
pub proof fn lemma_lower_bound(entries: Entries, key: Seq<u8>, i: int)
    requires
        0 <= i <= entries.len(),
    ensures
        i <= lower_bound(entries, key, i) <= entries.len(),
        forall|j: int| i <= j < lower_bound(entries, key, i) ==> bytes_lt(entries[j].0, key),
        lower_bound(entries, key, i) < entries.len() ==> !bytes_lt(
            entries[lower_bound(entries, key, i)].0,
            key,
        ),
    decreases entries.len() - i,
{
    if i < entries.len() && bytes_lt(entries[i].0, key) {
        lemma_lower_bound(entries, key, i + 1);
    }
}

/// The index of a key lies within the entries; no key before it is the key,
/// and the key at it is.
pub proof fn lemma_key_index(entries: Entries, key: Seq<u8>, i: int)
    requires
        0 <= i <= entries.len(),
    ensures
        i <= key_index(entries, key, i) <= entries.len(),
        forall|j: int| i <= j < key_index(entries, key, i) ==> entries[j].0 != key,
        key_index(entries, key, i) < entries.len() ==> entries[key_index(entries, key, i)].0
            == key,
    decreases entries.len() - i,
{
    if i < entries.len() && entries[i].0 != key {
        lemma_key_index(entries, key, i + 1);
    }
}

/// Binding a key in entries with sorted keys leaves the keys sorted.
pub proof fn lemma_insert_sorted(entries: Entries, key: Seq<u8>, value: Value)
    requires
        sorted_keys(entries),
    ensures
        sorted_keys(dict_insert(entries, key, value)),
{
    let p = lower_bound(entries, key, 0);
    lemma_lower_bound(entries, key, 0);
    let out = dict_insert(entries, key, value);
    if p < entries.len() && entries[p].0 == key {
        assert forall|i: int, j: int| 0 <= i < j < out.len() implies bytes_lt(
            #[trigger] out[i].0,
            #[trigger] out[j].0,
        ) by {
            assert(out[i].0 == entries[i].0);
            assert(out[j].0 == entries[j].0);
        }
    } else {
        assert forall|i: int, j: int| 0 <= i < j < out.len() implies bytes_lt(
            #[trigger] out[i].0,
            #[trigger] out[j].0,
        ) by {
            if j < p {
                assert(out[i] == entries[i] && out[j] == entries[j]);
            } else if j == p {
                assert(out[i] == entries[i]);
            } else if i == p {
                assert(out[j] == entries[j - 1]);
                lemma_bytes_lt_total(entries[p].0, key);
                if j - 1 > p {
                    lemma_bytes_lt_trans(key, entries[p].0, entries[j - 1].0);
                }
            } else if i < p {
                assert(out[i] == entries[i] && out[j] == entries[j - 1]);
            } else {
                assert(out[i] == entries[i - 1] && out[j] == entries[j - 1]);
            }
        }
    }
}

/// Binding a key that is above every key of the entries adds it at the end.
pub proof fn lemma_insert_last(entries: Entries, key: Seq<u8>, value: Value)
    requires
        forall|i: int| 0 <= i < entries.len() ==> bytes_lt(#[trigger] entries[i].0, key),
    ensures
        dict_insert(entries, key, value) == entries.push((key, value)),
{
    lemma_lower_bound(entries, key, 0);
    let p = lower_bound(entries, key, 0);
    if p < entries.len() {
        assert(bytes_lt(entries[p].0, key));
    }
    assert(entries.insert(p, (key, value)) =~= entries.push((key, value)));
}

/// Binds `key` to `value` in the entries of a dictionary and keeps the keys in
/// order: an entry with that key is replaced.
pub fn insert_entry(entries: &mut Vec<(Vec<u8>, Bencode)>, key: Vec<u8>, value: Bencode)
    ensures
        entries_view(final(entries)@) == dict_insert(entries_view(old(entries)@), key@, value@),
{
    let ghost before = entries_view(entries@);
    let mut p: usize = 0;
    while p < entries.len() && is_less(entries[p].0.as_slice(), key.as_slice())
        invariant
            p <= entries@.len(),
            entries@ == old(entries)@,
            before == entries_view(entries@),
            lower_bound(before, key@, 0) == lower_bound(before, key@, p as int),
        decreases entries@.len() - p,
    {
        p = p + 1;
    }
    if p < entries.len() && is_equal(entries[p].0.as_slice(), key.as_slice()) {
        entries[p] = (key, value);
        assert(entries_view(entries@) =~= dict_insert(before, key@, value@));
    } else {
        entries.insert(p, (key, value));
        assert(entries_view(entries@) =~= dict_insert(before, key@, value@));
    }
}

/// The value bound to `key` in the entries of a dictionary.
pub fn lookup_entry<'a>(entries: &'a Vec<(Vec<u8>, Bencode)>, key: &[u8]) -> (r: Option<&'a Bencode>)
    ensures
        match dict_lookup(entries_view(entries@), key@) {
            Some(v) => r.is_some() && r.unwrap()@ == v,
            None => r.is_none(),
        },
{
    let ghost view = entries_view(entries@);
    let mut p: usize = 0;
    while p < entries.len()
        invariant
            p <= entries@.len(),
            view == entries_view(entries@),
            key_index(view, key@, 0) == key_index(view, key@, p as int),
        decreases entries@.len() - p,
    {
        if is_equal(entries[p].0.as_slice(), key) {
            return Some(&entries[p].1);
        }
        p = p + 1;
    }
    None
}

impl Bencode {
    /// The value bound to `key`, where `self` is a dictionary that has it.
    pub fn get(&self, key: &[u8]) -> (r: Option<&Bencode>)
        ensures
            match self@.lookup(key@) {
                Some(v) => r.is_some() && r.unwrap()@ == v,
                None => r.is_none(),
            },
    {
        match self {
            Bencode::Dict(entries) => {
                proof {
                    lemma_view_dict(*entries);
                }
                lookup_entry(entries, key)
            },
            _ => None,
        }
    }
}

} // verus!
