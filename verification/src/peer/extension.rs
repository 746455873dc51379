use vstd::prelude::*;
use crate::bencoding::bencode::{Bencode, Entries, Value, dict_insert, entries_view, insert_entry, lemma_view_dict};
use crate::bencoding::decoder::{decode, spec_decode};
use crate::bencoding::encoder::spec_encode;
use crate::text::{ascii, ascii_bytes};

verus! {

/// The low eight bits of `i`, as an unsigned number.
pub open spec fn low_u8(i: int) -> u8 {
    (i % 0x100) as u8
}

/// The low 16 bits of `i`, as an unsigned number.
pub open spec fn low_u16(i: int) -> u16 {
    (i % 0x1_0000) as u16
}

/// The low 32 bits of `i`, as an unsigned number.
pub open spec fn low_u32(i: int) -> u32 {
    (i % 0x1_0000_0000) as u32
}

/// The low bits of `i` below `modulus`, a power of two up to 2^32.
fn low_bits(i: i64, modulus: u64) -> (r: u64)
    requires
        0 < modulus <= 0x1_0000_0000,
    ensures
        r == (i as int) % (modulus as int),
{
    if i >= 0 {
        (i as u64) % modulus
    } else {
        // -(i + 1) is not negative, and i = -(-(i + 1)) - 1.
        let k: u64 = ((-(i + 1)) as u64) % modulus;
        proof {
            let m = modulus as int;
            let q = (-(i + 1)) as int / m;
            assert(-(i + 1) == q * m + k) by {
                vstd::arithmetic::div_mod::lemma_fundamental_div_mod(-(i + 1) as int, m);
                assert(m * q == q * m) by (nonlinear_arith);
            }
            assert(i == (-q - 1) * m + (m - 1 - k)) by (nonlinear_arith)
                requires
                    -(i + 1) == q * m + k,
            ;
            vstd::arithmetic::div_mod::lemma_fundamental_div_mod_converse(
                i as int,
                m,
                -q - 1,
                m - 1 - k,
            );
        }
        modulus - 1 - k
    }
}

/// The low eight bits of `i`.
pub fn wrap_u8(i: i64) -> (r: u8)
    ensures
        r == low_u8(i as int),
{
    low_bits(i, 0x100) as u8
}

/// The low 16 bits of `i`.
pub fn wrap_u16(i: i64) -> (r: u16)
    ensures
        r == low_u16(i as int),
{
    low_bits(i, 0x1_0000) as u16
}

/// The low 32 bits of `i`.
pub fn wrap_u32(i: i64) -> (r: u32)
    ensures
        r == low_u32(i as int),
{
    low_bits(i, 0x1_0000_0000) as u32
}

/// What the extension handshake of a peer says of the extensions that this
/// library uses.
#[derive(Debug, Clone, Copy, PartialEq, Eq, Structural)]
pub struct ExtensionInfo {
    /// The id that the peer gave to peer exchange.
    pub ut_pex: Option<u8>,
    /// The id that the peer gave to the transfer of metadata.
    pub ut_metadata: Option<u8>,
    /// The size in bytes of the `info` dictionary, as the peer gives it.
    pub metadata_size: Option<u32>,
}

/// The id that the dictionary `m` gives to the extension `name`: the low
/// eight bits of the integer bound to it.
pub open spec fn extension_id(m: Option<Value>, name: Seq<u8>) -> Option<u8> {
    match m {
        Some(m) => match m.lookup(name) {
            Some(Value::Int(x)) => Some(low_u8(x)),
            _ => None,
        },
        None => None,
    }
}

/// What the payload of an extension handshake says: the ids bound to
/// `ut_pex` and `ut_metadata` in its dictionary `m`, and the low 32 bits of
/// its `metadata_size`. A payload that does not decode says nothing.
pub open spec fn extension_info(payload: Seq<u8>) -> ExtensionInfo {
    match spec_decode(payload, 0) {
        Ok((root, _)) => ExtensionInfo {
            ut_pex: extension_id(root.lookup(ascii("m")), ascii("ut_pex")),
            ut_metadata: extension_id(root.lookup(ascii("m")), ascii("ut_metadata")),
            metadata_size: match root.lookup(ascii("metadata_size")) {
                Some(Value::Int(n)) => Some(low_u32(n)),
                _ => None,
            },
        },
        Err(_) => ExtensionInfo { ut_pex: None, ut_metadata: None, metadata_size: None },
    }
}

/// The dictionary `m` of our extension handshake: the ids that we give to
/// the extensions, each where we give one.
pub open spec fn our_extensions(ut_pex: Option<u8>, ut_metadata: Option<u8>) -> Entries {
    let with_metadata: Entries = match ut_metadata {
        Some(id) => dict_insert(Seq::empty(), ascii("ut_metadata"), Value::Int(id as int)),
        None => Seq::empty(),
    };
    match ut_pex {
        Some(id) => dict_insert(with_metadata, ascii("ut_pex"), Value::Int(id as int)),
        None => with_metadata,
    }
}

/// The payload of our extension handshake: the encoding of a dictionary
/// that binds `m` to the ids that we give to the extensions.
pub open spec fn handshake_payload(ut_pex: Option<u8>, ut_metadata: Option<u8>) -> Seq<u8> {
    spec_encode(
        Value::Dict(
            dict_insert(Seq::empty(), ascii("m"), Value::Dict(our_extensions(ut_pex, ut_metadata))),
        ),
    )
}

/// The id that the dictionary `m` gives to the extension `name`.
fn read_extension_id(m: Option<&Bencode>, name: &[u8]) -> (r: Option<u8>)
    ensures
        r == extension_id(
            match m {
                Some(v) => Some(v@),
                None => None,
            },
            name@,
        ),
{
    match m {
        Some(m) => match m.get(name) {
            Some(Bencode::Int(x)) => Some(wrap_u8(*x)),
            _ => None,
        },
        None => None,
    }
}

/// What the payload of a peer's extension handshake says.
pub fn parse_extension_handshake(payload: &[u8]) -> (info: ExtensionInfo)
    ensures
        info == extension_info(payload@),
{
    proof {
        reveal_strlit("m");
        reveal_strlit("ut_pex");
        reveal_strlit("ut_metadata");
        reveal_strlit("metadata_size");
    }
    let mut pos: usize = 0;
    match decode(payload, &mut pos) {
        Ok(root) => {
            let m = root.get(ascii_bytes("m").as_slice());
            let ut_pex = read_extension_id(m, ascii_bytes("ut_pex").as_slice());
            let ut_metadata = read_extension_id(m, ascii_bytes("ut_metadata").as_slice());
            let metadata_size = match root.get(ascii_bytes("metadata_size").as_slice()) {
                Some(Bencode::Int(n)) => Some(wrap_u32(*n)),
                _ => None,
            };
            ExtensionInfo { ut_pex, ut_metadata, metadata_size }
        },
        Err(_) => ExtensionInfo { ut_pex: None, ut_metadata: None, metadata_size: None },
    }
}

/// The payload of our extension handshake, with the ids that we give to
/// peer exchange and to the transfer of metadata.
pub fn extension_handshake(ut_pex: Option<u8>, ut_metadata: Option<u8>) -> (out: Vec<u8>)
    ensures
        out@ == handshake_payload(ut_pex, ut_metadata),
{
    proof {
        reveal_strlit("m");
        reveal_strlit("ut_pex");
        reveal_strlit("ut_metadata");
    }
    let mut m: Vec<(Vec<u8>, Bencode)> = Vec::new();
    assert(entries_view(m@) =~= Seq::<(Seq<u8>, Value)>::empty());
    match ut_metadata {
        Some(id) => {
            insert_entry(&mut m, ascii_bytes("ut_metadata"), Bencode::Int(id as i64));
        },
        None => {},
    }
    match ut_pex {
        Some(id) => {
            insert_entry(&mut m, ascii_bytes("ut_pex"), Bencode::Int(id as i64));
        },
        None => {},
    }
    let mut root: Vec<(Vec<u8>, Bencode)> = Vec::new();
    assert(entries_view(root@) =~= Seq::<(Seq<u8>, Value)>::empty());
    proof {
        lemma_view_dict(m);
    }
    insert_entry(&mut root, ascii_bytes("m"), Bencode::Dict(m));
    proof {
        lemma_view_dict(root);
    }
    Bencode::Dict(root).encode()
}

} // verus!
