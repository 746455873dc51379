use vstd::prelude::*;
use super::bencode::{Bencode, Value};
use super::decoder::{decode, lemma_decode_bounds, spec_decode};
use crate::lex_order::is_equal;
use crate::text::{ascii, ascii_bytes};

verus! {

/// Why the bytes of a value could not be located.
#[derive(Debug, Clone, Copy, PartialEq, Eq, Structural)]
pub enum LocateError {
    /// The input is no dictionary, or a key or a value before the one
    /// looked for does not decode, or a key is no byte string.
    InvalidData,
    /// The dictionary ended, or the input did, before the key was seen.
    NotFound,
}

/// Where the value bound to `key` lies, in a dictionary whose next key
/// starts at `pos`: the index of its first byte and the index after its last.
/// The first entry with that key counts.
pub open spec fn locate_from(input: Seq<u8>, pos: int, key: Seq<u8>) -> Result<
    (int, int),
    LocateError,
>
    decreases input.len() - pos,
{
    if pos < 0 || pos >= input.len() || input[pos] == 0x65u8 {
        Err(LocateError::NotFound)
    } else {
        match spec_decode(input, pos) {
            Ok((Value::Bytes(k), mid)) => match spec_decode(input, mid) {
                Ok((_, next)) => if k == key {
                    Ok((mid, next))
                } else if pos < next <= input.len() {
                    locate_from(input, next, key)
                } else {
                    Err(LocateError::InvalidData)
                },
                Err(_) => Err(LocateError::InvalidData),
            },
            _ => Err(LocateError::InvalidData),
        }
    }
}

/// Where the value bound to `key` lies in the encoded dictionary `input`.
pub open spec fn spec_locate(input: Seq<u8>, key: Seq<u8>) -> Result<(int, int), LocateError> {
    if input.len() == 0 || input[0] != 0x64u8 {
        Err(LocateError::InvalidData)
    } else {
        locate_from(input, 1, key)
    }
}

/// The bytes that encode the value bound to `key` in the encoded dictionary
/// `input`, as they stand in the input.
pub fn locate<'a>(input: &'a [u8], key: &[u8]) -> (r: Result<&'a [u8], LocateError>)
    ensures
        match spec_locate(input@, key@) {
            Ok((from, to)) => r.is_ok() && 0 <= from <= to <= input@.len() && r.unwrap()@
                == input@.subrange(from, to),
            Err(e) => r == Err::<&[u8], LocateError>(e),
        },
{
    let total = input.len();
    if total == 0 || input[0] != 0x64 {
        return Err(LocateError::InvalidData);
    }
    let mut pos: usize = 1;
    while pos < total && input[pos] != 0x65
        invariant
            total == input@.len(),
            1 <= pos <= total,
            locate_from(input@, 1, key@) == locate_from(input@, pos as int, key@),
            input@[0] == 0x64u8,
        decreases total - pos,
    {
        let ghost before = pos;
        proof {
            lemma_decode_bounds(input@, before as int);
        }
        let k = match decode(input, &mut pos) {
            Ok(Bencode::Bytes(b)) => b,
            _ => {
                return Err(LocateError::InvalidData);
            },
        };
        let start = pos;
        proof {
            lemma_decode_bounds(input@, start as int);
        }
        match decode(input, &mut pos) {
            Ok(_) => {},
            Err(_) => {
                return Err(LocateError::InvalidData);
            },
        }
        if is_equal(k.as_slice(), key) {
            return Ok(vstd::slice::slice_subrange(input, start, pos));
        }
    }
    Err(LocateError::NotFound)
}

/// The bytes that encode the value bound to the key `info` in the encoded
/// dictionary `input`.
pub fn find_info_slice(input: &[u8]) -> (r: Result<&[u8], LocateError>)
    ensures
        match spec_locate(input@, ascii("info")) {
            Ok((from, to)) => r.is_ok() && 0 <= from <= to <= input@.len() && r.unwrap()@
                == input@.subrange(from, to),
            Err(e) => r == Err::<&[u8], LocateError>(e),
        },
{
    proof {
        reveal_strlit("info");
    }
    let key = ascii_bytes("info");
    locate(input, key.as_slice())
}

} // verus!
