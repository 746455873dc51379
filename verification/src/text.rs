//! ASCII text as bytes: the keys and words of the protocols.
use vstd::prelude::*;
use vstd::string::StrSliceExecFns;

verus! {

/// The bytes of an ASCII string: one byte for each character.
pub open spec fn ascii(s: &str) -> Seq<u8> {
    Seq::new(s@.len(), |i: int| s@[i] as u8)
}

/// The bytes of an ASCII string.
pub fn ascii_bytes(s: &str) -> (r: Vec<u8>)
    requires
        s.is_ascii(),
    ensures
        r@ == ascii(s),
{
    broadcast use vstd::string::is_ascii_spec_bytes;

    s.as_bytes_vec()
}

/// Whether `input` starts with the bytes `prefix`.
pub open spec fn has_prefix(input: Seq<u8>, prefix: Seq<u8>) -> bool {
    prefix.len() <= input.len() && input.subrange(0, prefix.len() as int) == prefix
}

/// Whether `input` starts with the bytes `prefix`.
pub fn starts_with(input: &[u8], prefix: &[u8]) -> (r: bool)
    ensures
        r == has_prefix(input@, prefix@),
{
    if prefix.len() > input.len() {
        return false;
    }
    let mut i: usize = 0;
    while i < prefix.len()
        invariant
            i <= prefix@.len() <= input@.len(),
            forall|j: int| 0 <= j < i ==> input@[j] == prefix@[j],
        decreases prefix@.len() - i,
    {
        if input[i] != prefix[i] {
            assert(input@.subrange(0, prefix@.len() as int)[i as int] != prefix@[i as int]);
            return false;
        }
        i = i + 1;
    }
    assert(input@.subrange(0, prefix@.len() as int) =~= prefix@);
    true
}

/// The text that `String::from_utf8_lossy` makes of `bytes`: the bytes read
/// as UTF-8, each invalid sequence replaced by the replacement character.
pub uninterp spec fn utf8_lossy(bytes: Seq<u8>) -> Seq<char>;

/// The text of `bytes`, by `String::from_utf8_lossy` of the standard
/// library. The contract names the result: it is a function of the bytes.
#[verifier::external_body]
pub(crate) fn lossy_string(bytes: &[u8]) -> (r: String)
    ensures
        r@ == utf8_lossy(bytes@),
{
    String::from_utf8_lossy(bytes).to_string()
}

/// The lines of `text`, as `str::lines` of the standard library splits
/// them: at each line feed, a carriage return before it left out.
pub uninterp spec fn lines_of(text: Seq<char>) -> Seq<Seq<char>>;

/// The words of `text`, as `str::split_whitespace` of the standard library
/// splits them: what stands between runs of white space.
pub uninterp spec fn words_of(text: Seq<char>) -> Seq<Seq<char>>;

/// The text of each of `strings`.
pub open spec fn texts_of(strings: Seq<String>) -> Seq<Seq<char>> {
    Seq::new(strings.len(), |i: int| strings[i]@)
}

/// The lines of `text`, by `str::lines` of the standard library. The
/// contract names the result: it is a function of the text.
#[verifier::external_body]
pub(crate) fn split_lines(text: &str) -> (lines: Vec<String>)
    ensures
        texts_of(lines@) == lines_of(text@),
{
    text.lines().map(|line| line.to_string()).collect()
}

/// The words of `text`, by `str::split_whitespace` of the standard
/// library. The contract names the result: it is a function of the text.
#[verifier::external_body]
pub(crate) fn split_words(text: &str) -> (words: Vec<String>)
    ensures
        texts_of(words@) == words_of(text@),
{
    text.split_whitespace().map(|word| word.to_string()).collect()
}

} // verus!
