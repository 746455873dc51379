//! What holds of the framing as a whole: reading a frame undoes writing it,
//! and writing undoes reading.
use vstd::prelude::*;
use super::message::{MessageView, WireError, fits_frame, frame_len, frame_of, message_of, parse_frame, payload_of};
use crate::byte_order::{be_u32, lemma_be_u32_of_bytes, lemma_bytes_of_be_u32, u32_be};

verus! {

/// The payload of a message holds that message.
pub proof fn lemma_message_of_payload(m: MessageView)
    ensures
        message_of(payload_of(m)) == Ok::<MessageView, WireError>(m),
{
    let p = payload_of(m);
    match m {
        MessageView::Have(index) => {
            lemma_be_u32_of_bytes(index);
            assert(p.subrange(1, 5) =~= u32_be(index));
            assert(be_u32(p, 1) == be_u32(u32_be(index), 0));
        },
        MessageView::Bitfield(bits) => {
            assert(p.skip(1) =~= bits);
        },
        MessageView::Request { index, begin, length } => {
            lemma_three_words(p, index, begin, length);
        },
        MessageView::Piece { index, begin, block } => {
            lemma_be_u32_of_bytes(index);
            lemma_be_u32_of_bytes(begin);
            assert(p.subrange(1, 5) =~= u32_be(index));
            assert(p.subrange(5, 9) =~= u32_be(begin));
            assert(be_u32(p, 1) == be_u32(u32_be(index), 0));
            assert(be_u32(p, 5) == be_u32(u32_be(begin), 0));
            assert(p.skip(9) =~= block);
        },
        MessageView::Cancel { index, begin, length } => {
            lemma_three_words(p, index, begin, length);
        },
        MessageView::Extended { id, payload } => {
            assert(p.skip(2) =~= payload);
        },
        _ => {},
    }
}

/// A payload of an id byte and three numbers holds the three numbers.
proof fn lemma_three_words(p: Seq<u8>, a: u32, b: u32, c: u32)
    requires
        p.len() >= 1,
        p == seq![p[0]] + u32_be(a) + u32_be(b) + u32_be(c),
    ensures
        p.len() == 13,
        be_u32(p, 1) == a,
        be_u32(p, 5) == b,
        be_u32(p, 9) == c,
{
    lemma_be_u32_of_bytes(a);
    lemma_be_u32_of_bytes(b);
    lemma_be_u32_of_bytes(c);
    assert(p.subrange(1, 5) =~= u32_be(a));
    assert(p.subrange(5, 9) =~= u32_be(b));
    assert(p.subrange(9, 13) =~= u32_be(c));
    assert(be_u32(p, 1) == be_u32(u32_be(a), 0));
    assert(be_u32(p, 5) == be_u32(u32_be(b), 0));
    assert(be_u32(p, 9) == be_u32(u32_be(c), 0));
}

/// Reading the frame of a message gives the message back, whatever follows
/// the frame, and takes exactly the frame.
pub proof fn lemma_parse_frame_of(m: MessageView, rest: Seq<u8>)
    requires
        fits_frame(m),
    ensures
        parse_frame(frame_of(m) + rest) == Ok::<(MessageView, int), WireError>(
            (m, frame_of(m).len() as int),
        ),
{
    let p = payload_of(m);
    let input = frame_of(m) + rest;
    lemma_be_u32_of_bytes(p.len() as u32);
    assert(input.subrange(0, 4) =~= u32_be(p.len() as u32));
    assert(be_u32(input, 0) == be_u32(u32_be(p.len() as u32), 0));
    assert(input.subrange(4, frame_len(input)) =~= p);
    lemma_message_of_payload(m);
}

/// The message that a payload holds has that payload.
pub proof fn lemma_payload_of_message(p: Seq<u8>)
    requires
        message_of(p) is Ok,
    ensures
        payload_of(message_of(p).unwrap()) == p,
{
    let m = message_of(p).unwrap();
    if p.len() == 0 {
        assert(payload_of(m) =~= p);
    } else if p[0] <= 3 {
        assert(payload_of(m) =~= p);
    } else if p[0] == 4 {
        lemma_bytes_of_be_u32(p, 1);
        assert(payload_of(m) =~= p);
    } else if p[0] == 5 {
        assert(payload_of(m) =~= p);
    } else if p[0] == 6 || p[0] == 8 {
        lemma_bytes_of_be_u32(p, 1);
        lemma_bytes_of_be_u32(p, 5);
        lemma_bytes_of_be_u32(p, 9);
        assert(payload_of(m) =~= p);
    } else if p[0] == 7 {
        lemma_bytes_of_be_u32(p, 1);
        lemma_bytes_of_be_u32(p, 5);
        assert(payload_of(m) =~= p);
    } else if p[0] == 20 {
        assert(payload_of(m) =~= p);
    }
}

/// Writing the message that was read from a well-formed frame gives the
/// bytes of that frame back.
pub proof fn lemma_frame_of_parsed(input: Seq<u8>)
    requires
        parse_frame(input) is Ok,
    ensures
        fits_frame(parse_frame(input).unwrap().0),
        frame_of(parse_frame(input).unwrap().0) == input.subrange(
            0,
            parse_frame(input).unwrap().1,
        ),
{
    let n = frame_len(input);
    let p = input.subrange(4, n);
    lemma_payload_of_message(p);
    lemma_bytes_of_be_u32(input, 0);
    assert(frame_of(message_of(p).unwrap()) =~= input.subrange(0, n));
}

} // verus!
