//! Reading one code point from the front of a UTF-8 byte sequence.

use vstd::prelude::*;
use vstd::utf8::*;

verus! {

/// The bytes start with a leading byte of one of the four UTF-8 forms, and
/// hold at least as many bytes as that form announces.
pub open spec fn has_first_codepoint(bytes: Seq<u8>) -> bool {
    &&& bytes.len() >= 1
    &&& {
        ||| is_leading_byte_width_1(bytes[0])
        ||| is_leading_byte_width_2(bytes[0]) && bytes.len() >= 2
        ||| is_leading_byte_width_3(bytes[0]) && bytes.len() >= 3
        ||| is_leading_byte_width_4(bytes[0]) && bytes.len() >= 4
    }
}

/// Decodes the first code point of `bytes`: how many bytes it takes, and its
/// value.
///
/// The payload bits of the leading byte and of each following byte are joined,
/// most significant first. Continuation bytes are not checked: the caller
/// vouches for well-formed UTF-8.
pub fn decode_utf8_first(bytes: &[u8]) -> (r: (usize, u32))
    requires
        has_first_codepoint(bytes@),
    ensures
        r.0 == length_of_first_codepoint(bytes@),
        r.1 == decode_first_codepoint(bytes@),
        1 <= r.0 <= 4,
        r.0 <= bytes@.len(),
{
    broadcast use utf8_byte_ranges_bitwise;

    let first = bytes[0];

    if first & 0b1000_0000 == 0 {
        return (1, (first & 0b0111_1111) as u32);
    }
    if first & 0b1110_0000 == 0b1100_0000 {
        let b1 = (first & 0b0001_1111) as u32;
        let b2 = (bytes[1] & 0b0011_1111) as u32;
        return (2, (b1 << 6) | b2);
    }
    if first & 0b1111_0000 == 0b1110_0000 {
        let b1 = (first & 0b0000_1111) as u32;
        let b2 = (bytes[1] & 0b0011_1111) as u32;
        let b3 = (bytes[2] & 0b0011_1111) as u32;
        return (3, (b1 << 12) | (b2 << 6) | b3);
    }
    let b1 = (first & 0b0000_0111) as u32;
    let b2 = (bytes[1] & 0b0011_1111) as u32;
    let b3 = (bytes[2] & 0b0011_1111) as u32;
    let b4 = (bytes[3] & 0b0011_1111) as u32;
    (4, (b1 << 18) | (b2 << 12) | (b3 << 6) | b4)
}

/// The UTF-8 bytes of a text that is not empty begin with its first
/// character: `decode_utf8_first` may be called on them, it yields that
/// character, and the bytes that follow are those of the rest of the text.
pub proof fn lemma_first_char(text: Seq<char>)
    requires
        text.len() > 0,
    ensures
        has_first_codepoint(encode_utf8(text)),
        decode_first_codepoint(encode_utf8(text)) == text[0] as u32,
        1 <= length_of_first_codepoint(encode_utf8(text)) <= encode_utf8(text).len(),
        encode_utf8(text).subrange(
            length_of_first_codepoint(encode_utf8(text)),
            encode_utf8(text).len() as int,
        ) == encode_utf8(text.drop_first()),
{
    let bytes = encode_utf8(text);
    let head = encode_scalar(text[0] as u32);
    let tail = encode_utf8(text.drop_first());
    encode_utf8_first_scalar(text);
    assert(bytes == head + tail);
    assert(bytes.subrange(head.len() as int, bytes.len() as int) =~= tail);
}

/// Only the empty text has no bytes.
pub proof fn lemma_no_bytes(text: Seq<char>)
    ensures
        encode_utf8(text).len() == 0 <==> text.len() == 0,
{
    if text.len() > 0 {
        lemma_first_char(text);
    }
}

/// A text begins with a newline exactly if its bytes begin with the byte 10,
/// and then the other bytes are those of the other characters.
pub proof fn lemma_leading_newline(text: Seq<char>)
    requires
        text.len() > 0,
    ensures
        text[0] == '\n' <==> encode_utf8(text)[0] == 10u8,
        text[0] == '\n' ==> encode_utf8(text).subrange(1, encode_utf8(text).len() as int)
            == encode_utf8(text.drop_first()),
{
    let bytes = encode_utf8(text);
    let first = bytes[0];
    lemma_first_char(text);
    assert(first == 10u8 ==> (first & 0x7f) as u32 == 10u32) by (bit_vector);
    assert((10u32 & 0x7f) as u8 == 10u8) by (bit_vector);
    if first == 10u8 {
        assert(text[0] as u32 == 10u32);
        char_u32_cast(text[0], 10u32);
    }
    if text[0] == '\n' {
        assert(text[0] as u32 == 10u32);
        assert(bytes == encode_scalar(10u32) + encode_utf8(text.drop_first()));
        assert(encode_scalar(10u32)[0] == 10u8);
    }
}

} // verus!
