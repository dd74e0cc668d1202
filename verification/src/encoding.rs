//! Facts about UTF-8 text that the bridge and the writer rest on.
//!
//! In UTF-8 a byte below `0x80` is always a whole character, the ASCII one of
//! that value: the bytes of every other character are `0x80` or above. So
//! text can be searched, and cut, at such a byte as well as at the character.

use vstd::prelude::*;
use vstd::utf8::*;

verus! {

/// The encoding of a scalar below `0x80` is the scalar itself, in one
/// byte; the encoding of any other holds no byte below `0x80`.
proof fn lemma_scalar_bytes(scalar: u32)
    requires
        is_scalar(scalar),
    ensures
        scalar < 0x80 ==> encode_scalar(scalar) == seq![scalar as u8],
        scalar >= 0x80 ==> forall|i: int|
            0 <= i < encode_scalar(scalar).len() ==> encode_scalar(scalar)[i] >= 0x80,
{
    assert(scalar < 0x80 ==> (scalar & 0x7F) as u8 == scalar as u8) by (bit_vector);
    assert(0xC0u8 | ((scalar >> 6) & 0x1F) as u8 >= 0x80) by (bit_vector);
    assert(0xE0u8 | ((scalar >> 12) & 0x0F) as u8 >= 0x80) by (bit_vector);
    assert(0xF0u8 | ((scalar >> 18) & 0x7) as u8 >= 0x80) by (bit_vector);
    assert(0x80u8 | (scalar & 0x3F) as u8 >= 0x80) by (bit_vector);
    assert(0x80u8 | ((scalar >> 6) & 0x3F) as u8 >= 0x80) by (bit_vector);
    assert(0x80u8 | ((scalar >> 12) & 0x3F) as u8 >= 0x80) by (bit_vector);
}

/// Encoded text holds a byte below `0x80` exactly where the text holds the
/// character of that value.
pub proof fn lemma_ascii_byte_in_text(text: Seq<char>, byte: u8)
    requires
        byte < 0x80,
    ensures
        encode_utf8(text).contains(byte) <==> text.contains(byte as char),
    decreases text.len(),
{
    if text.len() > 0 {
        let scalar = text[0] as u32;
        let head = encode_scalar(scalar);
        let rest = text.drop_first();
        let tail = encode_utf8(rest);
        char_is_scalar(text[0]);
        lemma_scalar_bytes(scalar);
        lemma_ascii_byte_in_text(rest, byte);
        if text.contains(byte as char) {
            let j = choose|j: int| 0 <= j < text.len() && text[j] == byte as char;
            if j == 0 {
                assert((head + tail)[0] == byte);
            } else {
                assert(rest[j - 1] == byte as char);
                let k = choose|k: int| 0 <= k < tail.len() && tail[k] == byte;
                assert((head + tail)[head.len() + k] == byte);
            }
        }
        if (head + tail).contains(byte) {
            let k = choose|k: int| 0 <= k < (head + tail).len() && (head + tail)[k] == byte;
            if k < head.len() {
                assert(head[k] == byte);
                char_u32_cast(text[0], scalar);
                assert(text[0] == byte as char);
            } else {
                assert(tail[k - head.len()] == byte);
                let j = choose|j: int| 0 <= j < rest.len() && rest[j] == byte as char;
                assert(text[j + 1] == byte as char);
            }
        }
    }
}

/// Text is encoded piece by piece.
pub proof fn lemma_encode_concat(a: Seq<char>, b: Seq<char>)
    ensures
        encode_utf8(a + b) == encode_utf8(a) + encode_utf8(b),
    decreases a.len(),
{
    if a.len() == 0 {
        assert(a + b =~= b);
    } else {
        lemma_encode_concat(a.drop_first(), b);
        assert((a + b).drop_first() =~= a.drop_first() + b);
    }
}

/// Texts with the same encoding are the same text.
pub proof fn lemma_encode_injective(a: Seq<char>, b: Seq<char>)
    requires
        encode_utf8(a) == encode_utf8(b),
    ensures
        a == b,
{
    encode_utf8_decode_utf8(a);
    encode_utf8_decode_utf8(b);
}

/// Encoded text can be cut before and after a byte below `0x80`: both
/// places are character boundaries.
pub proof fn lemma_ascii_byte_is_boundary(text: Seq<char>, at: int)
    requires
        0 <= at < encode_utf8(text).len(),
        encode_utf8(text)[at] < 0x80,
    ensures
        is_char_boundary(encode_utf8(text), at),
        is_char_boundary(encode_utf8(text).subrange(at, encode_utf8(text).len() as int), 1),
{
    let bytes = encode_utf8(text);
    let rest = bytes.subrange(at, bytes.len() as int);
    encode_utf8_valid_utf8(text);
    is_char_boundary_iff_not_is_continuation_byte(bytes, at);
    valid_utf8_split(bytes, at);
    assert(rest[0] == bytes[at]);
    assert(is_char_boundary(rest, 1)) by {
        reveal_with_fuel(is_char_boundary, 2);
    }
}

/// Where encoded text is cut around a byte below `0x80`, the pieces encode
/// what stands before and after the character of that value.
pub proof fn lemma_cut_at_ascii_byte(text: Seq<char>, at: int, head: Seq<char>, tail: Seq<char>)
    requires
        0 <= at < encode_utf8(text).len(),
        encode_utf8(text)[at] < 0x80,
        encode_utf8(head) == encode_utf8(text).subrange(0, at),
        encode_utf8(tail) == encode_utf8(text).subrange(at + 1, encode_utf8(text).len() as int),
    ensures
        text == head + seq![encode_utf8(text)[at] as char] + tail,
{
    let bytes = encode_utf8(text);
    let byte = bytes[at];
    let middle = seq![byte as char];
    lemma_scalar_bytes(byte as u32);
    assert(encode_utf8(middle) =~= seq![byte]) by {
        assert(encode_utf8(middle) == encode_scalar(middle[0] as u32) + encode_utf8(
            middle.drop_first(),
        ));
    }
    lemma_encode_concat(head, middle);
    lemma_encode_concat(head + middle, tail);
    assert(bytes =~= bytes.subrange(0, at) + seq![byte] + bytes.subrange(
        at + 1,
        bytes.len() as int,
    ));
    lemma_encode_injective(text, head + middle + tail);
}

} // verus!
