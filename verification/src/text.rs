//! Facts about ASCII bytes inside UTF-8 text, and the byte scans built on
//! them.
//!
//! A byte below `0x80` in well-formed UTF-8 is always a whole character, so
//! text can be searched and cut at such bytes without decoding it.

use vstd::prelude::*;
use vstd::string::*;
use vstd::utf8::*;

verus! {

/// The character that a byte below `0x80` stands for.
pub open spec fn ascii_char(b: u8) -> char {
    b as char
}

/// No byte of `bytes` equals `b`.
pub open spec fn free_of_byte(bytes: Seq<u8>, b: u8) -> bool {
    forall|i: int| 0 <= i < bytes.len() ==> bytes[i] != b
}

/// No character of `text` equals `c`.
pub open spec fn free_of_char(text: Seq<char>, c: char) -> bool {
    forall|i: int| 0 <= i < text.len() ==> text[i] != c
}

proof fn lemma_width_1_value(b: u8)
    by (bit_vector)
    requires
        b < 0x80,
    ensures
        (b & 0x7F) as u32 == b as u32,
{
}

proof fn lemma_scalar_bytes(x: u32)
    by (bit_vector)
    ensures
        x <= 0x7F ==> (x & 0x7F) as u8 == x,
        (0xC0u8 | ((x >> 6) & 0x1F) as u8) >= 0x80,
        (0xE0u8 | ((x >> 12) & 0x0F) as u8) >= 0x80,
        (0xF0u8 | ((x >> 18) & 0x7) as u8) >= 0x80,
        (0x80u8 | (x & 0x3F) as u8) >= 0x80,
        (0x80u8 | ((x >> 6) & 0x3F) as u8) >= 0x80,
        (0x80u8 | ((x >> 12) & 0x3F) as u8) >= 0x80,
{
}

/// The encoding of one character holds the ASCII byte `b` exactly when the
/// character is the one `b` stands for.
proof fn lemma_encode_scalar_ascii(c: char, b: u8)
    requires
        b < 0x80,
    ensures
        free_of_byte(encode_scalar(c as u32), b) <==> c != ascii_char(b),
        encode_scalar(c as u32).len() >= 1,
{
    let x = c as u32;
    char_is_scalar(c);
    lemma_scalar_bytes(x);
    let e = encode_scalar(x);
    if has_width_1_encoding(x) {
        assert(e[0] == x);
        if c == ascii_char(b) {
            assert(e[0] == b);
        } else {
            assert(x != b as u32) by {
                if x == b as u32 {
                    char_u32_cast(c, x);
                }
            }
        }
    } else {
        assert(forall|i: int| 0 <= i < e.len() ==> e[i] >= 0x80);
        assert(c != ascii_char(b)) by {
            if c == ascii_char(b) {
                assert(x == b as u32);
            }
        }
    }
}

/// Text is free of an ASCII character exactly when its UTF-8 encoding is
/// free of the corresponding byte.
pub proof fn lemma_free_of_ascii(text: Seq<char>, b: u8)
    requires
        b < 0x80,
    ensures
        free_of_char(text, ascii_char(b)) <==> free_of_byte(encode_utf8(text), b),
    decreases text.len(),
{
    if text.len() == 0 {
    } else {
        let head = encode_scalar(text[0] as u32);
        let rest = text.drop_first();
        let tail = encode_utf8(rest);
        lemma_encode_scalar_ascii(text[0], b);
        lemma_free_of_ascii(rest, b);
        assert(encode_utf8(text) == head + tail);
        if free_of_char(text, ascii_char(b)) {
            assert forall|i: int| 0 <= i < rest.len() implies rest[i] != ascii_char(b) by {
                assert(rest[i] == text[i + 1]);
            }
            assert forall|i: int| 0 <= i < (head + tail).len() implies (head + tail)[i] != b by {
                if i < head.len() {
                    assert((head + tail)[i] == head[i]);
                } else {
                    assert((head + tail)[i] == tail[i - head.len()]);
                }
            }
        }
        if free_of_byte(encode_utf8(text), b) {
            assert forall|i: int| 0 <= i < head.len() implies head[i] != b by {
                assert((head + tail)[i] == head[i]);
            }
            assert forall|i: int| 0 <= i < tail.len() implies tail[i] != b by {
                assert((head + tail)[i + head.len()] == tail[i]);
            }
            assert forall|i: int| 0 <= i < text.len() implies text[i] != ascii_char(b) by {
                if i > 0 {
                    assert(text[i] == rest[i - 1]);
                }
            }
        }
    }
}

/// Well-formed UTF-8 is free of an ASCII byte exactly when the text it
/// encodes is free of the corresponding character.
pub proof fn lemma_decoded_free_of_ascii(bytes: Seq<u8>, b: u8)
    requires
        valid_utf8(bytes),
        b < 0x80,
    ensures
        free_of_byte(bytes, b) <==> free_of_char(decode_utf8(bytes), ascii_char(b)),
{
    decode_utf8_encode_utf8(bytes);
    lemma_free_of_ascii(decode_utf8(bytes), b);
}

/// An ASCII byte in well-formed UTF-8 is a character of its own: the bytes
/// before it and the bytes after it are well-formed too, and the text is
/// what they encode with that character in between.
pub proof fn lemma_split_at_ascii(bytes: Seq<u8>, i: int)
    requires
        valid_utf8(bytes),
        0 <= i < bytes.len(),
        bytes[i] < 0x80,
    ensures
        is_char_boundary(bytes, i),
        is_char_boundary(bytes, i + 1),
        valid_utf8(bytes.subrange(0, i)),
        valid_utf8(bytes.subrange(i, bytes.len() as int)),
        valid_utf8(bytes.subrange(i + 1, bytes.len() as int)),
        decode_utf8(bytes) == decode_utf8(bytes.subrange(0, i)) + seq![ascii_char(bytes[i])]
            + decode_utf8(bytes.subrange(i + 1, bytes.len() as int)),
{
    let n = bytes.len() as int;
    let before = bytes.subrange(0, i);
    let from = bytes.subrange(i, n);
    let after = bytes.subrange(i + 1, n);
    is_char_boundary_iff_not_is_continuation_byte(bytes, i);
    valid_utf8_split(bytes, i);
    decode_utf8_split(bytes, i);
    assert(from[0] == bytes[i]);
    assert(is_leading_byte_width_1(from[0]));
    assert(pop_first_scalar(from) =~= after);
    assert(valid_utf8(after));
    lemma_width_1_value(bytes[i]);
    assert(decode_first_scalar(from) == bytes[i] as u32);
    assert(decode_utf8(from) == seq![ascii_char(bytes[i])] + decode_utf8(after));
    if i + 1 < n {
        assert(after[0] == bytes[i + 1]);
        assert(valid_first_scalar(after));
        is_char_boundary_iff_not_is_continuation_byte(bytes, i + 1);
    } else {
        is_char_boundary_start_end_of_seq(bytes);
    }
    assert(decode_utf8(bytes) =~= decode_utf8(before) + seq![ascii_char(bytes[i])] + decode_utf8(
        after,
    ));
}

/// The encoding of text put together from two parts with an ASCII character
/// in between.
pub proof fn lemma_encode_joined(left: Seq<char>, b: u8, right: Seq<char>)
    requires
        b < 0x80,
    ensures
        encode_utf8(left + seq![ascii_char(b)] + right) == encode_utf8(left) + seq![b]
            + encode_utf8(right),
{
    let bytes = encode_utf8(left) + seq![b] + encode_utf8(right);
    let i = encode_utf8(left).len() as int;
    encode_utf8_valid_utf8(left);
    encode_utf8_valid_utf8(right);
    assert(valid_utf8(seq![b])) by {
        reveal_with_fuel(valid_utf8, 2);
        assert(is_leading_byte_width_1(seq![b][0]));
        assert(pop_first_scalar(seq![b]) =~= Seq::<u8>::empty());
    }
    valid_utf8_concat(encode_utf8(left), seq![b]);
    valid_utf8_concat(encode_utf8(left) + seq![b], encode_utf8(right));
    assert(bytes[i] == b);
    lemma_split_at_ascii(bytes, i);
    assert(bytes.subrange(0, i) =~= encode_utf8(left));
    assert(bytes.subrange(i + 1, bytes.len() as int) =~= encode_utf8(right));
    encode_utf8_decode_utf8(left);
    encode_utf8_decode_utf8(right);
    assert(decode_utf8(bytes) == left + seq![ascii_char(b)] + right);
    decode_utf8_encode_utf8(bytes);
}

/// Puts three pieces of text together.
pub(crate) fn compose(before: &str, middle: &str, after: &str) -> (r: String)
    ensures
        r@ == before@ + middle@ + after@,
{
    let mut text = String::from_str(before);
    text.append(middle);
    text.append(after);
    text
}

/// The index of the first byte equal to `b` at or after `from`, if any.
pub(crate) fn find_byte(bytes: &[u8], from: usize, b: u8) -> (r: Option<usize>)
    requires
        from <= bytes@.len(),
    ensures
        match r {
            Some(i) => from <= i < bytes@.len() && bytes@[i as int] == b && free_of_byte(
                bytes@.subrange(from as int, i as int),
                b,
            ),
            None => free_of_byte(bytes@.subrange(from as int, bytes@.len() as int), b),
        },
{
    let mut i: usize = from;
    while i < bytes.len()
        invariant
            from <= i <= bytes@.len(),
            free_of_byte(bytes@.subrange(from as int, i as int), b),
        decreases bytes@.len() - i,
    {
        if bytes[i] == b {
            return Some(i);
        }
        proof {
            let next = bytes@.subrange(from as int, i + 1);
            assert forall|k: int| 0 <= k < next.len() implies next[k] != b by {
                if k < i - from {
                    assert(next[k] == bytes@.subrange(from as int, i as int)[k]);
                }
            }
        }
        i += 1;
    }
    None
}

} // verus!
