//! How bytes of source text become the characters of a token's literal.
//!
//! Source text is UTF-8. The lexer works on its bytes; a literal is a
//! string. This module relates the two for the only bytes that ever make up
//! a literal longer than one character: ASCII.
use vstd::prelude::*;
use vstd::string::StringSliceAdditionalSpecFns;
use vstd::utf8::*;

verus! {

/// Every byte of `bytes` is an ASCII byte.
pub open spec fn is_ascii_bytes(bytes: Seq<u8>) -> bool {
    forall|i: int| 0 <= i < bytes.len() ==> #[trigger] bytes[i] < 0x80
}

/// The characters that a sequence of ASCII bytes spells, one per byte.
pub open spec fn ascii_text(bytes: Seq<u8>) -> Seq<char> {
    Seq::new(bytes.len(), |i: int| bytes[i] as char)
}

/// A character sequence whose UTF-8 encoding holds ASCII bytes only is
/// spelled by those bytes.
pub proof fn lemma_ascii_encoding_spells(chars: Seq<char>)
    requires
        is_ascii_bytes(encode_utf8(chars)),
    ensures
        chars == ascii_text(encode_utf8(chars)),
    decreases chars.len(),
{
    let bytes = encode_utf8(chars);
    if chars.len() > 0 {
        let c = chars[0] as u32;
        let rest = chars.drop_first();
        let head = encode_scalar(c);
        char_is_scalar(chars[0]);
        assert(bytes == head + encode_utf8(rest));
        assert(head.len() >= 1);
        assert(bytes[0] == head[0]);
        assert(bytes[0] < 0x80);
        assert(has_width_1_encoding(c)) by {
            assert(0xC0u8 | ((c >> 6) & 0x1F) as u8 >= 0x80) by (bit_vector);
            assert(0xE0u8 | ((c >> 12) & 0x0F) as u8 >= 0x80) by (bit_vector);
            assert(0xF0u8 | ((c >> 18) & 0x07) as u8 >= 0x80) by (bit_vector);
        }
        assert((c & 0x7F) as u8 == c) by (bit_vector)
            requires
                c <= 0x7F,
        ;
        assert(head == seq![c as u8]);
        assert(encode_utf8(rest) == bytes.subrange(1, bytes.len() as int));
        assert forall|i: int| 0 <= i < encode_utf8(rest).len() implies #[trigger] encode_utf8(
            rest,
        )[i] < 0x80 by {
            assert(encode_utf8(rest)[i] == bytes[i + 1]);
        }
        lemma_ascii_encoding_spells(rest);
        char_u32_cast(chars[0], c);
        assert(bytes[0] as char == chars[0]);
        assert forall|i: int| 0 <= i < chars.len() implies chars[i] == ascii_text(bytes)[i] by {
            if i > 0 {
                assert(chars[i] == rest[i - 1]);
                assert(ascii_text(encode_utf8(rest))[i - 1] == encode_utf8(rest)[i - 1] as char);
                assert(encode_utf8(rest)[i - 1] == bytes[i]);
            }
        }
        assert(chars.len() == bytes.len());
        assert(chars =~= ascii_text(bytes));
    } else {
        assert(chars =~= ascii_text(bytes));
    }
}

/// In well-formed UTF-8, the position right behind an ASCII byte starts a
/// character or ends the text.
pub proof fn lemma_boundary_behind_ascii(bytes: Seq<u8>, index: int)
    requires
        valid_utf8(bytes),
        0 < index <= bytes.len(),
        bytes[index - 1] < 0x80,
    ensures
        is_char_boundary(bytes, index),
    decreases bytes.len(),
{
    let width = length_of_first_scalar(bytes);
    let rest = pop_first_scalar(bytes);
    assert(valid_first_scalar(bytes) && valid_utf8(rest));
    if index > width {
        assert(rest[index - width - 1] == bytes[index - 1]);
        lemma_boundary_behind_ascii(rest, index - width);
    } else if index == width {
        assert(is_char_boundary(rest, 0));
    }
}

/// The text of `source` between the byte offsets `start` and `end`, where
/// every byte in between is ASCII.
pub fn ascii_slice(source: &str, start: usize, end: usize) -> (text: String)
    requires
        start <= end <= source.spec_bytes().len(),
        is_ascii_bytes(source.spec_bytes().subrange(start as int, end as int)),
    ensures
        text@ == ascii_text(source.spec_bytes().subrange(start as int, end as int)),
{
    let ghost bytes = source.spec_bytes();
    let ghost wanted = bytes.subrange(start as int, end as int);
    if start == end {
        let text = String::new();
        assert(text@ =~= ascii_text(wanted));
        return text;
    }
    proof {
        encode_utf8_valid_utf8(source@);
        assert(wanted[end - start - 1] == bytes[end - 1]);
        lemma_boundary_behind_ascii(bytes, end as int);
    }
    let (head, _) = source.split_at(end);
    proof {
        encode_utf8_valid_utf8(head@);
        assert(head.spec_bytes() == bytes.subrange(0, end as int));
        assert(wanted[0] == bytes[start as int]);
        is_char_boundary_iff_not_is_continuation_byte(head.spec_bytes(), start as int);
    }
    let (_, word) = head.split_at(start);
    proof {
        assert(word.spec_bytes() =~= wanted);
        lemma_ascii_encoding_spells(word@);
    }
    word.to_owned()
}

/// Whether two pieces of text hold the same characters.
pub fn same_text(left: &str, right: &str) -> (same: bool)
    ensures
        same == (left@ == right@),
{
    let a = left.as_bytes();
    let b = right.as_bytes();
    proof {
        encode_utf8_decode_utf8(left@);
        encode_utf8_decode_utf8(right@);
    }
    if a.len() != b.len() {
        return false;
    }
    let mut i: usize = 0;
    while i < a.len()
        invariant
            a.len() == b.len(),
            i <= a.len(),
            a@ == left.spec_bytes(),
            b@ == right.spec_bytes(),
            decode_utf8(left.spec_bytes()) == left@,
            decode_utf8(right.spec_bytes()) == right@,
            forall|k: int| 0 <= k < i ==> a@[k] == b@[k],
        decreases a.len() - i,
    {
        if a[i] != b[i] {
            return false;
        }
        i += 1;
    }
    assert(a@ =~= b@);
    true
}

} // verus!
