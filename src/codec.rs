//! Conversion between byte offsets and UTF-16 code-unit offsets within one line.
//!
//! Input-method protocols address text in UTF-16 code units; everything else in this
//! crate works in UTF-8 byte offsets.

use vstd::prelude::*;
use vstd::std_specs::iter::IteratorSpec;
use vstd::utf8::*;
use crate::text::{byte_len, bytes_of};

verus! {

broadcast use {vstd::utf8::group_utf8_lib, vstd::string::group_string_axioms};

/// Number of UTF-8 bytes that encode `c`.
pub open spec fn utf8_width(c: char) -> nat {
    if (c as u32) < 0x80 {
        1
    } else if (c as u32) < 0x800 {
        2
    } else if (c as u32) < 0x10000 {
        3
    } else {
        4
    }
}

/// Number of UTF-16 code units that encode `c`.
pub open spec fn utf16_width(c: char) -> nat {
    if (c as u32) < 0x10000 {
        1
    } else {
        2
    }
}

/// The UTF-16 offset of byte offset `k`: the code units of the characters that end at or
/// before `k`. An offset inside a character rounds down to that character's start.
pub open spec fn external_offset(text: Seq<char>, k: int) -> nat
    decreases text.len(),
{
    if text.len() == 0 || k < utf8_width(text[0]) {
        0
    } else {
        utf16_width(text[0]) + external_offset(text.drop_first(), k - utf8_width(text[0]))
    }
}

/// The byte offset of UTF-16 offset `u`: the bytes of the characters whose code units end
/// at or before `u`. An offset inside a surrogate pair rounds down to the character's start;
/// one past the end gives the length of the text.
pub open spec fn internal_offset(text: Seq<char>, u: int) -> nat
    decreases text.len(),
{
    if text.len() == 0 || u < utf16_width(text[0]) {
        0
    } else {
        utf8_width(text[0]) + internal_offset(text.drop_first(), u - utf16_width(text[0]))
    }
}

/// The last character boundary at or before byte offset `k` (the end of the text when `k`
/// lies beyond it).
pub open spec fn floor_boundary(text: Seq<char>, k: int) -> nat
    decreases text.len(),
{
    if text.len() == 0 || k < utf8_width(text[0]) {
        0
    } else {
        utf8_width(text[0]) + floor_boundary(text.drop_first(), k - utf8_width(text[0]))
    }
}

/// How the encoding of a non-empty text starts: with the bytes of its first character.
pub proof fn lemma_encode_first(text: Seq<char>)
    requires
        text.len() > 0,
    ensures
        length_of_first_scalar(bytes_of(text)) == utf8_width(text[0]),
        pop_first_scalar(bytes_of(text)) == bytes_of(text.drop_first()),
        bytes_of(text).len() == utf8_width(text[0]) + bytes_of(text.drop_first()).len(),
{
    encode_utf8_first_scalar(text);
    char_is_scalar(text[0]);
    assert(pop_first_scalar(bytes_of(text)) =~= bytes_of(text.drop_first()));
}

/// The result of `internal_offset` is a character boundary of the text.
pub proof fn lemma_internal_offset_boundary(text: Seq<char>, u: int)
    ensures
        internal_offset(text, u) <= bytes_of(text).len(),
        is_char_boundary(bytes_of(text), internal_offset(text, u) as int),
    decreases text.len(),
{
    if text.len() == 0 || u < utf16_width(text[0]) {
    } else {
        lemma_encode_first(text);
        lemma_internal_offset_boundary(text.drop_first(), u - utf16_width(text[0]));
    }
}

/// `floor_boundary` is a character boundary, and on a boundary it is the identity.
pub proof fn lemma_floor_boundary(text: Seq<char>, k: int)
    requires
        0 <= k,
    ensures
        floor_boundary(text, k) <= k,
        floor_boundary(text, k) <= bytes_of(text).len(),
        is_char_boundary(bytes_of(text), floor_boundary(text, k) as int),
        k <= bytes_of(text).len() && is_char_boundary(bytes_of(text), k) ==> floor_boundary(text, k) == k,
    decreases text.len(),
{
    if text.len() == 0 {
    } else {
        lemma_encode_first(text);
        if k < utf8_width(text[0]) {
        } else {
            lemma_floor_boundary(text.drop_first(), k - utf8_width(text[0]));
        }
    }
}

/// Converting a byte offset to UTF-16 units and back lands on the last character boundary
/// at or before it; on a boundary the round trip is exact, and a second round trip
/// changes nothing.
pub proof fn lemma_utf16_round_trip(text: Seq<char>, k: int)
    requires
        0 <= k,
    ensures
        internal_offset(text, external_offset(text, k) as int) == floor_boundary(text, k),
        k <= bytes_of(text).len() && is_char_boundary(bytes_of(text), k) ==> internal_offset(
            text,
            external_offset(text, k) as int,
        ) == k,
        external_offset(text, internal_offset(text, external_offset(text, k) as int) as int)
            == external_offset(text, k),
    decreases text.len(),
{
    lemma_floor_boundary(text, k);
    if text.len() == 0 || k < utf8_width(text[0]) {
    } else {
        lemma_utf16_round_trip(text.drop_first(), k - utf8_width(text[0]));
    }
}

/// Number of UTF-8 bytes of `c`.
fn char_utf8_width(c: char) -> (w: usize)
    ensures
        w == utf8_width(c),
{
    let v = c as u32;
    if v < 0x80 {
        1
    } else if v < 0x800 {
        2
    } else if v < 0x10000 {
        3
    } else {
        4
    }
}

/// Number of UTF-16 code units of `c`.
fn char_utf16_width(c: char) -> (w: usize)
    ensures
        w == utf16_width(c),
{
    if (c as u32) < 0x10000 {
        1
    } else {
        2
    }
}

/// The UTF-16 offset that corresponds to byte offset `offset` of `text`.
pub fn offset_to_utf16(text: &str, offset: usize) -> (r: usize)
    ensures
        r == external_offset(text@, offset as int),
{
    let ghost cs = text@;
    let mut chars = text.chars();
    let mut utf8_count: usize = 0;
    let mut utf16_count: usize = 0;
    let ghost mut i: int = 0;
    assert(cs.skip(0) =~= cs);
    loop
        invariant_except_break
            0 <= i <= cs.len(),
            chars.remaining() == cs.skip(i),
            utf16_count <= utf8_count <= offset,
            external_offset(cs, offset as int) == utf16_count + external_offset(
                cs.skip(i),
                offset - utf8_count,
            ),
        ensures
            external_offset(cs, offset as int) == utf16_count,
        decreases cs.len() - i,
    {
        let ghost rest = cs.skip(i);
        match chars.next() {
            None => {
                break;
            },
            Some(c) => {
                assert(rest.drop_first() =~= cs.skip(i + 1));
                let w8 = char_utf8_width(c);
                if offset - utf8_count < w8 {
                    break;
                }
                utf8_count = utf8_count + w8;
                utf16_count = utf16_count + char_utf16_width(c);
                proof {
                    i = i + 1;
                }
            },
        }
    }
    utf16_count
}

/// The byte offset that corresponds to UTF-16 offset `offset` of `text`.
pub fn offset_from_utf16(text: &str, offset: usize) -> (r: usize)
    ensures
        r == internal_offset(text@, offset as int),
        r <= bytes_of(text@).len(),
        is_char_boundary(bytes_of(text@), r as int),
{
    proof {
        lemma_internal_offset_boundary(text@, offset as int);
    }
    let len = byte_len(text);
    let ghost cs = text@;
    let mut chars = text.chars();
    let mut utf8_count: usize = 0;
    let mut utf16_count: usize = 0;
    let ghost mut i: int = 0;
    assert(cs.skip(0) =~= cs);
    loop
        invariant_except_break
            0 <= i <= cs.len(),
            chars.remaining() == cs.skip(i),
            utf16_count <= offset,
            utf8_count <= internal_offset(cs, offset as int) <= len,
            internal_offset(cs, offset as int) == utf8_count + internal_offset(
                cs.skip(i),
                offset - utf16_count,
            ),
        ensures
            internal_offset(cs, offset as int) == utf8_count,
        decreases cs.len() - i,
    {
        let ghost rest = cs.skip(i);
        match chars.next() {
            None => {
                break;
            },
            Some(c) => {
                assert(rest.drop_first() =~= cs.skip(i + 1));
                let w16 = char_utf16_width(c);
                if offset - utf16_count < w16 {
                    break;
                }
                utf16_count = utf16_count + w16;
                utf8_count = utf8_count + char_utf8_width(c);
                proof {
                    i = i + 1;
                }
            },
        }
    }
    utf8_count
}

} // verus!
