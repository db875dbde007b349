//! UTF-8 text: byte views of strings, character boundaries and splicing.

use vstd::prelude::*;
use vstd::utf8::*;

verus! {

broadcast use {vstd::utf8::group_utf8_lib, vstd::slice::group_slice_axioms};

/// The UTF-8 bytes of a character sequence.
pub open spec fn bytes_of(s: Seq<char>) -> Seq<u8> {
    encode_utf8(s)
}

/// Encoding distributes over concatenation.
pub proof fn lemma_encode_concat(a: Seq<char>, b: Seq<char>)
    ensures
        encode_utf8(a + b) == encode_utf8(a) + encode_utf8(b),
    decreases a.len(),
{
    if a.len() == 0 {
        assert(a + b =~= b);
        assert(encode_utf8(a) + encode_utf8(b) =~= encode_utf8(b));
    } else {
        lemma_encode_concat(a.drop_first(), b);
        assert((a + b).drop_first() =~= a.drop_first() + b);
        assert(encode_utf8(a + b) =~= encode_utf8(a) + encode_utf8(b));
    }
}

/// In valid UTF-8 a character boundary is the end of the text or any byte that does not
/// continue a character.
pub proof fn lemma_boundary_local(b: Seq<u8>, k: int)
    requires
        valid_utf8(b),
        0 <= k <= b.len(),
    ensures
        is_char_boundary(b, k) <==> (k == b.len() || !is_continuation_byte(b[k])),
{
    is_char_boundary_start_end_of_seq(b);
    if k < b.len() {
        is_char_boundary_iff_not_is_continuation_byte(b, k);
    }
}

/// The boundaries of a concatenation are those of its first part and those of its second
/// part, shifted by the length of the first.
pub proof fn lemma_boundary_concat(x: Seq<u8>, y: Seq<u8>, k: int)
    requires
        valid_utf8(x),
        valid_utf8(y),
        0 <= k <= x.len() + y.len(),
    ensures
        valid_utf8(x + y),
        is_char_boundary(x + y, k) <==> if k <= x.len() {
            is_char_boundary(x, k)
        } else {
            is_char_boundary(y, k - x.len())
        },
{
    let xy = x + y;
    lemma_boundary_local(xy, k);
    lemma_boundary_local(y, 0);
    is_char_boundary_start_end_of_seq(y);
    if k <= x.len() {
        lemma_boundary_local(x, k);
    } else {
        lemma_boundary_local(y, k - x.len());
    }
}

/// A piece of valid text cut at two boundaries is valid, and its boundaries are those of
/// the whole text that fall inside it.
pub proof fn lemma_boundary_subrange(b: Seq<u8>, s: int, e: int, k: int)
    requires
        valid_utf8(b),
        0 <= s <= e <= b.len(),
        is_char_boundary(b, s),
        is_char_boundary(b, e),
        0 <= k <= e - s,
    ensures
        valid_utf8(b.subrange(s, e)),
        is_char_boundary(b.subrange(s, e), k) <==> is_char_boundary(b, s + k),
{
    let tail = b.subrange(s, b.len() as int);
    valid_utf8_split(b, s);
    lemma_boundary_local(b, e);
    lemma_boundary_local(tail, e - s);
    valid_utf8_split(tail, e - s);
    assert(tail.subrange(0, e - s) =~= b.subrange(s, e));
    lemma_boundary_local(b.subrange(s, e), k);
    lemma_boundary_local(b, s + k);
}

/// Replacing the bytes from `s` up to `e` of valid text by valid text gives valid text,
/// whose boundaries are those of the part kept before, of the inserted text, and of the part
/// kept after, each shifted to its place.
pub proof fn lemma_splice(b: Seq<u8>, s: int, e: int, n: Seq<u8>, k: int)
    requires
        valid_utf8(b),
        valid_utf8(n),
        0 <= s <= e <= b.len(),
        is_char_boundary(b, s),
        is_char_boundary(b, e),
        0 <= k <= b.len() - (e - s) + n.len(),
    ensures
        valid_utf8(b.subrange(0, s) + n + b.subrange(e, b.len() as int)),
        is_char_boundary(b.subrange(0, s) + n + b.subrange(e, b.len() as int), k) <==> if k <= s {
            is_char_boundary(b, k)
        } else if k <= s + n.len() {
            is_char_boundary(n, k - s)
        } else {
            is_char_boundary(b, k - s - n.len() + e)
        },
{
    let head = b.subrange(0, s);
    let tail = b.subrange(e, b.len() as int);
    is_char_boundary_start_end_of_seq(b);
    is_char_boundary_start_end_of_seq(n);
    if k <= s {
        lemma_boundary_subrange(b, 0, s, k);
    } else {
        lemma_boundary_subrange(b, 0, s, 0);
    }
    if k >= s + n.len() {
        lemma_boundary_subrange(b, e, b.len() as int, k - s - n.len());
    } else {
        lemma_boundary_subrange(b, e, b.len() as int, 0);
    }
    lemma_boundary_concat(head, n, if k <= s + n.len() { k } else { s });
    lemma_boundary_concat(head + n, tail, k);
    if s < k <= s + n.len() {
        lemma_boundary_concat(head, n, k);
    }
}

/// The last character boundary at or before byte `k`, counting the end of the text as the
/// last boundary.
pub open spec fn boundary_at_or_before(b: Seq<u8>, k: int) -> int
    decreases k,
{
    if k <= 0 {
        0
    } else if k > b.len() {
        b.len() as int
    } else if is_char_boundary(b, k) {
        k
    } else {
        boundary_at_or_before(b, k - 1)
    }
}

/// `boundary_at_or_before` is a boundary of valid text, no later than `k` or the end.
pub proof fn lemma_boundary_at_or_before(b: Seq<u8>, k: int)
    requires
        valid_utf8(b),
    ensures
        0 <= boundary_at_or_before(b, k) <= b.len(),
        k >= 0 ==> boundary_at_or_before(b, k) <= k,
        is_char_boundary(b, boundary_at_or_before(b, k)),
    decreases k,
{
    is_char_boundary_start_end_of_seq(b);
    if 0 < k <= b.len() && !is_char_boundary(b, k) {
        lemma_boundary_at_or_before(b, k - 1);
    }
}

/// The last character boundary of `text` at or before byte `offset`, or the end of the
/// text when `offset` lies beyond it.
pub fn floor_char_boundary(text: &str, offset: usize) -> (r: usize)
    ensures
        r == boundary_at_or_before(bytes_of(text@), offset as int),
        r <= bytes_of(text@).len(),
        is_char_boundary(bytes_of(text@), r as int),
{
    proof {
        lemma_boundary_at_or_before(bytes_of(text@), offset as int);
    }
    let len = byte_len(text);
    if offset > len {
        return len;
    }
    let mut k = offset;
    while k > 0 && !text.is_char_boundary(k)
        invariant
            k <= offset <= len,
            len == bytes_of(text@).len(),
            boundary_at_or_before(bytes_of(text@), offset as int) == boundary_at_or_before(
                bytes_of(text@),
                k as int,
            ),
        decreases k,
    {
        k = k - 1;
    }
    k
}

/// A single-byte (ASCII) character has a boundary on each side.
pub proof fn lemma_ascii_boundaries(b: Seq<u8>, k: int)
    requires
        valid_utf8(b),
        0 <= k < b.len(),
        b[k] < 0x80,
    ensures
        is_char_boundary(b, k),
        is_char_boundary(b, k + 1),
{
    lemma_boundary_local(b, k);
    lemma_boundary_local(b, k + 1);
    if k + 1 < b.len() {
        let tail = b.subrange(k, b.len() as int);
        valid_utf8_split(b, k);
        assert(valid_first_scalar(tail));
        let rest = pop_first_scalar(tail);
        assert(rest =~= b.subrange(k + 1, b.len() as int));
        assert(valid_utf8(rest));
        assert(rest.len() > 0);
        assert(valid_first_scalar(rest));
        assert(rest[0] == b[k + 1]);
    }
}

/// A space is the single byte 0x20.
pub proof fn lemma_space_bytes()
    ensures
        bytes_of(seq![' ']) == seq![0x20u8],
{
    assert((0x20u32 & 0x7Fu32) == 0x20u32) by (bit_vector);
    let c = ' ';
    assert(c as u32 == 0x20u32);
    assert(has_width_1_encoding(c as u32));
    assert(encode_scalar(c as u32) =~= seq![0x20u8]);
    assert(seq![c].drop_first() =~= Seq::<char>::empty());
    assert(encode_utf8(Seq::<char>::empty()) =~= Seq::<u8>::empty());
    assert(encode_utf8(seq![c]) == encode_scalar(seq![c][0] as u32) + encode_utf8(seq![c].drop_first()));
    assert(bytes_of(seq![c]) =~= seq![0x20u8]);
}

/// The length of `text` in bytes.
pub fn byte_len(text: &str) -> (n: usize)
    ensures
        n == bytes_of(text@).len(),
{
    text.as_bytes().len()
}

/// The text from byte `start` up to byte `end`.
pub fn slice(text: &str, start: usize, end: usize) -> (r: String)
    requires
        start <= end <= bytes_of(text@).len(),
        is_char_boundary(bytes_of(text@), start as int),
        is_char_boundary(bytes_of(text@), end as int),
    ensures
        bytes_of(r@) == bytes_of(text@).subrange(start as int, end as int),
{
    let (head, _) = text.split_at(end);
    proof {
        lemma_boundary_subrange(bytes_of(text@), 0, end as int, start as int);
    }
    let (_, piece) = head.split_at(start);
    proof {
        assert(bytes_of(piece@) =~= bytes_of(text@).subrange(start as int, end as int));
    }
    piece.to_owned()
}

/// The text with the bytes from `start` up to `end` replaced by `insert`.
pub fn splice(text: &str, start: usize, end: usize, insert: &str) -> (r: String)
    requires
        start <= end <= bytes_of(text@).len(),
        is_char_boundary(bytes_of(text@), start as int),
        is_char_boundary(bytes_of(text@), end as int),
    ensures
        bytes_of(r@) == bytes_of(text@).subrange(0, start as int) + bytes_of(insert@)
            + bytes_of(text@).subrange(end as int, bytes_of(text@).len() as int),
{
    let (head, _) = text.split_at(start);
    let (_, tail) = text.split_at(end);
    let mut r = head.to_owned();
    r.append(insert);
    r.append(tail);
    proof {
        lemma_encode_concat(head@, insert@);
        lemma_encode_concat(head@ + insert@, tail@);
    }
    r
}

} // verus!
