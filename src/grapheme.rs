//! Grapheme-cluster navigation within one line.
//!
//! Moving or deleting "one character" steps over a whole user-perceived character, so
//! that combining sequences are never split.

use vstd::prelude::*;
use vstd::utf8::*;
use crate::text::{byte_len, bytes_of};

verus! {

broadcast use vstd::utf8::group_utf8_lib;

/// The byte offsets at which the extended grapheme clusters of `text` start, in order.
pub uninterp spec fn grapheme_offsets(text: Seq<char>) -> Seq<usize>;

/// The shape of the start offsets of a segmentation of `bytes` into non-empty consecutive
/// clusters: none for empty text, otherwise rising strictly from 0, each below the length
/// and on a character boundary.
pub open spec fn cluster_starts(starts: Seq<usize>, bytes: Seq<u8>) -> bool {
    &&& starts.len() == 0 <==> bytes.len() == 0
    &&& starts.len() > 0 ==> starts[0] == 0
    &&& forall|i: int, j: int| 0 <= i < j < starts.len() ==> starts[i] < starts[j]
    &&& forall|i: int|
        0 <= i < starts.len() ==> #[trigger] starts[i] < bytes.len() && is_char_boundary(
            bytes,
            starts[i] as int,
        )
}

/// Relies on `UnicodeSegmentation::grapheme_indices` (extended clusters), keeping the byte
/// offset of each cluster: the clusters are consecutive non-empty slices of the text that
/// cover it from start to end.
#[verifier::external_body]
fn grapheme_starts(text: &str) -> (r: Vec<usize>)
    ensures
        r@ == grapheme_offsets(text@),
        cluster_starts(r@, bytes_of(text@)),
{
    unicode_segmentation::UnicodeSegmentation::grapheme_indices(text, true).map(|(i, _)| i).collect()
}

/// The last cluster start before `offset`, or 0 when there is none.
pub open spec fn previous_start(starts: Seq<usize>, offset: int) -> int
    decreases starts.len(),
{
    if starts.len() == 0 {
        0
    } else if starts.last() < offset {
        starts.last() as int
    } else {
        previous_start(starts.drop_last(), offset)
    }
}

/// The first cluster start after `offset`, or `len` when there is none.
pub open spec fn next_start(starts: Seq<usize>, offset: int, len: int) -> int
    decreases starts.len(),
{
    if starts.len() == 0 {
        len
    } else if starts[0] > offset {
        starts[0] as int
    } else {
        next_start(starts.drop_first(), offset, len)
    }
}

/// A position between two clusters: a cluster start or the end of the text.
pub open spec fn is_cluster_boundary(starts: Seq<usize>, len: int, offset: int) -> bool {
    offset == len || exists|i: int| 0 <= i < starts.len() && starts[i] == offset
}

/// `previous_start` is 0 or a cluster start before `offset`.
pub proof fn lemma_previous_start(starts: Seq<usize>, offset: int)
    ensures
        previous_start(starts, offset) == 0 || (previous_start(starts, offset) < offset
            && exists|i: int| 0 <= i < starts.len() && starts[i] == previous_start(starts, offset)),
    decreases starts.len(),
{
    if starts.len() > 0 && starts.last() >= offset {
        lemma_previous_start(starts.drop_last(), offset);
        if previous_start(starts, offset) != 0 {
            let i = choose|i: int|
                0 <= i < starts.drop_last().len() && starts.drop_last()[i] == previous_start(
                    starts,
                    offset,
                );
            assert(starts[i] == previous_start(starts, offset));
        }
    } else if starts.len() > 0 {
        assert(starts[starts.len() - 1] == starts.last());
    }
}

/// `next_start` is `len` or a cluster start after `offset`.
pub proof fn lemma_next_start(starts: Seq<usize>, offset: int, len: int)
    ensures
        next_start(starts, offset, len) == len || (next_start(starts, offset, len) > offset
            && exists|i: int|
            0 <= i < starts.len() && starts[i] == next_start(starts, offset, len)),
    decreases starts.len(),
{
    if starts.len() > 0 && starts[0] <= offset {
        lemma_next_start(starts.drop_first(), offset, len);
        if next_start(starts, offset, len) != len {
            let i = choose|i: int|
                0 <= i < starts.drop_first().len() && starts.drop_first()[i] == next_start(
                    starts,
                    offset,
                    len,
                );
            assert(starts[i + 1] == next_start(starts, offset, len));
        }
    }
}

/// The last of `starts` that lies before `offset`, or 0 when none does.
pub fn previous_boundary_in(starts: &Vec<usize>, offset: usize) -> (r: usize)
    ensures
        r == previous_start(starts@, offset as int),
{
    let mut i = starts.len();
    assert(starts@.take(i as int) =~= starts@);
    while i > 0
        invariant
            i <= starts@.len(),
            previous_start(starts@, offset as int) == previous_start(
                starts@.take(i as int),
                offset as int,
            ),
        decreases i,
    {
        assert(starts@.take(i as int).drop_last() =~= starts@.take(i - 1));
        if starts[i - 1] < offset {
            return starts[i - 1];
        }
        i = i - 1;
    }
    0
}

/// The first of `starts` that lies after `offset`, or `len` when none does.
pub fn next_boundary_in(starts: &Vec<usize>, offset: usize, len: usize) -> (r: usize)
    ensures
        r == next_start(starts@, offset as int, len as int),
{
    let mut i: usize = 0;
    assert(starts@.skip(0) =~= starts@);
    while i < starts.len()
        invariant
            i <= starts@.len(),
            next_start(starts@, offset as int, len as int) == next_start(
                starts@.skip(i as int),
                offset as int,
                len as int,
            ),
        decreases starts@.len() - i,
    {
        assert(starts@.skip(i as int).drop_first() =~= starts@.skip(i + 1));
        if starts[i] > offset {
            return starts[i];
        }
        i = i + 1;
    }
    len
}

/// The start of the grapheme cluster before byte `offset` of `text`, or 0 when there is
/// none.
pub fn previous_boundary(text: &str, offset: usize) -> (r: usize)
    ensures
        r == previous_start(grapheme_offsets(text@), offset as int),
        r == 0 || r < offset,
        r <= bytes_of(text@).len(),
        is_char_boundary(bytes_of(text@), r as int),
{
    let starts = grapheme_starts(text);
    proof {
        lemma_previous_start(starts@, offset as int);
        is_char_boundary_start_end_of_seq(bytes_of(text@));
    }
    previous_boundary_in(&starts, offset)
}

/// The start of the grapheme cluster after byte `offset` of `text`, or the length of the
/// text when there is none.
pub fn next_boundary(text: &str, offset: usize) -> (r: usize)
    ensures
        r == next_start(grapheme_offsets(text@), offset as int, bytes_of(text@).len() as int),
        r == bytes_of(text@).len() || r > offset,
        r <= bytes_of(text@).len(),
        is_char_boundary(bytes_of(text@), r as int),
{
    let starts = grapheme_starts(text);
    let len = byte_len(text);
    proof {
        lemma_next_start(starts@, offset as int, len as int);
        is_char_boundary_start_end_of_seq(bytes_of(text@));
    }
    next_boundary_in(&starts, offset, len)
}

/// `previous_start` is the start at index `j` when that is the last start before `offset`.
proof fn lemma_previous_start_at(starts: Seq<usize>, offset: int, j: int)
    requires
        forall|a: int, b: int| 0 <= a < b < starts.len() ==> starts[a] < starts[b],
        0 <= j < starts.len(),
        starts[j] < offset,
        j + 1 == starts.len() || starts[j + 1] >= offset,
    ensures
        previous_start(starts, offset) == starts[j],
    decreases starts.len(),
{
    if j + 1 < starts.len() {
        assert(starts.last() >= offset) by {
            assert(starts[j + 1] <= starts[starts.len() - 1]);
        }
        lemma_previous_start_at(starts.drop_last(), offset, j);
    }
}

/// `next_start` is the start at index `j` (or `len` when `j` is past the last) when that is
/// the first start after `offset`.
proof fn lemma_next_start_at(starts: Seq<usize>, offset: int, len: int, j: int)
    requires
        forall|a: int, b: int| 0 <= a < b < starts.len() ==> starts[a] < starts[b],
        0 <= j <= starts.len(),
        j == starts.len() || starts[j] > offset,
        j == 0 || starts[j - 1] <= offset,
    ensures
        next_start(starts, offset, len) == if j == starts.len() {
            len
        } else {
            starts[j] as int
        },
    decreases starts.len(),
{
    if j > 0 {
        assert(starts[0] <= offset) by {
            if j > 1 {
                assert(starts[0] < starts[j - 1]);
            }
        }
        lemma_next_start_at(starts.drop_first(), offset, len, j - 1);
    }
}

/// Grapheme steps are inverse to each other: from a cluster boundary, one step back and one
/// step forward return to it, as do one step forward and one step back; and a step from any
/// offset lands on a cluster boundary, never inside a cluster.
pub proof fn lemma_boundaries_inverse(starts: Seq<usize>, bytes: Seq<u8>, offset: int)
    requires
        cluster_starts(starts, bytes),
        0 <= offset <= bytes.len(),
    ensures
        is_cluster_boundary(starts, bytes.len() as int, previous_start(starts, offset)),
        is_cluster_boundary(starts, bytes.len() as int, next_start(starts, offset, bytes.len() as int)),
        is_cluster_boundary(starts, bytes.len() as int, offset) && offset > 0 ==> next_start(
            starts,
            previous_start(starts, offset),
            bytes.len() as int,
        ) == offset,
        is_cluster_boundary(starts, bytes.len() as int, offset) && offset < bytes.len()
            ==> previous_start(starts, next_start(starts, offset, bytes.len() as int)) == offset,
{
    let len = bytes.len() as int;
    let n = starts.len() as int;
    lemma_previous_start(starts, offset);
    lemma_next_start(starts, offset, len);
    if n > 0 {
        assert(starts[0] == 0);
    }
    if is_cluster_boundary(starts, len, offset) && offset > 0 {
        if offset == len {
            assert(starts[n - 1] < len);
            lemma_previous_start_at(starts, offset, n - 1);
            lemma_next_start_at(starts, starts[n - 1] as int, len, n);
        } else {
            let k = choose|k: int| 0 <= k < n && starts[k] == offset;
            assert(k > 0);
            lemma_previous_start_at(starts, offset, k - 1);
            lemma_next_start_at(starts, starts[k - 1] as int, len, k);
        }
    }
    if is_cluster_boundary(starts, len, offset) && offset < len {
        let k = choose|k: int| 0 <= k < n && starts[k] == offset;
        lemma_next_start_at(starts, offset, len, k + 1);
        let m = next_start(starts, offset, len);
        if k + 1 < n {
            assert(starts[k + 1] < len);
        }
        lemma_previous_start_at(starts, m, k);
    }
}

} // verus!
