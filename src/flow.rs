//! What reflow keeps: the text of the buffer read as one flow of words.

use vstd::prelude::*;
use crate::input::{break_before, InputView, SPACE};
use crate::line::LineView;

verus! {

/// Two pieces of text joined by a single space; an empty piece adds nothing.
pub open spec fn join(a: Seq<u8>, b: Seq<u8>) -> Seq<u8> {
    if a.len() == 0 {
        b
    } else if b.len() == 0 {
        a
    } else {
        a + seq![SPACE] + b
    }
}

/// The non-empty lines of `lines`, in order, joined by single spaces.
pub open spec fn flowed_text(lines: Seq<LineView>) -> Seq<u8>
    decreases lines.len(),
{
    if lines.len() == 0 {
        seq![]
    } else {
        join(lines[0].text, flowed_text(lines.drop_first()))
    }
}

/// Joining is associative.
pub proof fn lemma_join_assoc(a: Seq<u8>, b: Seq<u8>, c: Seq<u8>)
    ensures
        join(a, join(b, c)) == join(join(a, b), c),
{
    assert(a + seq![SPACE] + (b + seq![SPACE] + c) =~= a + seq![SPACE] + b + seq![SPACE] + c);
}

/// The flow of two runs of lines is the flow of each, joined.
pub proof fn lemma_flowed_concat(xs: Seq<LineView>, ys: Seq<LineView>)
    ensures
        flowed_text(xs + ys) == join(flowed_text(xs), flowed_text(ys)),
    decreases xs.len(),
{
    if xs.len() == 0 {
        assert(xs + ys =~= ys);
    } else {
        lemma_flowed_concat(xs.drop_first(), ys);
        assert((xs + ys).drop_first() =~= xs.drop_first() + ys);
        lemma_join_assoc(xs[0].text, flowed_text(xs.drop_first()), flowed_text(ys));
    }
}

/// Reflow is idempotent. Measure a line with any `width` under which no prefix of a text
/// is wider than the text, let it overflow when it is wider than `budget`, and take as its
/// fit offset one whose prefix is within the budget. Then a reflow step followed by a second
/// step on the same line, measured again against the same budget, leaves the second step
/// nothing to do: it changes nothing and asks for no further step.
pub proof fn lemma_reflow_idempotent(
    v: InputView,
    index: int,
    width: spec_fn(Seq<u8>) -> int,
    budget: int,
    fit: usize,
)
    requires
        v.wf(),
        0 <= index < v.lines.len(),
        forall|t: Seq<u8>, k: int| 0 <= k <= t.len() ==> #[trigger] width(t.subrange(0, k)) <= width(t),
        fit <= v.lines[index].len(),
        width(v.lines[index].text.subrange(0, fit as int)) <= budget,
    ensures
        ({
            let w = v.after_reflow(index, width(v.lines[index].text) > budget, fit).0;
            w.after_reflow(index, width(w.lines[index].text) > budget, fit) == (w, None::<usize>)
        }),
{
    let t = v.lines[index].text;
    let s = break_before(t, fit as int);
    crate::input::lemma_break_before(t, fit as int);
    if width(t) > budget && s != 0 {
        let w = v.after_reflow(index, true, fit).0;
        let kept = t.subrange(0, s);
        assert(w.lines[index].text == kept);
        assert(t.subrange(0, fit as int).subrange(0, s) =~= kept);
        assert(width(t.subrange(0, fit as int).subrange(0, s)) <= width(t.subrange(0, fit as int)));
    }
}

/// Reflow never drops or duplicates text: a reflow step keeps the flow of the buffer, its
/// non-empty lines joined by single spaces, exactly as it was. The one step left out is
/// the one that would move nothing (the break point is the last byte of the line) onto an
/// empty line; it would leave a trailing space behind.
pub proof fn lemma_reflow_keeps_flow(v: InputView, index: int, overflows: bool, fit: usize)
    requires
        v.wf(),
        0 <= index < v.lines.len(),
        break_before(v.lines[index].text, fit as int) + 1 < v.lines[index].len() || (index + 1
            < v.lines.len() && v.lines[index + 1].text.len() > 0),
    ensures
        flowed_text(v.after_reflow(index, overflows, fit).0.lines) == flowed_text(v.lines),
{
    let l = v.lines[index];
    let s = break_before(l.text, fit as int);
    reveal_with_fuel(flowed_text, 3);
    if overflows && s != 0 {
        crate::input::lemma_break_before(l.text, fit as int);
        let w = v.after_reflow(index, overflows, fit).0;
        let kept = l.text.subrange(0, s);
        let moved = l.text.subrange(s + 1, l.len() as int);
        assert(l.text =~= kept + seq![SPACE] + moved);
        let pre = v.lines.take(index);
        if index + 1 == v.lines.len() {
            assert(v.lines =~= pre + seq![l]);
            assert(w.lines =~= pre + seq![w.lines[index], w.lines[index + 1]]);
            lemma_flowed_concat(pre, seq![l]);
            lemma_flowed_concat(pre, seq![w.lines[index], w.lines[index + 1]]);
            assert(seq![l].drop_first() =~= Seq::<LineView>::empty());
            assert(seq![w.lines[index], w.lines[index + 1]].drop_first() =~= seq![w.lines[index + 1]]);
            assert(seq![w.lines[index + 1]].drop_first() =~= Seq::<LineView>::empty());
            assert(w.lines[index + 1].text =~= moved);
            assert(w.lines[index].text =~= kept);
            assert(join(kept, moved) =~= l.text);
        } else {
            let b = v.lines[index + 1];
            let post = v.lines.skip(index + 2);
            assert(v.lines =~= pre + (seq![l, b] + post));
            assert(w.lines =~= pre + (seq![w.lines[index], w.lines[index + 1]] + post));
            lemma_flowed_concat(pre, seq![l, b] + post);
            lemma_flowed_concat(pre, seq![w.lines[index], w.lines[index + 1]] + post);
            assert((seq![l, b] + post).drop_first() =~= seq![b] + post);
            assert((seq![b] + post).drop_first() =~= post);
            let d = w.lines[index + 1];
            assert((seq![w.lines[index], d] + post).drop_first() =~= seq![d] + post);
            assert((seq![d] + post).drop_first() =~= post);
            let r = flowed_text(post);
            assert(w.lines[index].text =~= kept);
            if b.text.len() > 0 {
                assert(d.text =~= moved + seq![SPACE] + b.text);
                lemma_join_assoc(kept, moved + seq![SPACE] + b.text, r);
                lemma_join_assoc(l.text, b.text, r);
                assert(join(kept, d.text) =~= join(l.text, b.text));
            } else {
                assert(d.text =~= moved);
                lemma_join_assoc(kept, moved, r);
                assert(join(kept, moved) =~= l.text);
            }
        }
    }
}

} // verus!
