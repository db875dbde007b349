//! One row of text with its own selection and input-method composition range.

use std::ops::Range;
use vstd::prelude::*;
use vstd::utf8::*;
use crate::text::{byte_len, bytes_of, lemma_boundary_subrange, lemma_splice, slice, splice};

verus! {

broadcast use vstd::utf8::group_utf8_lib;

/// What a line holds: its UTF-8 bytes, the selected byte range, which end of the
/// selection is the caret, and the composition range, if any.
pub struct LineView {
    pub text: Seq<u8>,
    pub selection: Range<usize>,
    pub reversed: bool,
    pub marked: Option<Range<usize>>,
}

/// `r` is a well-ordered byte range of `text` whose ends are character boundaries.
pub open spec fn range_in(text: Seq<u8>, r: Range<usize>) -> bool {
    &&& r.start <= r.end <= text.len()
    &&& is_char_boundary(text, r.start as int)
    &&& is_char_boundary(text, r.end as int)
}

impl LineView {
    /// The text is valid UTF-8 and every range lies inside it on character boundaries.
    pub open spec fn wf(self) -> bool {
        &&& valid_utf8(self.text)
        &&& range_in(self.text, self.selection)
        &&& (self.marked matches Some(m) ==> range_in(self.text, m))
    }

    /// Length of the text in bytes.
    pub open spec fn len(self) -> nat {
        self.text.len()
    }

    /// The caret: the active end of the selection.
    pub open spec fn cursor(self) -> usize {
        if self.reversed {
            self.selection.start
        } else {
            self.selection.end
        }
    }

    /// The line with the selection collapsed to a caret at `k`.
    pub open spec fn with_caret(self, k: usize) -> LineView {
        LineView { selection: k..k, reversed: false, ..self }
    }

    /// The line with the caret end of the selection moved to `k`; when that inverts the
    /// range, the ends swap and the direction flips.
    pub open spec fn extended(self, k: usize) -> LineView {
        let (s, e) = if self.reversed {
            (k, self.selection.end)
        } else {
            (self.selection.start, k)
        };
        if e < s {
            LineView { selection: e..s, reversed: !self.reversed, ..self }
        } else {
            LineView { selection: s..e, ..self }
        }
    }

    /// The range an edit applies to: the explicit one, else the composition range, else the
    /// selection.
    pub open spec fn effective_range(self, explicit: Option<Range<usize>>) -> Range<usize> {
        match explicit {
            Some(r) => r,
            None => match self.marked {
                Some(m) => m,
                None => self.selection,
            },
        }
    }

    /// The text with the bytes of `r` replaced by `new_text`.
    pub open spec fn spliced(self, r: Range<usize>, new_text: Seq<u8>) -> Seq<u8> {
        self.text.subrange(0, r.start as int) + new_text + self.text.subrange(
            r.end as int,
            self.text.len() as int,
        )
    }

    /// The line after replacing `r` with `new_text`: the caret lands just after the
    /// inserted text and the composition range is cleared.
    pub open spec fn replaced(self, r: Range<usize>, new_text: Seq<u8>) -> LineView {
        let k = (r.start + new_text.len()) as usize;
        LineView {
            text: self.spliced(r, new_text),
            selection: k..k,
            reversed: false,
            marked: None,
        }
    }
}

impl LineView {
    /// The line cut after byte `at`; the ranges are clamped into what is left and the
    /// composition range is dropped.
    pub open spec fn truncated(self, at: usize) -> LineView {
        LineView {
            text: self.text.subrange(0, at as int),
            selection: clamp(self.selection.start, at)..clamp(self.selection.end, at),
            reversed: self.reversed,
            marked: None,
        }
    }

    /// The line with `tail` appended and the caret at the join point.
    pub open spec fn joined(self, tail: Seq<u8>) -> LineView {
        LineView {
            text: self.text + tail,
            selection: (self.len() as usize)..(self.len() as usize),
            reversed: false,
            marked: None,
        }
    }

    /// The line with `head` put in front; its ranges move along with the text they cover.
    pub open spec fn prepended(self, head: Seq<u8>) -> LineView {
        let d = head.len();
        LineView {
            text: head + self.text,
            selection: ((self.selection.start + d) as usize)..((self.selection.end + d) as usize),
            reversed: self.reversed,
            marked: match self.marked {
                Some(m) => Some(((m.start + d) as usize)..((m.end + d) as usize)),
                None => None,
            },
        }
    }
}

/// `x` clamped to at most `at`.
pub open spec fn clamp(x: usize, at: usize) -> usize {
    if x <= at {
        x
    } else {
        at
    }
}

/// The runs in which a line is drawn, as (length in bytes, underlined): with a composition
/// range, the text before it, the range itself underlined and the text after it, leaving
/// out empty runs; without one, a single plain run over the whole text.
pub open spec fn runs_of(l: LineView) -> Seq<(usize, bool)> {
    match l.marked {
        Some(m) => {
            let before = if m.start > 0 {
                seq![(m.start, false)]
            } else {
                seq![]
            };
            let inside = if m.end > m.start {
                seq![((m.end - m.start) as usize, true)]
            } else {
                seq![]
            };
            let after = if l.len() > m.end {
                seq![((l.len() - m.end) as usize, false)]
            } else {
                seq![]
            };
            before + inside + after
        },
        None => seq![(l.len() as usize, false)],
    }
}

/// One row of text in the buffer.
pub struct TextLine {
    content: String,
    selected_range: Range<usize>,
    selection_reversed: bool,
    marked_range: Option<Range<usize>>,
}

impl View for TextLine {
    type V = LineView;

    closed spec fn view(&self) -> LineView {
        LineView {
            text: bytes_of(self.content@),
            selection: self.selected_range,
            reversed: self.selection_reversed,
            marked: self.marked_range,
        }
    }
}

impl TextLine {
    /// A line holding `content` with the caret at its start.
    pub fn new(content: String) -> (r: TextLine)
        ensures
            r@ == (LineView { text: bytes_of(content@), selection: 0..0, reversed: false, marked: None }),
            r@.wf(),
    {
        proof {
            is_char_boundary_start_end_of_seq(bytes_of(content@));
        }
        TextLine { content, selected_range: 0..0, selection_reversed: false, marked_range: None }
    }

    /// The text of the line.
    pub fn content(&self) -> (r: &str)
        ensures
            bytes_of(r@) == self@.text,
    {
        self.content.as_str()
    }

    /// The selected byte range.
    pub fn selected_range(&self) -> (r: Range<usize>)
        ensures
            r == self@.selection,
    {
        self.selected_range.start..self.selected_range.end
    }

    /// Whether the caret is at the start of the selection.
    pub fn selection_reversed(&self) -> (r: bool)
        ensures
            r == self@.reversed,
    {
        self.selection_reversed
    }

    /// The composition byte range, if any.
    pub fn marked_range(&self) -> (r: Option<Range<usize>>)
        ensures
            r == self@.marked,
    {
        match &self.marked_range {
            Some(m) => Some(m.start..m.end),
            None => None,
        }
    }

    /// Collapses the selection to a caret at `offset`.
    pub fn move_caret(&mut self, offset: usize)
        requires
            old(self)@.wf(),
            offset <= old(self)@.len(),
            is_char_boundary(old(self)@.text, offset as int),
        ensures
            final(self)@ == old(self)@.with_caret(offset),
            final(self)@.wf(),
    {
        self.selected_range = offset..offset;
        self.selection_reversed = false;
    }

    /// Moves the caret end of the selection to `offset`; when the range would invert, its
    /// ends swap and the direction flips.
    pub fn select_to(&mut self, offset: usize)
        requires
            old(self)@.wf(),
            offset <= old(self)@.len(),
            is_char_boundary(old(self)@.text, offset as int),
        ensures
            final(self)@ == old(self)@.extended(offset),
            final(self)@.wf(),
    {
        if self.selection_reversed {
            self.selected_range.start = offset;
        } else {
            self.selected_range.end = offset;
        }
        if self.selected_range.end < self.selected_range.start {
            self.selection_reversed = !self.selection_reversed;
            self.selected_range = self.selected_range.end..self.selected_range.start;
        }
    }

    /// Drops the composition range.
    pub fn unmark(&mut self)
        requires
            old(self)@.wf(),
        ensures
            final(self)@ == (LineView { marked: None, ..old(self)@ }),
            final(self)@.wf(),
    {
        self.marked_range = None;
    }

    /// Replaces the bytes of `range` with `new_text`, puts the caret just after the inserted
    /// text and clears the composition range.
    pub fn replace_range(&mut self, range: Range<usize>, new_text: &str)
        requires
            old(self)@.wf(),
            range_in(old(self)@.text, range),
        ensures
            final(self)@ == old(self)@.replaced(range, bytes_of(new_text@)),
            final(self)@.wf(),
            final(self)@.selection.start == range.start + bytes_of(new_text@).len(),
    {
        let text = splice(self.content.as_str(), range.start, range.end, new_text);
        let n = byte_len(new_text);
        let total = byte_len(text.as_str());
        proof {
            let b = self@.text;
            let nb = bytes_of(new_text@);
            lemma_splice(b, range.start as int, range.end as int, nb, range.start + n);
            lemma_splice(b, range.start as int, range.end as int, nb, 0);
            lemma_splice(b, range.start as int, range.end as int, nb, total as int);
        }
        let k = range.start + n;
        self.content = text;
        self.selected_range = k..k;
        self.selection_reversed = false;
        self.marked_range = None;
    }

    /// Replaces the bytes of `range` with `new_text` and marks the inserted text as the
    /// composition range. The selection becomes `new_selection`, given relative to the
    /// inserted text, or else a caret just after it.
    pub fn mark_range(&mut self, range: Range<usize>, new_text: &str, new_selection: Option<Range<usize>>)
        requires
            old(self)@.wf(),
            range_in(old(self)@.text, range),
            new_selection matches Some(r) ==> range_in(bytes_of(new_text@), r),
        ensures
            final(self)@.text == old(self)@.spliced(range, bytes_of(new_text@)),
            final(self)@.marked == Some(range.start..((range.start + bytes_of(new_text@).len()) as usize)),
            final(self)@.selection == match new_selection {
                Some(r) => ((range.start + r.start) as usize)..((range.start + r.end) as usize),
                None => ((range.start + bytes_of(new_text@).len()) as usize)..((range.start + bytes_of(new_text@).len()) as usize),
            },
            final(self)@.reversed == false,
            final(self)@.wf(),
    {
        let text = splice(self.content.as_str(), range.start, range.end, new_text);
        let n = byte_len(new_text);
        let total = byte_len(text.as_str());
        let ghost b = self@.text;
        let ghost nb = bytes_of(new_text@);
        proof {
            lemma_splice(b, range.start as int, range.end as int, nb, range.start + n);
            lemma_splice(b, range.start as int, range.end as int, nb, range.start as int);
            lemma_splice(b, range.start as int, range.end as int, nb, total as int);
        }
        let k = range.start + n;
        self.content = text;
        self.marked_range = Some(range.start..k);
        self.selection_reversed = false;
        match new_selection {
            Some(r) => {
                proof {
                    lemma_splice(b, range.start as int, range.end as int, nb, range.start + r.start);
                    lemma_splice(b, range.start as int, range.end as int, nb, range.start + r.end);
                }
                self.selected_range = (range.start + r.start)..(range.start + r.end);
            },
            None => {
                self.selected_range = k..k;
            },
        }
    }

    /// Cuts the line after byte `at` and returns what was cut off; the ranges are clamped
    /// into what is left and the composition range is dropped.
    pub fn truncate(&mut self, at: usize) -> (tail: String)
        requires
            old(self)@.wf(),
            at <= old(self)@.len(),
            is_char_boundary(old(self)@.text, at as int),
        ensures
            final(self)@ == old(self)@.truncated(at),
            final(self)@.wf(),
            bytes_of(tail@) == old(self)@.text.subrange(at as int, old(self)@.len() as int),
    {
        let len = byte_len(self.content.as_str());
        proof {
            is_char_boundary_start_end_of_seq(self@.text);
        }
        let head = slice(self.content.as_str(), 0, at);
        let tail = slice(self.content.as_str(), at, len);
        let ghost b = self@.text;
        proof {
            let s = self.selected_range;
            lemma_boundary_subrange(b, 0, at as int, clamp(s.start, at) as int);
            lemma_boundary_subrange(b, 0, at as int, clamp(s.end, at) as int);
        }
        let start = if self.selected_range.start <= at { self.selected_range.start } else { at };
        let end = if self.selected_range.end <= at { self.selected_range.end } else { at };
        self.content = head;
        self.selected_range = start..end;
        self.marked_range = None;
        tail
    }

    /// Appends `tail` and puts the caret at the join point.
    pub fn join(&mut self, tail: &str)
        requires
            old(self)@.wf(),
        ensures
            final(self)@ == old(self)@.joined(bytes_of(tail@)),
            final(self)@.wf(),
    {
        let at = byte_len(self.content.as_str());
        let len = byte_len(self.content.as_str());
        proof {
            is_char_boundary_start_end_of_seq(self@.text);
        }
        let text = splice(self.content.as_str(), len, len, tail);
        proof {
            let b = self@.text;
            assert(b.subrange(0, len as int) =~= b);
            assert(b.subrange(len as int, len as int) =~= Seq::<u8>::empty());
            assert(bytes_of(text@) =~= b + bytes_of(tail@));
            lemma_splice(b, len as int, len as int, bytes_of(tail@), at as int);
            lemma_splice(b, len as int, len as int, bytes_of(tail@), 0);
        }
        self.content = text;
        self.selected_range = at..at;
        self.selection_reversed = false;
        self.marked_range = None;
    }

    /// Puts `head` in front of the text; the ranges move along with the text they cover.
    pub fn prepend(&mut self, head: &str)
        requires
            old(self)@.wf(),
        ensures
            final(self)@ == old(self)@.prepended(bytes_of(head@)),
            final(self)@.wf(),
    {
        proof {
            is_char_boundary_start_end_of_seq(self@.text);
        }
        let text = splice(self.content.as_str(), 0, 0, head);
        let d = byte_len(head);
        let total = byte_len(text.as_str());
        let ghost b = self@.text;
        let ghost hb = bytes_of(head@);
        proof {
            assert(b.subrange(0, 0) =~= Seq::<u8>::empty());
            assert(b.subrange(0, b.len() as int) =~= b);
            assert(bytes_of(text@) =~= hb + b);
            let s = self.selected_range;
            lemma_splice(b, 0, 0, hb, s.start + d);
            lemma_splice(b, 0, 0, hb, s.end + d);
            lemma_splice(b, 0, 0, hb, total as int);
            if let Some(m) = self@.marked {
                lemma_splice(b, 0, 0, hb, m.start + d);
                lemma_splice(b, 0, 0, hb, m.end + d);
            }
        }
        self.content = text;
        self.selected_range = (self.selected_range.start + d)..(self.selected_range.end + d);
        self.marked_range = match &self.marked_range {
            Some(m) => Some((m.start + d)..(m.end + d)),
            None => None,
        };
    }

    /// The runs in which the line is drawn: see [`runs_of`].
    pub fn text_runs(&self) -> (r: Vec<(usize, bool)>)
        requires
            self@.wf(),
        ensures
            r@ == runs_of(self@),
    {
        let len = byte_len(self.content.as_str());
        let mut runs: Vec<(usize, bool)> = Vec::new();
        match &self.marked_range {
            Some(m) => {
                if m.start > 0 {
                    runs.push((m.start, false));
                }
                if m.end > m.start {
                    runs.push((m.end - m.start, true));
                }
                if len > m.end {
                    runs.push((len - m.end, false));
                }
            },
            None => {
                runs.push((len, false));
            },
        }
        assert(runs@ =~= runs_of(self@));
        runs
    }

    /// The caret offset: the active end of the selection.
    pub fn cursor_offset(&self) -> (r: usize)
        ensures
            r == self@.cursor(),
    {
        if self.selection_reversed {
            self.selected_range.start
        } else {
            self.selected_range.end
        }
    }
}

} // verus!
