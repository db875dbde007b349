//! The buffer: an ordered, never empty sequence of lines, the active line, and the edit,
//! navigation, pointer and reflow commands that act on them.

use std::ops::Range;
use vstd::prelude::*;
use vstd::utf8::*;
use crate::codec::{external_offset, internal_offset, offset_from_utf16, offset_to_utf16};
use crate::grapheme::{grapheme_offsets, next_boundary, next_start, previous_boundary, previous_start};
use crate::line::{clamp, range_in, LineView, TextLine};
use crate::text::{
    boundary_at_or_before, byte_len, bytes_of, floor_char_boundary, lemma_ascii_boundaries,
    lemma_boundary_at_or_before, lemma_boundary_concat, lemma_boundary_subrange,
    lemma_encode_concat, lemma_space_bytes, slice,
};

verus! {

broadcast use vstd::utf8::group_utf8_lib;

/// What the buffer holds: its lines, the index of the active line, and whether a pointer
/// drag is extending the selection.
pub struct InputView {
    pub lines: Seq<LineView>,
    pub active: int,
    pub selecting: bool,
}

/// The start of the grapheme cluster before byte `k` of the line, or 0.
pub open spec fn prev_grapheme(l: LineView, k: usize) -> usize {
    previous_start(grapheme_offsets(decode_utf8(l.text)), k as int) as usize
}

/// The start of the grapheme cluster after byte `k` of the line, or its length.
pub open spec fn next_grapheme(l: LineView, k: usize) -> usize {
    next_start(grapheme_offsets(decode_utf8(l.text)), k as int, l.len() as int) as usize
}

/// Where a caret at byte `k` of another line lands on line `l`: at the same offset, clamped
/// to the end of `l` and moved back to a character boundary.
pub open spec fn carried_caret(l: LineView, k: usize) -> usize {
    boundary_at_or_before(l.text, k as int) as usize
}

/// The byte range of `text` named by the UTF-16 range `r`, with its ends put in order.
pub open spec fn bytes_range_of(text: Seq<char>, r: Range<usize>) -> Range<usize> {
    let a = internal_offset(text, r.start as int) as usize;
    let b = internal_offset(text, r.end as int) as usize;
    if a <= b {
        a..b
    } else {
        b..a
    }
}

/// The UTF-16 range of `text` that corresponds to the byte range `r`.
pub open spec fn utf16_range_of(text: Seq<char>, r: Range<usize>) -> Range<usize> {
    (external_offset(text, r.start as int) as usize)..(external_offset(text, r.end as int) as usize)
}

/// The byte value of a space.
pub const SPACE: u8 = 0x20;

/// Where reflow breaks a line whose text first overflows at byte `k`: the last space at or
/// before `k` that has text before it, or 0 when there is none.
pub open spec fn break_before(text: Seq<u8>, k: int) -> int
    decreases k,
{
    if k <= 0 {
        0
    } else if k < text.len() && text[k] == SPACE {
        k
    } else {
        break_before(text, k - 1)
    }
}

/// A break point is a space inside the text, after its first byte and no later than `k`.
pub proof fn lemma_break_before(text: Seq<u8>, k: int)
    ensures
        break_before(text, k) == 0 || (0 < break_before(text, k) <= k && break_before(text, k)
            < text.len() && text[break_before(text, k)] == SPACE),
    decreases k,
{
    if k > 0 && !(k < text.len() && text[k] == SPACE) {
        lemma_break_before(text, k - 1);
    }
}

/// An empty line with the caret at its start.
pub open spec fn empty_line() -> LineView {
    LineView { text: seq![], selection: 0..0, reversed: false, marked: None }
}

impl InputView {
    /// At least one line, a valid active index, and every line well formed.
    pub open spec fn wf(self) -> bool {
        &&& self.lines.len() > 0
        &&& 0 <= self.active < self.lines.len()
        &&& forall|i: int| 0 <= i < self.lines.len() ==> #[trigger] self.lines[i].wf()
    }

    /// The active line.
    pub open spec fn line(self) -> LineView {
        self.lines[self.active]
    }

    /// The buffer with the active line replaced by `l`.
    pub open spec fn with_line(self, l: LineView) -> InputView {
        InputView { lines: self.lines.update(self.active, l), ..self }
    }

    /// The buffer with line `i` active and its caret put at `k`.
    pub open spec fn caret_on(self, i: int, k: usize) -> InputView {
        InputView { lines: self.lines.update(i, self.lines[i].with_caret(k)), active: i, ..self }
    }

    /// Left: from the start of a line to the end of the one above; otherwise one grapheme
    /// back, or to the start of a non-empty selection.
    pub open spec fn after_left(self) -> InputView {
        let l = self.line();
        if self.active > 0 && l.cursor() == 0 {
            self.caret_on(self.active - 1, self.lines[self.active - 1].len() as usize)
        } else if l.selection.start == l.selection.end {
            self.with_line(l.with_caret(prev_grapheme(l, l.cursor())))
        } else {
            self.with_line(l.with_caret(l.selection.start))
        }
    }

    /// Right: from the end of a line to the start of the one below; otherwise one grapheme
    /// forward, or to the end of a non-empty selection.
    pub open spec fn after_right(self) -> InputView {
        let l = self.line();
        if self.active < self.lines.len() - 1 && l.cursor() == l.len() {
            self.caret_on(self.active + 1, 0)
        } else if l.selection.start == l.selection.end {
            self.with_line(l.with_caret(next_grapheme(l, l.cursor())))
        } else {
            self.with_line(l.with_caret(l.selection.end))
        }
    }

    /// The explicit range of an input-method edit, turned into bytes of the active line.
    pub open spec fn explicit_range(self, range_utf16: Option<Range<usize>>) -> Option<Range<usize>> {
        match range_utf16 {
            Some(r) => Some(bytes_range_of(decode_utf8(self.line().text), r)),
            None => None,
        }
    }

    /// The byte range that an edit with `range_utf16` replaces on the active line.
    pub open spec fn edit_range(self, range_utf16: Option<Range<usize>>) -> Range<usize> {
        self.line().effective_range(self.explicit_range(range_utf16))
    }

    /// The buffer after replacing the edit range of the active line with `new_text`.
    pub open spec fn after_replace(self, range_utf16: Option<Range<usize>>, new_text: Seq<u8>) -> InputView {
        self.with_line(self.line().replaced(self.edit_range(range_utf16), new_text))
    }

    /// The buffer after replacing the edit range of the active line with `new_text` and
    /// marking it as the composition; the selection is `new_selection_utf16`, relative to
    /// the inserted text, or else a caret just after it.
    pub open spec fn after_mark(
        self,
        range_utf16: Option<Range<usize>>,
        new_text: Seq<char>,
        new_selection_utf16: Option<Range<usize>>,
    ) -> InputView {
        let l = self.line();
        let r = self.edit_range(range_utf16);
        let n = bytes_of(new_text).len();
        let end = (r.start + n) as usize;
        self.with_line(
            LineView {
                text: l.spliced(r, bytes_of(new_text)),
                selection: match new_selection_utf16 {
                    Some(q) => {
                        let b = bytes_range_of(new_text, q);
                        ((r.start + b.start) as usize)..((r.start + b.end) as usize)
                    },
                    None => end..end,
                },
                reversed: false,
                marked: Some(r.start..end),
            },
        )
    }

    /// Backspace: deletes the selection, or else merges a line whose start holds the caret
    /// into the line above, or else deletes the grapheme before the caret. A composition
    /// range, when present, is what gets deleted.
    pub open spec fn after_backspace(self) -> InputView {
        let l = self.line();
        if l.selection.start == l.selection.end && l.cursor() == 0 && self.active > 0 {
            let above = self.lines[self.active - 1];
            InputView {
                lines: self.lines.update(self.active - 1, above.joined(l.text)).remove(self.active),
                active: self.active - 1,
                ..self
            }
        } else {
            let m = if l.selection.start == l.selection.end {
                l.extended(prev_grapheme(l, l.cursor()))
            } else {
                l
            };
            self.with_line(m.replaced(m.effective_range(None), seq![]))
        }
    }

    /// Delete: deletes the selection, or else the grapheme after the caret; it never joins
    /// lines. A composition range, when present, is what gets deleted.
    pub open spec fn after_delete(self) -> InputView {
        let l = self.line();
        let m = if l.selection.start == l.selection.end {
            l.extended(next_grapheme(l, l.cursor()))
        } else {
            l
        };
        self.with_line(m.replaced(m.effective_range(None), seq![]))
    }

    /// Enter: the text from the caret on moves to a new line below, which becomes active
    /// with the caret at its start.
    pub open spec fn after_enter(self) -> InputView {
        let l = self.line();
        let c = l.cursor();
        InputView {
            lines: self.lines.update(self.active, l.truncated(c)).insert(
                self.active + 1,
                LineView {
                    text: l.text.subrange(c as int, l.len() as int),
                    selection: 0..0,
                    reversed: false,
                    marked: None,
                },
            ),
            active: self.active + 1,
            ..self
        }
    }

    /// Where a pointer on text row `row` lands, as (offset, line): the row clamped to the
    /// last line, and the offset that the layout found closest (0 when the row has no
    /// layout yet) clamped into that line and moved back to a character boundary.
    pub open spec fn locate(self, row: usize, closest: Option<usize>) -> (usize, usize) {
        let y = if row < self.lines.len() {
            row
        } else {
            (self.lines.len() - 1) as usize
        };
        let x = match closest {
            Some(x) => carried_caret(self.lines[y as int], x),
            None => 0,
        };
        (x, y)
    }

    /// The active line with its selection extended towards offset `x`, clamped into it.
    pub open spec fn extended_to(self, x: usize) -> InputView {
        self.with_line(self.line().extended(carried_caret(self.line(), x)))
    }

    /// Pointer down: a drag starts; with shift the active line's selection extends towards
    /// the pointer, otherwise the pointer's line becomes active with the caret there.
    pub open spec fn after_mouse_down(self, row: usize, closest: Option<usize>, shift: bool) -> InputView {
        let (x, y) = self.locate(row, closest);
        let v = InputView { selecting: true, ..self };
        if shift {
            v.extended_to(x)
        } else {
            v.caret_on(y as int, x)
        }
    }

    /// Pointer move: during a drag the active line's selection extends towards the pointer.
    pub open spec fn after_mouse_move(self, row: usize, closest: Option<usize>) -> InputView {
        if self.selecting {
            self.extended_to(self.locate(row, closest).0)
        } else {
            self
        }
    }

    /// One reflow step on line `index`, given whether its rendered text overflows the
    /// available width and the byte offset at which it first does. When it overflows and
    /// has a space to break at, the text after that space moves to the front of the next
    /// line (created when missing), joined to it by a space unless that line is empty; a
    /// caret inside the moved text moves with it. The second component names the line to
    /// check next.
    pub open spec fn after_reflow(self, index: int, overflows: bool, fit: usize) -> (InputView, Option<usize>) {
        let l = self.lines[index];
        let s = break_before(l.text, fit as int);
        if !overflows || s == 0 {
            (self, None)
        } else {
            let w = s + 1;
            let moved = l.text.subrange(w, l.len() as int);
            let lines = if index + 1 == self.lines.len() {
                self.lines.push(empty_line())
            } else {
                self.lines
            };
            let dest = lines[index + 1];
            let head = if dest.text.len() > 0 {
                moved + seq![SPACE]
            } else {
                moved
            };
            let carried = index == self.active && l.cursor() >= w;
            let new_dest = if carried {
                dest.prepended(head).with_caret((l.cursor() - w) as usize)
            } else {
                dest.prepended(head)
            };
            (
                InputView {
                    lines: lines.update(index, l.truncated(s as usize)).update(index + 1, new_dest),
                    active: if carried {
                        index + 1
                    } else {
                        self.active
                    },
                    ..self
                },
                Some((index + 1) as usize),
            )
        }
    }

    /// Up: to the line above, with the caret at the same offset clamped into that line.
    pub open spec fn after_up(self) -> InputView {
        if self.active > 0 {
            let target = self.lines[self.active - 1];
            self.caret_on(self.active - 1, carried_caret(target, self.line().cursor()))
        } else {
            self
        }
    }

    /// Down: to the line below, with the caret at the same offset clamped into that line.
    pub open spec fn after_down(self) -> InputView {
        if self.active < self.lines.len() - 1 {
            let target = self.lines[self.active + 1];
            self.caret_on(self.active + 1, carried_caret(target, self.line().cursor()))
        } else {
            self
        }
    }
}

/// The last space at or before byte `k` of `text` that has text before it, or 0.
fn break_point(text: &str, k: usize) -> (r: usize)
    ensures
        r == break_before(bytes_of(text@), k as int),
{
    let bytes = text.as_bytes();
    let len = bytes.len();
    let mut i = k;
    while i > 0 && !(i < len && bytes[i] == SPACE)
        invariant
            i <= k,
            len == bytes@.len(),
            bytes@ == bytes_of(text@),
            break_before(bytes_of(text@), k as int) == break_before(bytes_of(text@), i as int),
        decreases i,
    {
        i = i - 1;
    }
    i
}

/// The moved word `word`, followed by a separating space when the line it goes to is not
/// empty.
fn word_with_separator(word: String, separate: bool) -> (r: String)
    ensures
        bytes_of(r@) == if separate {
            bytes_of(word@) + seq![SPACE]
        } else {
            bytes_of(word@)
        },
{
    let mut r = word;
    if separate {
        proof {
            reveal_strlit(" ");
            assert(" "@ =~= seq![' ']);
            lemma_space_bytes();
            lemma_encode_concat(r@, " "@);
        }
        r.append(" ");
    }
    r
}

/// The editing buffer.
pub struct TextInput {
    content: Vec<TextLine>,
    content_idx: usize,
    is_selecting: bool,
}

impl View for TextInput {
    type V = InputView;

    closed spec fn view(&self) -> InputView {
        InputView {
            lines: self.content@.map_values(|l: TextLine| l@),
            active: self.content_idx as int,
            selecting: self.is_selecting,
        }
    }
}

impl TextInput {
    /// The buffer is well formed.
    pub open spec fn wf(&self) -> bool {
        self@.wf()
    }

    /// A buffer of one empty line with the caret at its start.
    pub fn new() -> (r: TextInput)
        ensures
            r.wf(),
            r@.lines.len() == 1,
            r@.lines[0] == (LineView { text: seq![], selection: 0..0, reversed: false, marked: None }),
            r@.active == 0,
            !r@.selecting,
    {
        let line = TextLine::new(String::new());
        let mut content = Vec::new();
        content.push(line);
        let r = TextInput { content, content_idx: 0, is_selecting: false };
        assert(r@.lines =~= seq![line@]);
        r
    }

    /// A buffer holding `lines`, the first one active with the caret at its start; `None`
    /// when `lines` is empty, since a buffer always has a line.
    pub fn from_lines(lines: Vec<String>) -> (r: Option<TextInput>)
        ensures
            lines@.len() == 0 <==> r is None,
            r matches Some(b) ==> {
                &&& b.wf()
                &&& b@.lines.len() == lines@.len()
                &&& forall|i: int|
                    0 <= i < lines@.len() ==> #[trigger] b@.lines[i] == (LineView {
                        text: bytes_of(lines@[i]@),
                        selection: 0..0,
                        reversed: false,
                        marked: None,
                    })
                &&& b@.active == 0
                &&& !b@.selecting
            },
    {
        if lines.len() == 0 {
            return None;
        }
        let mut content: Vec<TextLine> = Vec::new();
        let mut i: usize = 0;
        while i < lines.len()
            invariant
                i <= lines@.len(),
                content@.len() == i,
                forall|j: int|
                    0 <= j < i ==> #[trigger] content@[j]@ == (LineView {
                        text: bytes_of(lines@[j]@),
                        selection: 0..0,
                        reversed: false,
                        marked: None,
                    }) && content@[j]@.wf(),
            decreases lines@.len() - i,
        {
            let text = lines[i].clone();
            content.push(TextLine::new(text));
            i = i + 1;
        }
        let r = TextInput { content, content_idx: 0, is_selecting: false };
        assert forall|j: int| 0 <= j < r@.lines.len() implies #[trigger] r@.lines[j].wf() by {
            assert(r@.lines[j] == content@[j]@);
        }
        Some(r)
    }

    /// Number of lines.
    pub fn line_count(&self) -> (r: usize)
        ensures
            r == self@.lines.len(),
    {
        self.content.len()
    }

    /// Line `index`.
    pub fn line(&self, index: usize) -> (r: &TextLine)
        requires
            index < self@.lines.len(),
        ensures
            r@ == self@.lines[index as int],
    {
        &self.content[index]
    }

    /// Index of the active line.
    pub fn active_line(&self) -> (r: usize)
        ensures
            r == self@.active,
    {
        self.content_idx
    }

    /// Whether a pointer drag is extending the selection.
    pub fn is_selecting(&self) -> (r: bool)
        ensures
            r == self@.selecting,
    {
        self.is_selecting
    }

    /// The caret offset on the active line.
    pub fn cursor_offset(&self) -> (r: usize)
        requires
            self.wf(),
        ensures
            r == self@.line().cursor(),
    {
        self.content[self.content_idx].cursor_offset()
    }

    /// Collapses the active line's selection to a caret at `offset`.
    fn move_x(&mut self, offset: usize)
        requires
            old(self).wf(),
            offset <= old(self)@.line().len(),
            is_char_boundary(old(self)@.line().text, offset as int),
        ensures
            final(self)@ == old(self)@.with_line(old(self)@.line().with_caret(offset)),
            final(self).wf(),
    {
        let index = self.content_idx;
        self.put_caret(index, offset);
        assert(self@.lines =~= old(self)@.with_line(old(self)@.line().with_caret(offset)).lines);
    }

    /// Moves the caret end of the active line's selection to `offset`.
    fn select_to(&mut self, offset: usize)
        requires
            old(self).wf(),
            offset <= old(self)@.line().len(),
            is_char_boundary(old(self)@.line().text, offset as int),
        ensures
            final(self)@ == old(self)@.with_line(old(self)@.line().extended(offset)),
            final(self).wf(),
    {
        let index = self.content_idx;
        proof {
            assert(self@.lines[index as int] == self.content@[index as int]@);
        }
        self.content[index].select_to(offset);
        proof {
            assert(self@.lines =~= old(self)@.lines.update(
                index as int,
                old(self)@.lines[index as int].extended(offset),
            ));
        }
    }

    /// The grapheme boundary before the caret of the active line.
    fn previous_boundary(&self) -> (r: usize)
        requires
            self.wf(),
        ensures
            r == prev_grapheme(self@.line(), self@.line().cursor()),
            r <= self@.line().len(),
            is_char_boundary(self@.line().text, r as int),
    {
        let line = &self.content[self.content_idx];
        previous_boundary(line.content(), line.cursor_offset())
    }

    /// The grapheme boundary after the caret of the active line.
    fn next_boundary(&self) -> (r: usize)
        requires
            self.wf(),
        ensures
            r == next_grapheme(self@.line(), self@.line().cursor()),
            r <= self@.line().len(),
            is_char_boundary(self@.line().text, r as int),
    {
        let line = &self.content[self.content_idx];
        next_boundary(line.content(), line.cursor_offset())
    }

    /// Left: see [`InputView::after_left`].
    pub fn left(&mut self)
        requires
            old(self).wf(),
        ensures
            final(self)@ == old(self)@.after_left(),
            final(self).wf(),
    {
        let idx = self.content_idx;
        proof {
            assert(self@.lines[idx as int].wf());
        }
        if idx > 0 && self.cursor_offset() == 0 {
            let len = byte_len(self.content[idx - 1].content());
            proof {
                assert(self@.lines[idx - 1].wf());
            }
            self.put_caret(idx - 1, len);
        } else if self.content[idx].selected_range().start == self.content[idx].selected_range().end {
            let k = self.previous_boundary();
            self.move_x(k);
        } else {
            let k = self.content[idx].selected_range().start;
            self.move_x(k);
        }
    }

    /// Right: see [`InputView::after_right`].
    pub fn right(&mut self)
        requires
            old(self).wf(),
        ensures
            final(self)@ == old(self)@.after_right(),
            final(self).wf(),
    {
        let idx = self.content_idx;
        proof {
            assert(self@.lines[idx as int].wf());
        }
        let len = byte_len(self.content[idx].content());
        if idx < self.content.len() - 1 && self.cursor_offset() == len {
            proof {
                assert(self@.lines[idx + 1].wf());
            }
            self.put_caret(idx + 1, 0);
        } else if self.content[idx].selected_range().start == self.content[idx].selected_range().end {
            let k = self.next_boundary();
            self.move_x(k);
        } else {
            let k = self.content[idx].selected_range().end;
            self.move_x(k);
        }
    }

    /// Up: see [`InputView::after_up`].
    pub fn up(&mut self)
        requires
            old(self).wf(),
        ensures
            final(self)@ == old(self)@.after_up(),
            final(self).wf(),
    {
        let idx = self.content_idx;
        if idx > 0 {
            let k = floor_char_boundary(self.content[idx - 1].content(), self.cursor_offset());
            self.put_caret(idx - 1, k);
        }
    }

    /// Down: see [`InputView::after_down`].
    pub fn down(&mut self)
        requires
            old(self).wf(),
        ensures
            final(self)@ == old(self)@.after_down(),
            final(self).wf(),
    {
        let idx = self.content_idx;
        if idx < self.content.len() - 1 {
            let k = floor_char_boundary(self.content[idx + 1].content(), self.cursor_offset());
            self.put_caret(idx + 1, k);
        }
    }

    /// Extends the selection one grapheme to the left, within the active line.
    pub fn select_left(&mut self)
        requires
            old(self).wf(),
        ensures
            final(self)@ == old(self)@.with_line(
                old(self)@.line().extended(prev_grapheme(old(self)@.line(), old(self)@.line().cursor())),
            ),
            final(self).wf(),
    {
        let k = self.previous_boundary();
        self.select_to(k);
    }

    /// Extends the selection one grapheme to the right, within the active line.
    pub fn select_right(&mut self)
        requires
            old(self).wf(),
        ensures
            final(self)@ == old(self)@.with_line(
                old(self)@.line().extended(next_grapheme(old(self)@.line(), old(self)@.line().cursor())),
            ),
            final(self).wf(),
    {
        let k = self.next_boundary();
        self.select_to(k);
    }

    /// Selects the whole active line, with the caret at its end.
    pub fn select_all(&mut self)
        requires
            old(self).wf(),
        ensures
            final(self)@ == old(self)@.with_line(
                LineView { selection: 0..(old(self)@.line().len() as usize), reversed: false, ..old(self)@.line() },
            ),
            final(self).wf(),
    {
        proof {
            assert(self@.lines[self@.active].wf());
        }
        self.move_x(0);
        let len = byte_len(self.content[self.content_idx].content());
        self.select_to(len);
        assert(self@.lines =~= old(self)@.with_line(
            LineView { selection: 0..(old(self)@.line().len() as usize), reversed: false, ..old(self)@.line() },
        ).lines);
    }

    /// Puts the caret at the start of the active line.
    pub fn home(&mut self)
        requires
            old(self).wf(),
        ensures
            final(self)@ == old(self)@.with_line(old(self)@.line().with_caret(0)),
            final(self).wf(),
    {
        self.cursor_to_start();
    }

    /// Puts the caret at the end of the active line.
    pub fn end(&mut self)
        requires
            old(self).wf(),
        ensures
            final(self)@ == old(self)@.with_line(old(self)@.line().with_caret(old(self)@.line().len() as usize)),
            final(self).wf(),
    {
        self.cursor_to_end();
    }

    /// Puts the caret at the end of the active line.
    pub fn cursor_to_end(&mut self)
        requires
            old(self).wf(),
        ensures
            final(self)@ == old(self)@.with_line(old(self)@.line().with_caret(old(self)@.line().len() as usize)),
            final(self).wf(),
    {
        let len = byte_len(self.content[self.content_idx].content());
        proof {
            assert(self@.lines[self@.active].wf());
        }
        self.move_x(len);
    }

    /// Puts the caret at the start of the active line.
    pub fn cursor_to_start(&mut self)
        requires
            old(self).wf(),
        ensures
            final(self)@ == old(self)@.with_line(old(self)@.line().with_caret(0)),
            final(self).wf(),
    {
        proof {
            assert(self@.lines[self@.active].wf());
        }
        self.move_x(0);
    }

    /// The UTF-16 range of the active line that corresponds to the byte range `range`.
    pub fn range_to_utf16(&self, range: &Range<usize>) -> (r: Range<usize>)
        requires
            self.wf(),
        ensures
            r == utf16_range_of(decode_utf8(self@.line().text), *range),
    {
        let text = self.content[self.content_idx].content();
        offset_to_utf16(text, range.start)..offset_to_utf16(text, range.end)
    }

    /// The byte range of the active line named by the UTF-16 range `range_utf16`, with its
    /// ends put in order.
    pub fn range_from_utf16(&self, range_utf16: &Range<usize>) -> (r: Range<usize>)
        requires
            self.wf(),
        ensures
            r == bytes_range_of(decode_utf8(self@.line().text), *range_utf16),
            range_in(self@.line().text, r),
    {
        let text = self.content[self.content_idx].content();
        let a = offset_from_utf16(text, range_utf16.start);
        let b = offset_from_utf16(text, range_utf16.end);
        if a <= b {
            a..b
        } else {
            b..a
        }
    }

    /// The byte range that an edit with `range_utf16` replaces on the active line.
    fn edit_range(&self, range_utf16: &Option<Range<usize>>) -> (r: Range<usize>)
        requires
            self.wf(),
        ensures
            r == self@.edit_range(*range_utf16),
            range_in(self@.line().text, r),
    {
        proof {
            assert(self@.lines[self@.active].wf());
        }
        match range_utf16 {
            Some(r) => self.range_from_utf16(r),
            None => {
                let line = &self.content[self.content_idx];
                match line.marked_range() {
                    Some(m) => m,
                    None => line.selected_range(),
                }
            },
        }
    }

    /// Replaces the edit range of the active line (the explicit UTF-16 range, else the
    /// composition range, else the selection) with `new_text`. The caret lands just after
    /// the inserted text and the composition range is cleared.
    pub fn replace_text_in_range(&mut self, range_utf16: Option<Range<usize>>, new_text: &str)
        requires
            old(self).wf(),
        ensures
            final(self)@ == old(self)@.after_replace(range_utf16, bytes_of(new_text@)),
            final(self).wf(),
            final(self)@.line().selection.start == old(self)@.edit_range(range_utf16).start
                + bytes_of(new_text@).len(),
            final(self)@.line().selection.end == final(self)@.line().selection.start,
            final(self)@.line().marked is None,
    {
        let range = self.edit_range(&range_utf16);
        let idx = self.content_idx;
        proof {
            assert(self@.lines[idx as int] == self.content@[idx as int]@);
        }
        self.content[idx].replace_range(range, new_text);
        proof {
            assert(self@.lines =~= old(self)@.after_replace(range_utf16, bytes_of(new_text@)).lines);
            assert(self@.line() == self.content@[idx as int]@);
        }
    }

    /// Replaces the edit range of the active line with `new_text` and marks the inserted
    /// text as the composition range. The selection becomes `new_selected_range_utf16`,
    /// given in UTF-16 units relative to the inserted text, or else a caret just after it.
    pub fn replace_and_mark_text_in_range(
        &mut self,
        range_utf16: Option<Range<usize>>,
        new_text: &str,
        new_selected_range_utf16: Option<Range<usize>>,
    )
        requires
            old(self).wf(),
        ensures
            final(self)@ == old(self)@.after_mark(range_utf16, new_text@, new_selected_range_utf16),
            final(self).wf(),
    {
        let range = self.edit_range(&range_utf16);
        let new_selection = match &new_selected_range_utf16 {
            Some(q) => {
                let a = offset_from_utf16(new_text, q.start);
                let b = offset_from_utf16(new_text, q.end);
                Some(if a <= b { a..b } else { b..a })
            },
            None => None,
        };
        let idx = self.content_idx;
        proof {
            assert(self@.lines[idx as int] == self.content@[idx as int]@);
            assert(decode_utf8(bytes_of(new_text@)) == new_text@);
        }
        self.content[idx].mark_range(range, new_text, new_selection);
        proof {
            assert(self@.lines =~= old(self)@.after_mark(range_utf16, new_text@, new_selected_range_utf16).lines);
        }
    }

    /// The text of the active line in the UTF-16 range `range_utf16`.
    pub fn text_for_range(&self, range_utf16: &Range<usize>) -> (r: String)
        requires
            self.wf(),
        ensures
            bytes_of(r@) == self@.line().text.subrange(
                bytes_range_of(decode_utf8(self@.line().text), *range_utf16).start as int,
                bytes_range_of(decode_utf8(self@.line().text), *range_utf16).end as int,
            ),
    {
        let range = self.range_from_utf16(range_utf16);
        crate::text::slice(self.content[self.content_idx].content(), range.start, range.end)
    }

    /// The selection of the active line in UTF-16 units, and whether it is reversed.
    pub fn selected_text_range(&self) -> (r: (Range<usize>, bool))
        requires
            self.wf(),
        ensures
            r.0 == utf16_range_of(decode_utf8(self@.line().text), self@.line().selection),
            r.1 == self@.line().reversed,
    {
        let line = &self.content[self.content_idx];
        (self.range_to_utf16(&line.selected_range()), line.selection_reversed())
    }

    /// The composition range of the active line in UTF-16 units, if any.
    pub fn marked_text_range(&self) -> (r: Option<Range<usize>>)
        requires
            self.wf(),
        ensures
            r == match self@.line().marked {
                Some(m) => Some(utf16_range_of(decode_utf8(self@.line().text), m)),
                None => None,
            },
    {
        match self.content[self.content_idx].marked_range() {
            Some(m) => Some(self.range_to_utf16(&m)),
            None => None,
        }
    }

    /// Drops the composition range of the active line.
    pub fn unmark_text(&mut self)
        requires
            old(self).wf(),
        ensures
            final(self)@ == old(self)@.with_line(LineView { marked: None, ..old(self)@.line() }),
            final(self).wf(),
    {
        let idx = self.content_idx;
        proof {
            assert(self@.lines[idx as int] == self.content@[idx as int]@);
        }
        self.content[idx].unmark();
        proof {
            assert(self@.lines =~= old(self)@.with_line(LineView { marked: None, ..old(self)@.line() }).lines);
        }
    }

    /// Deletes the edit range of the active line (the composition range, else the
    /// selection).
    fn delete_edit_range(&mut self)
        requires
            old(self).wf(),
        ensures
            final(self)@ == old(self)@.with_line(
                old(self)@.line().replaced(old(self)@.line().effective_range(None), seq![]),
            ),
            final(self).wf(),
    {
        proof {
            reveal_strlit("");
        }
        self.replace_text_in_range(None, "");
        assert(bytes_of(""@) =~= Seq::<u8>::empty());
    }

    /// Backspace: see [`InputView::after_backspace`].
    pub fn backspace(&mut self)
        requires
            old(self).wf(),
        ensures
            final(self)@ == old(self)@.after_backspace(),
            final(self).wf(),
    {
        let idx = self.content_idx;
        proof {
            assert(self@.lines[idx as int].wf());
        }
        let range = self.content[idx].selected_range();
        if range.start == range.end {
            if self.cursor_offset() == 0 && idx > 0 {
                let tail = self.content[idx].content().to_owned();
                proof {
                    assert(self@.lines[idx - 1] == self.content@[idx - 1]@);
                    assert(self@.lines[idx - 1].wf());
                }
                self.content[idx - 1].join(tail.as_str());
                self.content.remove(idx);
                self.content_idx = idx - 1;
                proof {
                    let v = old(self)@;
                    assert(self@.lines =~= v.lines.update(
                        v.active - 1,
                        v.lines[v.active - 1].joined(v.line().text),
                    ).remove(v.active));
                    assert forall|i: int| 0 <= i < self@.lines.len() implies #[trigger] self@.lines[i].wf() by {
                        if i < idx - 1 {
                            assert(self@.lines[i] == v.lines[i]);
                        } else if i >= idx {
                            assert(self@.lines[i] == v.lines[i + 1]);
                        }
                    }
                }
                return;
            } else {
                let k = self.previous_boundary();
                self.select_to(k);
            }
        }
        self.delete_edit_range();
        assert(self@.lines =~= old(self)@.after_backspace().lines);
    }

    /// Delete: see [`InputView::after_delete`].
    pub fn delete(&mut self)
        requires
            old(self).wf(),
        ensures
            final(self)@ == old(self)@.after_delete(),
            final(self).wf(),
    {
        let idx = self.content_idx;
        let range = self.content[idx].selected_range();
        if range.start == range.end {
            let k = self.next_boundary();
            self.select_to(k);
        }
        self.delete_edit_range();
        assert(self@.lines =~= old(self)@.after_delete().lines);
    }

    /// Enter: see [`InputView::after_enter`].
    pub fn enter(&mut self)
        requires
            old(self).wf(),
        ensures
            final(self)@ == old(self)@.after_enter(),
            final(self).wf(),
    {
        let idx = self.content_idx;
        let c = self.cursor_offset();
        proof {
            assert(self@.lines[idx as int] == self.content@[idx as int]@);
            assert(self@.lines[idx as int].wf());
        }
        let n = self.content.len();
        let leftovers = self.content[idx].truncate(c);
        proof {
            let v = old(self)@;
            assert(self@.lines =~= v.lines.update(idx as int, v.line().truncated(c)));
            assert forall|i: int| 0 <= i < self@.lines.len() implies #[trigger] self@.lines[i].wf() by {
                if i != idx {
                    assert(self@.lines[i] == v.lines[i]);
                }
            }
        }
        self.new_line(leftovers, idx + 1);
        self.content_idx = idx + 1;
        proof {
            let v = old(self)@;
            let l = v.line();
            assert(self@.lines =~= v.after_enter().lines);
        }
    }

    /// Inserts a line holding `data`, with the caret at its start, at position `index`.
    pub fn new_line(&mut self, data: String, index: usize)
        requires
            old(self).wf(),
            index <= old(self)@.lines.len(),
        ensures
            final(self)@ == (InputView {
                lines: old(self)@.lines.insert(
                    index as int,
                    LineView { text: bytes_of(data@), selection: 0..0, reversed: false, marked: None },
                ),
                ..old(self)@
            }),
            final(self).wf(),
    {
        let line = TextLine::new(data);
        self.content.insert(index, line);
        proof {
            let v = old(self)@;
            assert(self@.lines =~= v.lines.insert(index as int, line@));
            assert forall|i: int| 0 <= i < self@.lines.len() implies #[trigger] self@.lines[i].wf() by {
                if i < index {
                    assert(self@.lines[i] == v.lines[i]);
                } else if i > index {
                    assert(self@.lines[i] == v.lines[i - 1]);
                }
            }
        }
    }

    /// Where a pointer on text row `row` lands, as (offset, line); `closest` is the offset
    /// that the row's layout found closest to the pointer, `None` when it has no layout yet.
    pub fn index_for_mouse_position(&self, row: usize, closest: Option<usize>) -> (r: (usize, usize))
        requires
            self.wf(),
        ensures
            r == self@.locate(row, closest),
            r.1 < self@.lines.len(),
            r.0 <= self@.lines[r.1 as int].len(),
            is_char_boundary(self@.lines[r.1 as int].text, r.0 as int),
    {
        let y = if row < self.content.len() {
            row
        } else {
            self.content.len() - 1
        };
        proof {
            assert(self@.lines[y as int].wf());
            is_char_boundary_start_end_of_seq(self@.lines[y as int].text);
        }
        let x = match closest {
            Some(x) => floor_char_boundary(self.content[y].content(), x),
            None => 0,
        };
        (x, y)
    }

    /// Extends the active line's selection towards offset `x`, clamped into the line.
    fn extend_towards(&mut self, x: usize)
        requires
            old(self).wf(),
        ensures
            final(self)@ == old(self)@.extended_to(x),
            final(self).wf(),
    {
        let k = floor_char_boundary(self.content[self.content_idx].content(), x);
        self.select_to(k);
    }

    /// Pointer down: see [`InputView::after_mouse_down`].
    pub fn on_mouse_down(&mut self, row: usize, closest: Option<usize>, shift: bool)
        requires
            old(self).wf(),
        ensures
            final(self)@ == old(self)@.after_mouse_down(row, closest, shift),
            final(self).wf(),
    {
        let (x, y) = self.index_for_mouse_position(row, closest);
        self.is_selecting = true;
        if shift {
            self.extend_towards(x);
        } else {
            self.put_caret(y, x);
        }
    }

    /// Pointer up, wherever it happens: the drag ends.
    pub fn on_mouse_up(&mut self)
        requires
            old(self).wf(),
        ensures
            final(self)@ == (InputView { selecting: false, ..old(self)@ }),
            final(self).wf(),
    {
        self.is_selecting = false;
    }

    /// Pointer move: see [`InputView::after_mouse_move`].
    pub fn on_mouse_move(&mut self, row: usize, closest: Option<usize>)
        requires
            old(self).wf(),
        ensures
            final(self)@ == old(self)@.after_mouse_move(row, closest),
            final(self).wf(),
    {
        if self.is_selecting {
            let (x, _) = self.index_for_mouse_position(row, closest);
            self.extend_towards(x);
        }
    }

    /// One reflow step on line `index`: see [`InputView::after_reflow`]. `overflows` and
    /// `fit_offset` come from the layout of the line's current text: whether it is wider
    /// than the available width, and the byte offset closest to that width. The result
    /// names the line to check next, whose text may have changed.
    pub fn check_bounds(&mut self, index: usize, overflows: bool, fit_offset: usize) -> (next: Option<usize>)
        requires
            old(self).wf(),
            index < old(self)@.lines.len(),
        ensures
            (final(self)@, next) == old(self)@.after_reflow(index as int, overflows, fit_offset),
            final(self).wf(),
    {
        if !overflows {
            return None;
        }
        let ghost v = self@;
        let ghost l = v.lines[index as int];
        proof {
            assert(l.wf());
        }
        let s = break_point(self.content[index].content(), fit_offset);
        if s == 0 {
            return None;
        }
        proof {
            lemma_break_before(l.text, fit_offset as int);
            lemma_ascii_boundaries(l.text, s as int);
            lemma_boundary_subrange(l.text, s + 1, l.len() as int, 0);
        }
        let len = byte_len(self.content[index].content());
        let moved = slice(self.content[index].content(), s + 1, len);
        let caret = self.content[index].cursor_offset();
        let carried = index == self.content_idx && caret >= s + 1;
        let ghost lines1 = if index + 1 == v.lines.len() {
            v.lines.push(empty_line())
        } else {
            v.lines
        };
        let ghost dest = lines1[index + 1];
        let ghost moved_b = l.text.subrange(s + 1, l.len() as int);
        let ghost head = if dest.text.len() > 0 {
            moved_b + seq![SPACE]
        } else {
            moved_b
        };
        proof {
            if index + 1 < v.lines.len() {
                assert(v.lines[index + 1].wf());
            }
        }
        let line_count = self.content.len();
        let below = index + 1;
        assert(below <= line_count);
        self.add_word_to_start_of_line(moved, below);
        self.truncate_line(index, s);
        if carried {
            proof {
                let j = caret - (s + 1);
                lemma_boundary_subrange(l.text, s + 1, l.len() as int, j);
                lemma_space_bytes();
                if dest.text.len() > 0 {
                    lemma_boundary_concat(moved_b, seq![SPACE], j);
                }
                lemma_boundary_concat(head, dest.text, j);
            }
            self.put_caret(below, caret - (s + 1));
        }
        proof {
            let (w, _) = v.after_reflow(index as int, overflows, fit_offset);
            assert(self@.lines =~= w.lines);
        }
        Some(below)
    }

    /// Puts `word` in front of line `index`, which is created empty when it is one past the
    /// last line; a space separates the word from text already on the line.
    fn add_word_to_start_of_line(&mut self, word: String, index: usize)
        requires
            old(self).wf(),
            index <= old(self)@.lines.len(),
        ensures
            final(self)@ == (InputView {
                lines: {
                    let lines = if index == old(self)@.lines.len() {
                        old(self)@.lines.push(empty_line())
                    } else {
                        old(self)@.lines
                    };
                    let dest = lines[index as int];
                    lines.update(
                        index as int,
                        dest.prepended(
                            if dest.text.len() > 0 {
                                bytes_of(word@) + seq![SPACE]
                            } else {
                                bytes_of(word@)
                            },
                        ),
                    )
                },
                ..old(self)@
            }),
            final(self).wf(),
    {
        let n = self.content.len();
        if index == n {
            self.new_line(String::new(), n);
            assert(bytes_of(Seq::<char>::empty()) =~= Seq::<u8>::empty());
            assert(self@.lines =~= old(self)@.lines.push(empty_line()));
        }
        let ghost v = self@;
        proof {
            assert(v.lines[index as int] == self.content@[index as int]@);
            assert(v.lines[index as int].wf());
        }
        let dest_len = byte_len(self.content[index].content());
        let head = word_with_separator(word, dest_len > 0);
        self.content[index].prepend(head.as_str());
        proof {
            assert(self@.lines =~= v.lines.update(index as int, v.lines[index as int].prepended(bytes_of(head@))));
            assert forall|i: int| 0 <= i < self@.lines.len() implies #[trigger] self@.lines[i].wf() by {
                if i != index {
                    assert(self@.lines[i] == v.lines[i]);
                }
            }
        }
    }

    /// Cuts line `index` after byte `at`.
    fn truncate_line(&mut self, index: usize, at: usize)
        requires
            old(self).wf(),
            index < old(self)@.lines.len(),
            at <= old(self)@.lines[index as int].len(),
            is_char_boundary(old(self)@.lines[index as int].text, at as int),
        ensures
            final(self)@ == (InputView {
                lines: old(self)@.lines.update(index as int, old(self)@.lines[index as int].truncated(at)),
                ..old(self)@
            }),
            final(self).wf(),
    {
        proof {
            assert(self@.lines[index as int] == self.content@[index as int]@);
            assert(self@.lines[index as int].wf());
        }
        let _ = self.content[index].truncate(at);
        proof {
            let v = old(self)@;
            assert(self@.lines =~= v.lines.update(index as int, v.lines[index as int].truncated(at)));
            assert forall|i: int| 0 <= i < self@.lines.len() implies #[trigger] self@.lines[i].wf() by {
                if i != index {
                    assert(self@.lines[i] == v.lines[i]);
                }
            }
        }
    }

    /// Sets the caret of line `index` and makes that line active.
    fn put_caret(&mut self, index: usize, offset: usize)
        requires
            old(self).wf(),
            index < old(self)@.lines.len(),
            offset <= old(self)@.lines[index as int].len(),
            is_char_boundary(old(self)@.lines[index as int].text, offset as int),
        ensures
            final(self)@ == old(self)@.caret_on(index as int, offset),
            final(self).wf(),
    {
        proof {
            assert(self@.lines[index as int] == self.content@[index as int]@);
        }
        self.content[index].move_caret(offset);
        self.content_idx = index;
        proof {
            assert(self@.lines =~= old(self)@.lines.update(
                index as int,
                old(self)@.lines[index as int].with_caret(offset),
            ));
        }
    }
}

} // verus!
