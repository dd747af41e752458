//! What typing is for: where what is typed goes, and what a key takes back.

use vstd::prelude::*;
use crate::editor::{EditorView, Mode};
use crate::grapheme::{lemma_next_grapheme, lemma_prev_grapheme, next_grapheme, prev_grapheme};
use crate::laws_of_verbs::{
    far_end, is_edit, law_a_selection_has_two_ends, law_what_is_taken_out_is_what_was_selected,
    lemma_is_edit, near_end,
};
use crate::text::{
    lemma_line_around, lemma_line_end, lemma_line_of_monotone, lemma_line_start, lemma_spliced,
    line_end, line_of, line_start,
};

verus! {

/// Whether `a` is where the line of `i` begins.
pub open spec fn begins_line(t: Seq<char>, a: int, i: int) -> bool {
    &&& 0 <= a <= i
    &&& a == 0 || t[a - 1] == '\n'
    &&& forall|k: int| a <= k < i ==> t[k] != '\n'
}

/// Whether `b` is where the line of `i` ends, before its break.
pub open spec fn ends_line(t: Seq<char>, i: int, b: int) -> bool {
    &&& i <= b <= t.len()
    &&& b == t.len() || t[b] == '\n'
    &&& forall|k: int| i <= k < b ==> t[k] != '\n'
}

proof fn lemma_begins_line(t: Seq<char>, i: int)
    requires
        0 <= i <= t.len(),
    ensures
        begins_line(t, line_start(t, line_of(t, i)), i),
{
    lemma_line_around(t, i);
    let a = line_start(t, line_of(t, i));
    lemma_line_start(t, line_of(t, i));
    if a > 0 {
        assert(line_of(t, a - 1) < line_of(t, a));
    }
    assert forall|k: int| a <= k < i implies t[k] != '\n' by {
        if t[k] == '\n' {
            lemma_line_of_monotone(t, a, k);
            lemma_line_of_monotone(t, k + 1, i);
            assert(line_of(t, k + 1) == line_of(t, k) + 1);
        }
    }
}

/// What is typed goes in at the cursor, and the cursor behind it; nothing of the
/// text is lost.
pub proof fn law_what_is_typed_goes_in_at_the_cursor(v: EditorView, s: Seq<char>)
    requires
        v.wf(),
        !v.buffer().readonly,
    ensures
        ({
            let w = v.typing(s);
            &&& w.text() == v.text().take(v.cursor) + s + v.text().skip(v.cursor)
            &&& w.cursor == v.cursor + s.len()
            &&& w.anchor == w.cursor
            &&& w.mode == v.mode
        }),
{
    reveal(EditorView::putting);
    lemma_spliced(v.text(), v.cursor, v.cursor, s);
    if s.len() == 0 {
        assert(v.text() =~= v.text().take(v.cursor) + s + v.text().skip(v.cursor));
    }
}

/// Taking back takes the grapheme before the cursor out, and deleting the one
/// after it; at either end of the text there is none.
pub proof fn law_a_grapheme_is_taken_out(v: EditorView)
    requires
        v.wf(),
        !v.buffer().readonly,
    ensures
        v.cursor == 0 ==> v.backspacing() == v,
        v.cursor > 0 ==> {
            let w = v.backspacing();
            let p = prev_grapheme(v.text(), v.cursor);
            &&& 0 <= p < v.cursor
            &&& w.text() == v.text().take(p) + v.text().skip(v.cursor)
            &&& w.cursor == p
            &&& w.anchor == p
        },
        v.cursor == v.text().len() ==> v.deleting() == v,
        v.cursor < v.text().len() ==> {
            let w = v.deleting();
            let n = next_grapheme(v.text(), v.cursor);
            &&& v.cursor < n <= v.text().len()
            &&& w.text() == v.text().take(v.cursor) + v.text().skip(n)
            &&& w.cursor == v.cursor
            &&& w.anchor == v.cursor
        },
{
    reveal(EditorView::putting);
    reveal(EditorView::backspacing);
    reveal(EditorView::deleting);
    let t = v.text();
    lemma_prev_grapheme(t, v.cursor);
    lemma_next_grapheme(t, v.cursor);
    let none = Seq::<char>::empty();
    if v.cursor > 0 {
        let p = prev_grapheme(t, v.cursor);
        assert(t.take(p) + none + t.skip(v.cursor) =~= t.take(p) + t.skip(v.cursor));
    }
    if v.cursor < t.len() {
        let n = next_grapheme(t, v.cursor);
        assert(t.take(v.cursor) + none + t.skip(n) =~= t.take(v.cursor) + t.skip(n));
    }
}

/// What is typed at the cursor is taken back, where it is one grapheme there.
pub proof fn law_what_is_typed_is_taken_back(v: EditorView, s: Seq<char>)
    requires
        v.wf(),
        !v.buffer().readonly,
        s.len() > 0,
        prev_grapheme(v.typing(s).text(), v.cursor + s.len()) == v.cursor,
        v.typing(s).wf(),
    ensures
        v.typing(s).backspacing().text() == v.text(),
        v.typing(s).backspacing().cursor == v.cursor,
{
    law_what_is_typed_goes_in_at_the_cursor(v, s);
    let w = v.typing(s);
    reveal(EditorView::putting);
    law_a_grapheme_is_taken_out(w);
    let t = v.text();
    assert(w.text().take(v.cursor) + w.text().skip(v.cursor + s.len()) =~= t);
}

/// A line is opened below the line of the cursor, or above it: a break is put in
/// where the line ends, or where it begins, and typing begins on the empty line.
pub proof fn law_a_line_is_opened(v: EditorView, a: int, b: int)
    requires
        v.wf(),
        !v.buffer().readonly,
        begins_line(v.text(), a, v.cursor),
        ends_line(v.text(), v.cursor, b),
    ensures
        ({
            let w = v.opening(true);
            &&& w.text() == v.text().take(b) + seq!['\n'] + v.text().skip(b)
            &&& w.cursor == b + 1
            &&& w.anchor == w.cursor
            &&& w.mode == Mode::Insert
            &&& !w.extend
        }),
        ({
            let w = v.opening(false);
            &&& w.text() == v.text().take(a) + seq!['\n'] + v.text().skip(a)
            &&& w.cursor == a
            &&& w.anchor == a
            &&& w.mode == Mode::Insert
            &&& !w.extend
        }),
{
    reveal(EditorView::opening);
    reveal(EditorView::putting);
    let t = v.text();
    lemma_begins_line(t, v.cursor);
    lemma_line_end(t, v.cursor);
    let start = line_start(t, line_of(t, v.cursor));
    let end = line_end(t, v.cursor);
    assert(start == a) by {
        if start < a {
            assert(t[a - 1] != '\n');
        }
        if a < start {
            assert(t[start - 1] != '\n');
        }
    }
    assert(end == b) by {
        if end < b {
            assert(t[end] != '\n');
        }
        if b < end {
            assert(t[b] != '\n');
        }
    }
    lemma_is_edit(v, a, a, seq!['\n']);
    lemma_is_edit(v, b, b, seq!['\n']);
}

/// What stands before the cursor on its line is taken back, and the line begins
/// with what stood behind it.
pub proof fn law_a_line_is_taken_back(v: EditorView, a: int)
    requires
        v.wf(),
        !v.buffer().readonly,
        begins_line(v.text(), a, v.cursor),
    ensures
        v.taking_back_line().text() == v.text().take(a) + v.text().skip(v.cursor),
        v.taking_back_line().cursor == a,
        v.taking_back_line().anchor == a,
{
    reveal(EditorView::taking_back_line);
    reveal(EditorView::putting);
    let t = v.text();
    lemma_begins_line(t, v.cursor);
    let start = line_start(t, line_of(t, v.cursor));
    assert(start == a) by {
        if start < a {
            assert(t[a - 1] != '\n');
        }
        if a < start {
            assert(t[start - 1] != '\n');
        }
    }
    assert(t.take(a) + Seq::<char>::empty() + t.skip(v.cursor) =~= t.take(a) + t.skip(v.cursor));
    if a == v.cursor {
        assert(t =~= t.take(a) + t.skip(a));
    }
}

/// Changing is taking out what is selected and typing in its place; text from
/// outside takes its place as it is.
pub proof fn law_changing_takes_out_and_types(v: EditorView, keep: bool, s: Seq<char>)
    requires
        v.wf(),
        !v.buffer().readonly,
        near_end(v) < v.text().len(),
    ensures
        ({
            let w = v.changing(keep);
            &&& w.text() == v.text().take(near_end(v)) + v.text().skip(far_end(v))
            &&& w.cursor == near_end(v)
            &&& w.anchor == near_end(v)
            &&& w.mode == Mode::Insert
            &&& w.registers == v.removing(keep).registers
        }),
        ({
            let w = v.pasting_over(s);
            &&& is_edit(v, w, near_end(v), far_end(v), s)
            &&& w.cursor == near_end(v) + s.len()
            &&& w.anchor == w.cursor
            &&& w.registers == v.registers
        }),
{
    reveal(EditorView::changing);
    reveal(EditorView::pasting_over);
    reveal(EditorView::putting);
    law_a_selection_has_two_ends(v);
    law_what_is_taken_out_is_what_was_selected(v, keep);
    let t = v.text();
    let none = Seq::<char>::empty();
    assert(t.take(near_end(v)) + none + t.skip(far_end(v)) =~= t.take(near_end(v)) + t.skip(
        far_end(v),
    ));
    lemma_is_edit(v, near_end(v), far_end(v), s);
}

} // verus!
