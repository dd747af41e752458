//! What the verbs are for: how the text, the selection and the registers after
//! one relate to those before it.

use vstd::prelude::*;
use crate::buffer::{BufferView, PointView, Swap};
use crate::case::{Case, lowercase, uppercase};
use crate::editor::{EditorView, Mode};
use crate::grapheme::{
    graphemes, lemma_next_grapheme, lemma_prev_grapheme, next_grapheme, prev_grapheme,
};
use crate::outcome::{CommandOutcome, ErrorView};
use crate::registers::slot_from;
use crate::say;
use crate::state::RegistersView;
use crate::text::{
    last_line, lemma_line_around, lemma_line_end, lemma_line_of_concat, lemma_line_of_monotone,
    lemma_line_of_prefix, lemma_line_start, lemma_line_starts, lemma_same_line, lemma_spliced,
    line_count, line_end, line_of, line_start, line_text,
};
use crate::undo::unsaved_from;
use crate::verbs::{
    after_indentation, all_written_over, before_line_ends, glue, mapped, stood_still,
};
use crate::width::columns;

verus! {

// ---- What an edit touches -------------------------------------------------

/// Whether `w` is `v` but for the text on the page, the selection, the status
/// line and the registers.
pub open spec fn same_besides(v: EditorView, w: EditorView) -> bool {
    &&& w.active == v.active
    &&& w.buffers.len() == v.buffers.len()
    &&& forall|k: int|
        0 <= k < v.buffers.len() && k != v.active ==> (#[trigger] w.buffers[k]) == v.buffers[k]
    &&& w.buffer().path == v.buffer().path
    &&& w.buffer().readonly == v.buffer().readonly
    &&& w.buffer().swap == v.buffer().swap
    &&& w.buffer().syntax == v.buffer().syntax
    &&& w.buffer().grouped == v.buffer().grouped
    &&& w.buffer().place == v.buffer().place
    &&& w.mode == v.mode
    &&& w.extend == v.extend
    &&& w.count == v.count
    &&& w.pending == v.pending
    &&& w.memory == v.memory
    &&& w.repeats == v.repeats
    &&& w.prompt == v.prompt
    &&& w.wiki == v.wiki
    &&& w.places == v.places
    &&& w.panels == v.panels
    &&& w.detail == v.detail
    &&& w.settings == v.settings
    &&& w.requests == v.requests
    &&& w.candidate == v.candidate
    &&& w.chosen == v.chosen
}

/// Whether `w` is `v` with `a..b` of the text on the page turned into `s`, as an
/// edit that one undo takes back: what stands before and behind is kept.
pub open spec fn is_edit(v: EditorView, w: EditorView, a: int, b: int, s: Seq<char>) -> bool {
    &&& same_besides(v, w)
    &&& w.text() == v.text().take(a) + s + v.text().skip(b)
    &&& w.buffer().modified
    &&& w.buffer().future.len() == 0
    &&& !v.buffer().grouped ==> w.buffer().past == v.buffer().past.push(
        PointView { text: v.text(), at: v.cursor },
    )
    &&& v.buffer().grouped && v.buffer().announced is None ==> w.buffer().past
        == v.buffer().past
}

/// The lesser end of the selection.
pub open spec fn near_end(v: EditorView) -> int {
    if v.anchor < v.cursor {
        v.anchor
    } else {
        v.cursor
    }
}

/// Behind the grapheme at the greater end of the selection.
pub open spec fn far_end(v: EditorView) -> int {
    next_grapheme(
        v.text(),
        if v.anchor < v.cursor {
            v.cursor
        } else {
            v.anchor
        },
    )
}

/// A selection goes from its lesser end to behind the grapheme at its greater
/// end, whichever of them the cursor is at.
pub proof fn law_a_selection_has_two_ends(v: EditorView)
    requires
        v.wf(),
    ensures
        v.selection_start() == near_end(v),
        v.selection_end() == far_end(v),
        0 <= near_end(v) <= far_end(v) <= v.text().len(),
        near_end(v) < v.text().len() ==> near_end(v) < far_end(v),
{
    lemma_next_grapheme(
        v.text(),
        if v.anchor < v.cursor {
            v.cursor
        } else {
            v.anchor
        },
    );
}

/// Announcing and writing is an edit.
/// An announced edit is what it says.
pub proof fn lemma_is_edit(v: EditorView, a: int, b: int, s: Seq<char>)
    requires
        v.wf(),
        !v.buffer().readonly,
        0 <= a <= b <= v.text().len(),
        a < b || s.len() > 0,
    ensures
        is_edit(v, v.announcing().writing(a, b, s), a, b, s),
{
}

// ---- Joining --------------------------------------------------------------

/// Whether `c` is what joining swallows besides the break.
pub open spec fn is_blank(c: char) -> bool {
    c == ' ' || c == '\t' || c == '\u{3000}'
}

proof fn lemma_blanks_end(t: Seq<char>, i: int, n: int)
    requires
        0 <= i <= n <= t.len(),
        forall|k: int| i <= k < n ==> is_blank(#[trigger] t[k]),
        n < t.len() ==> !is_blank(t[n]),
    ensures
        after_indentation(t, i) == n,
    decreases n - i,
{
    if i < n {
        assert(is_blank(t[i]));
        lemma_blanks_end(t, i + 1, n);
    }
}

proof fn lemma_break_is_line_end(t: Seq<char>, i: int, e: int)
    requires
        0 <= i <= e <= t.len(),
        e < t.len() ==> t[e] == '\n',
        forall|k: int| i <= k < e ==> t[k] != '\n',
    ensures
        line_end(t, i) == e,
    decreases e - i,
{
    if i < e {
        lemma_break_is_line_end(t, i + 1, e);
    }
}

/// How many breaks stand before a position in a text that a join made.
proof fn lemma_lines_behind_a_join(t: Seq<char>, e: int, n: int, g: Seq<char>, i: int)
    requires
        0 <= e < n <= i <= t.len(),
        t[e] == '\n',
        forall|k: int| e < k < n ==> t[k] != '\n',
        forall|k: int| 0 <= k < g.len() ==> g[k] != '\n',
    ensures
        line_of(t.take(e) + g + t.skip(n), i - n + e + g.len()) == line_of(t, i) - 1,
{
    let x = t.take(e) + g;
    let y = t.skip(n);
    lemma_line_of_concat(x, y, i - n);
    lemma_line_of_concat(t.take(e), g, g.len() as int);
    lemma_same_line(g, 0, g.len() as int);
    assert(t =~= t.take(n) + y);
    lemma_line_of_concat(t.take(n), y, i - n);
    lemma_line_of_prefix(t.take(n), t, n);
    lemma_line_of_prefix(t.take(e), t, e);
    lemma_same_line(t, e + 1, n);
}

proof fn lemma_begins_line(t: Seq<char>, l: int, p: int)
    requires
        0 <= p <= t.len(),
        line_of(t, p) == l,
        p > 0 ==> t[p - 1] == '\n',
    ensures
        line_start(t, l) == p,
{
    lemma_line_around(t, p);
    lemma_line_start(t, l);
    if line_start(t, l) < p {
        lemma_line_of_monotone(t, line_start(t, l), p - 1);
    }
}

proof fn lemma_break_before_line(t: Seq<char>, l: int)
    requires
        0 <= l < line_count(t),
    ensures
        line_start(t, l) > 0 ==> t[line_start(t, l) - 1] == '\n',
{
    lemma_line_start(t, l);
    if line_start(t, l) > 0 {
        assert(line_of(t, line_start(t, l) - 1) < l);
    }
}

/// Where a line behind the joined pair begins.
proof fn lemma_join_moves_lines(t: Seq<char>, e: int, n: int, g: Seq<char>, m: int)
    requires
        0 <= e < n <= t.len(),
        t[e] == '\n',
        forall|k: int| e < k < n ==> t[k] != '\n',
        forall|k: int| 0 <= k < g.len() ==> g[k] != '\n',
        m >= line_of(t, e) + 2,
    ensures
        line_start(t, m) >= n,
        line_start(t.take(e) + g + t.skip(n), m - 1) == line_start(t, m) - n + e + g.len(),
{
    let u = t.take(e) + g + t.skip(n);
    let p = line_start(t, m);
    lemma_line_of_monotone(t, 0, e);
    lemma_line_start(t, m);
    lemma_lines_behind_a_join(t, e, n, g, t.len() as int);
    lemma_same_line(t, e + 1, n);
    if m < line_count(t) {
        if p <= n {
            lemma_line_of_monotone(t, p, n);
        }
        lemma_break_before_line(t, m);
        lemma_lines_behind_a_join(t, e, n, g, p);
        let q = p - n + e + g.len();
        assert(u[q - 1] == t[p - 1]);
        lemma_begins_line(u, m - 1, q);
    } else {
        lemma_line_start(u, m - 1);
    }
}

/// Joining takes the break behind the first line of the selection out, with the
/// blanks that follow it, and puts a space there: but nothing between two
/// full-width characters, and nothing at an end of the text. Whatever else
/// stands in the text stays.
pub proof fn law_joining_takes_one_break_out(v: EditorView, e: int, n: int)
    requires
        v.wf(),
        !v.buffer().readonly,
        near_end(v) <= e,
        e + 1 < v.text().len(),
        v.text()[e] == '\n',
        forall|k: int| near_end(v) <= k < e ==> v.text()[k] != '\n',
        e + 1 <= n <= v.text().len(),
        forall|k: int| e < k < n ==> is_blank(#[trigger] v.text()[k]),
        n < v.text().len() ==> !is_blank(v.text()[n]),
    ensures
        ({
            let t = v.text();
            let nothing = e == 0 || n == t.len() || (columns(t[e - 1]) == Some(2usize) && columns(
                t[n],
            ) == Some(2usize));
            let w = v.joining();
            &&& is_edit(
                v,
                w,
                e,
                n,
                if nothing {
                    Seq::empty()
                } else {
                    seq![' ']
                },
            )
            &&& w.cursor == e
            &&& w.anchor == e
            &&& w.registers == v.registers
            &&& w.status == v.status
            &&& w.goal_column == v.goal_column
        }),
{
    reveal(EditorView::joining);
    let t = v.text();
    let i = near_end(v);
    lemma_break_is_line_end(t, i, e);
    lemma_blanks_end(t, e + 1, n);
    lemma_same_line(t, i, e);
    lemma_line_of_monotone(t, e + 1, t.len() as int);
    if t.last() == '\n' {
        lemma_line_of_monotone(t, e + 1, t.len() - 1);
    }
    lemma_is_edit(v, e, n, glue(t, e, n));
    lemma_spliced(t, e, n, glue(t, e, n));
}

/// Joining makes one line of two: the text has one line less, and every line
/// before the two and behind them is what it was.
pub proof fn law_joining_makes_one_line_of_two(v: EditorView, m: int)
    requires
        v.wf(),
        !v.buffer().readonly,
        line_end(v.text(), near_end(v)) + 1 < v.text().len(),
        0 <= m,
    ensures
        line_count(v.joining().text()) == line_count(v.text()) - 1,
        m < line_of(v.text(), near_end(v)) ==> line_text(v.joining().text(), m) == line_text(
            v.text(),
            m,
        ),
        m > line_of(v.text(), near_end(v)) + 1 ==> line_text(v.joining().text(), m - 1)
            == line_text(v.text(), m),
{
    let t = v.text();
    let i = near_end(v);
    let e = line_end(t, i);
    let l = line_of(t, i);
    let n = after_indentation(t, e + 1);
    lemma_line_end(t, i);
    lemma_after_blanks(t, e + 1);
    law_joining_takes_one_break_out(v, e, n);
    lemma_same_line(t, i, e);
    let u = v.joining().text();
    let g = u.subrange(e, u.len() - (t.len() - n));
    assert(g =~= glue(t, e, n)) by {
        assert(u == t.take(e) + glue(t, e, n) + t.skip(n)) by {
            reveal(EditorView::joining);
        }
    }
    assert(u =~= t.take(e) + g + t.skip(n));
    lemma_lines_behind_a_join(t, e, n, g, t.len() as int);
    if m < l {
        lemma_line_around(t, e);
        lemma_line_starts(t, m, m + 1);
        lemma_line_starts(t, m + 1, l);
        lemma_line_before_join(t, u, e, m);
        lemma_line_before_join(t, u, e, m + 1);
        assert(line_text(u, m) =~= line_text(t, m));
    }
    if m > l + 1 {
        lemma_join_moves_lines(t, e, n, g, m);
        lemma_join_moves_lines(t, e, n, g, m + 1);
        lemma_line_starts(t, m, m + 1);
        let by = e + g.len() - n;
        assert forall|k: int| n <= k < t.len() implies u[k + by] == #[trigger] t[k] by {}
        assert forall|k: int| 0 <= k < line_text(t, m).len() implies line_text(u, m - 1)[k]
            == line_text(t, m)[k] by {
            assert(line_text(t, m)[k] == t[line_start(t, m) + k]);
        }
        assert(line_text(u, m - 1) =~= line_text(t, m));
    }
}

proof fn lemma_line_before_join(t: Seq<char>, u: Seq<char>, e: int, m: int)
    requires
        0 <= e <= t.len(),
        e <= u.len(),
        forall|k: int| 0 <= k < e ==> t[k] == u[k],
        0 <= m <= line_of(t, e),
    ensures
        line_start(u, m) == line_start(t, m) <= e,
{
    lemma_line_around(t, e);
    lemma_line_starts(t, m, line_of(t, e));
    lemma_line_start(t, m);
    lemma_break_before_line(t, m);
    lemma_line_of_prefix(t, u, line_start(t, m));
    lemma_begins_line(u, m, line_start(t, m));
}

proof fn lemma_after_blanks(t: Seq<char>, i: int)
    requires
        0 <= i <= t.len(),
    ensures
        i <= after_indentation(t, i) <= t.len(),
        forall|k: int| i <= k < after_indentation(t, i) ==> is_blank(#[trigger] t[k]),
        after_indentation(t, i) < t.len() ==> !is_blank(t[after_indentation(t, i)]),
    decreases t.len() - i,
{
    if i < t.len() && is_blank(t[i]) {
        lemma_after_blanks(t, i + 1);
    }
}

/// Where no line is below, there is nothing to join.
pub proof fn law_the_last_line_joins_nothing(v: EditorView)
    requires
        v.wf(),
        !v.buffer().readonly,
        forall|k: int| near_end(v) <= k < v.text().len() - 1 ==> v.text()[k] != '\n',
    ensures
        v.joining() == v,
{
    reveal(EditorView::joining);
    let t = v.text();
    let i = near_end(v);
    if t.len() > 0 && i < t.len() {
        lemma_same_line(t, i, t.len() - 1);
    }
    assert(line_of(t, i) >= last_line(t));
}

// ---- Writing over the selection -------------------------------------------

/// Whether `s` is what the register holds that the next operation uses: the one
/// that was asked for, else what was taken last.
pub open spec fn is_in_register(v: EditorView, s: Seq<char>) -> bool {
    match v.registers.asked {
        Some(c) => exists|k: int|
            0 <= k < v.registers.shelf.len() && #[trigger] v.registers.shelf[k] == (c, s) && forall|
                j: int,
            |
                0 <= j < k ==> (#[trigger] v.registers.shelf[j]).0 != c,
        None => v.registers.ring.len() > 0 && v.registers.ring.last() == s,
    }
}

proof fn lemma_shelved(shelf: Seq<(char, Seq<char>)>, c: char, i: int, k: int)
    requires
        0 <= i <= k < shelf.len(),
        shelf[k].0 == c,
        forall|j: int| i <= j < k ==> (#[trigger] shelf[j]).0 != c,
    ensures
        slot_from(shelf, c, i) == k,
    decreases k - i,
{
    if i < k {
        lemma_shelved(shelf, c, i + 1, k);
    }
}

proof fn lemma_recalled(v: EditorView, s: Seq<char>)
    requires
        is_in_register(v, s),
    ensures
        v.recalled() == s,
{
    if let Some(c) = v.registers.asked {
        let shelf = v.registers.shelf;
        let k = choose|k: int|
            0 <= k < shelf.len() && #[trigger] shelf[k] == (c, s) && forall|j: int|
                0 <= j < k ==> (#[trigger] shelf[j]).0 != c;
        lemma_shelved(shelf, c, 0, k);
    }
}

/// What the register holds takes the place of what is selected, and of nothing
/// else: what stands before the selection and behind it is kept. The cursor
/// comes behind it, and no register is asked for any more.
pub proof fn law_the_register_takes_the_place_of_the_selection(v: EditorView, s: Seq<char>)
    requires
        v.wf(),
        !v.buffer().readonly,
        is_in_register(v, s),
        s.len() > 0,
    ensures
        ({
            let w = v.replacing_with_register();
            &&& is_edit(v, w, near_end(v), far_end(v), s)
            &&& w.anchor == near_end(v)
            &&& w.cursor == near_end(v) + s.len()
            &&& w.registers.ring == v.registers.ring
            &&& w.registers.shelf == v.registers.shelf
            &&& w.registers.asked is None
            &&& w.status == v.status
            &&& w.goal_column == v.goal_column
        }),
{
    reveal(EditorView::replacing_with_register);
    lemma_recalled(v, s);
    law_a_selection_has_two_ends(v);
    let asked = v.asking_for_none();
    lemma_is_edit(asked, near_end(v), far_end(v), s);
    lemma_spliced(v.text(), near_end(v), far_end(v), s);
}

/// A register that holds nothing takes the place of nothing: the text, its
/// history and the selection stay.
pub proof fn law_an_empty_register_replaces_nothing(v: EditorView)
    requires
        v.wf(),
        match v.registers.asked {
            Some(c) => forall|k: int|
                0 <= k < v.registers.shelf.len() ==> (#[trigger] v.registers.shelf[k]).0 != c
                    || v.registers.shelf[k].1.len() == 0,
            None => v.registers.ring.len() == 0 || v.registers.ring.last().len() == 0,
        },
    ensures
        ({
            let w = v.replacing_with_register();
            &&& same_besides(v, w)
            &&& w.buffers == v.buffers
            &&& w.cursor == v.cursor
            &&& w.anchor == v.anchor
            &&& w.registers.ring == v.registers.ring
            &&& w.registers.shelf == v.registers.shelf
            &&& w.registers.asked is None
            &&& w.status == match v.registers.asked {
                Some(c) => say::register_empty_text(c),
                None => say::nothing_yanked_text(),
            }
        }),
{
    reveal(EditorView::replacing_with_register);
    if let Some(c) = v.registers.asked {
        lemma_slot(v.registers.shelf, c, 0);
    }
}

proof fn lemma_slot(shelf: Seq<(char, Seq<char>)>, c: char, i: int)
    requires
        0 <= i <= shelf.len(),
    ensures
        i <= slot_from(shelf, c, i) <= shelf.len(),
        slot_from(shelf, c, i) < shelf.len() ==> shelf[slot_from(shelf, c, i)].0 == c,
        forall|j: int| i <= j < slot_from(shelf, c, i) ==> (#[trigger] shelf[j]).0 != c,
    decreases shelf.len() - i,
{
    if i < shelf.len() && shelf[i].0 != c {
        lemma_slot(shelf, c, i + 1);
    }
}

/// What is yanked is what was selected, in the register that was asked for, and
/// nothing of the text changes.
pub proof fn law_what_is_yanked_is_what_was_selected(v: EditorView)
    requires
        v.wf(),
        near_end(v) < v.text().len(),
    ensures
        ({
            let w = v.yanking();
            let asked = EditorView {
                registers: RegistersView {
                    asked: v.registers.asked,
                    ..w.registers
                },
                ..w
            };
            &&& is_in_register(asked, v.text().subrange(near_end(v), far_end(v)))
            &&& v.registers.asked is None ==> w.registers.shelf == v.registers.shelf
            &&& v.registers.asked matches Some(c) ==> w.registers.ring == v.registers.ring
                && forall|k: int|
                0 <= k < v.registers.shelf.len() && (#[trigger] v.registers.shelf[k]).0 != c
                    ==> w.registers.shelf[k] == v.registers.shelf[k]
            &&& w.registers.asked is None
            &&& w.buffers == v.buffers
            &&& w.active == v.active
            &&& w.cursor == v.cursor
            &&& w.anchor == v.anchor
        }),
{
    reveal(EditorView::yanking);
    law_a_selection_has_two_ends(v);
    let s = v.text().subrange(near_end(v), far_end(v));
    let w = v.yanking();
    let asked = EditorView {
        registers: RegistersView { asked: v.registers.asked, ..w.registers },
        ..w
    };
    assert(v.selected() == s);
    match v.registers.asked {
        Some(c) => {
            let shelf = v.registers.shelf;
            lemma_slot(shelf, c, 0);
            let k = slot_from(shelf, c, 0);
            assert(asked.registers.shelf[k] == (c, s));
            assert forall|j: int| 0 <= j < k implies (#[trigger] asked.registers.shelf[j]).0
                != c by {
                assert(asked.registers.shelf[j] == shelf[j]);
            }
        },
        None => {
            assert(asked.registers.ring.last() == s);
        },
    }
}

/// What is taken out is what was selected, and nothing else; the cursor comes
/// where it stood. Where it is kept, it is what a yank would have kept.
pub proof fn law_what_is_taken_out_is_what_was_selected(v: EditorView, keep: bool)
    requires
        v.wf(),
        !v.buffer().readonly,
        near_end(v) < v.text().len(),
    ensures
        ({
            let w = v.removing(keep);
            &&& is_edit(
                EditorView { extend: false, ..v },
                w,
                near_end(v),
                far_end(v),
                Seq::empty(),
            )
            &&& w.cursor == near_end(v)
            &&& w.anchor == near_end(v)
            &&& w.registers == if keep {
                v.yanking().registers
            } else {
                v.registers
            }
        }),
{
    reveal(EditorView::removing);
    reveal(EditorView::yanking);
    law_a_selection_has_two_ends(v);
    let kept = if keep {
        v.keeping(v.selected())
    } else {
        v
    };
    lemma_is_edit(kept, near_end(v), far_end(v), Seq::empty());
    lemma_spliced(v.text(), near_end(v), far_end(v), Seq::empty());
}

/// What the register holds is put in behind the selection, or before it, and
/// selected; nothing of the text is lost. (Whole lines go behind the lines of
/// the selection, or before them.)
pub proof fn law_what_is_put_in_is_the_register(v: EditorView, s: Seq<char>, after: bool)
    requires
        v.wf(),
        !v.buffer().readonly,
        is_in_register(v, s),
        s.len() > 0,
        s.last() != '\n',
    ensures
        ({
            let w = v.pasting(after);
            let at = if after {
                far_end(v)
            } else {
                near_end(v)
            };
            &&& is_edit(v, w, at, at, s)
            &&& covers(w, at, at + s.len())
            &&& w.registers.ring == v.registers.ring
            &&& w.registers.shelf == v.registers.shelf
            &&& w.registers.asked is None
        }),
{
    reveal(EditorView::pasting);
    lemma_recalled(v, s);
    law_a_selection_has_two_ends(v);
    let at = if after {
        far_end(v)
    } else {
        near_end(v)
    };
    lemma_is_edit(v.asking_for_none(), at, at, s);
    lemma_spliced(v.text(), at, at, s);
}

/// Writing over `a..b` and selecting what was written.
proof fn lemma_written_over(v: EditorView, a: int, b: int, s: Seq<char>)
    requires
        v.wf(),
        !v.buffer().readonly,
        0 <= a < b <= v.text().len(),
    ensures
        ({
            let w = v.writing_over(a, b, s, a + s.len());
            &&& is_edit(v, w, a, b, s)
            &&& covers(w, a, a + s.len())
            &&& w.registers == v.registers
            &&& w.status == v.status
            &&& w.goal_column == v.goal_column
            &&& w.clamped() == w
        }),
{
    let w = v.writing_over(a, b, s, a + s.len());
    lemma_is_edit(v, a, b, s);
    lemma_spliced(v.text(), a, b, s);
    lemma_prev_grapheme(w.text(), a + s.len());
    assert(w.clamped() =~= w) by {
        assert(w.clamped().cursor == w.cursor);
        assert(w.clamped().anchor == w.anchor);
    }
}

/// Whether `a..b` is selected, with the cursor on its last grapheme.
pub open spec fn covers(w: EditorView, a: int, b: int) -> bool {
    let last = prev_grapheme(w.text(), b);
    &&& w.anchor == a
    &&& w.cursor == if last > a {
        last
    } else {
        a
    }
}

proof fn lemma_mapped_is_flat(s: Seq<char>, g: spec_fn(char) -> Seq<char>)
    ensures
        mapped(s, g) == s.map_values(g).flatten(),
    decreases s.len(),
{
    let all = s.map_values(g);
    all.lemma_flatten_and_flatten_alt_are_equivalent();
    if s.len() > 0 {
        lemma_mapped_is_flat(s.drop_last(), g);
        let rest = s.drop_last().map_values(g);
        rest.lemma_flatten_and_flatten_alt_are_equivalent();
        assert(all.drop_last() =~= rest);
    }
}

/// Every character of the selection becomes what it is turned into, one after
/// the other, and what is written is selected; the rest of the text is kept.
pub proof fn law_a_selection_is_mapped_one_by_one(
    v: EditorView,
    g: spec_fn(char) -> Seq<char>,
)
    requires
        v.wf(),
        !v.buffer().readonly,
        near_end(v) < v.text().len(),
    ensures
        ({
            let s = v.text().subrange(near_end(v), far_end(v)).map_values(g).flatten();
            let w = v.mapping(g);
            &&& is_edit(v, w, near_end(v), far_end(v), s)
            &&& covers(w, near_end(v), near_end(v) + s.len())
            &&& w.registers == v.registers
            &&& w.status == v.status
            &&& w.goal_column == v.goal_column
        }),
{
    reveal(EditorView::mapping);
    law_a_selection_has_two_ends(v);
    let sel = v.text().subrange(near_end(v), far_end(v));
    lemma_mapped_is_flat(sel, g);
    lemma_written_over(v, near_end(v), far_end(v), mapped(sel, g));
}

/// The case keys turn every selected character into its upper case, or its lower
/// case, or the one that it is not in; the rest of the text is kept.
pub proof fn law_a_case_is_of_every_character_selected(v: EditorView)
    requires
        v.wf(),
        !v.buffer().readonly,
        near_end(v) < v.text().len(),
    ensures
        ({
            let sel = v.text().subrange(near_end(v), far_end(v));
            let (a, b) = (near_end(v), far_end(v));
            &&& is_edit(
                v,
                v.casing(Case::Upper),
                a,
                b,
                sel.map_values(|c: char| uppercase(c)).flatten(),
            )
            &&& is_edit(
                v,
                v.casing(Case::Lower),
                a,
                b,
                sel.map_values(|c: char| lowercase(c)).flatten(),
            )
            &&& is_edit(
                v,
                v.casing(Case::Swap),
                a,
                b,
                sel.map_values(
                    |c: char|
                        if lowercase(c) == seq![c] {
                            uppercase(c)
                        } else {
                            lowercase(c)
                        },
                ).flatten(),
            )
        }),
{
    reveal(EditorView::casing);
    let sel = v.text().subrange(near_end(v), far_end(v));
    let up = |c: char| crate::case::cased(Case::Upper, c);
    let low = |c: char| crate::case::cased(Case::Lower, c);
    let swap = |c: char| crate::case::cased(Case::Swap, c);
    law_a_selection_is_mapped_one_by_one(v, up);
    law_a_selection_is_mapped_one_by_one(v, low);
    law_a_selection_is_mapped_one_by_one(v, swap);
    assert(sel.map_values(up) =~= sel.map_values(|c: char| uppercase(c)));
    assert(sel.map_values(low) =~= sel.map_values(|c: char| lowercase(c)));
    assert(sel.map_values(swap) =~= sel.map_values(
        |c: char|
            if lowercase(c) == seq![c] {
                uppercase(c)
            } else {
                lowercase(c)
            },
    ));
}

/// What a grapheme becomes that `c` is written over: a line ending stays.
pub open spec fn over(had: Seq<char>, c: char) -> Seq<char> {
    if had.len() > 0 && (had[0] == '\n' || had[0] == '\r') {
        had
    } else {
        seq![c]
    }
}

proof fn lemma_written_over_is_flat(pieces: Seq<Seq<char>>, c: char)
    ensures
        all_written_over(pieces, c) == pieces.map_values(|p: Seq<char>| over(p, c)).flatten(),
    decreases pieces.len(),
{
    let f = |p: Seq<char>| over(p, c);
    let all = pieces.map_values(f);
    all.lemma_flatten_and_flatten_alt_are_equivalent();
    if pieces.len() > 0 {
        lemma_written_over_is_flat(pieces.drop_last(), c);
        let rest = pieces.drop_last().map_values(f);
        rest.lemma_flatten_and_flatten_alt_are_equivalent();
        assert(all.drop_last() =~= rest);
    }
}

/// Every grapheme of the selection becomes `c`, but for line endings, and what
/// is written is selected; the rest of the text is kept.
pub proof fn law_every_grapheme_selected_is_written_over(v: EditorView, c: char)
    requires
        v.wf(),
        !v.buffer().readonly,
        near_end(v) < v.text().len(),
    ensures
        ({
            let s = graphemes(v.text().subrange(near_end(v), far_end(v))).map_values(
                |p: Seq<char>| over(p, c),
            ).flatten();
            let w = v.replacing_chars(c);
            &&& is_edit(v, w, near_end(v), far_end(v), s)
            &&& covers(w, near_end(v), near_end(v) + s.len())
            &&& w.registers == v.registers
            &&& w.status == v.status
            &&& w.goal_column == v.goal_column
        }),
{
    reveal(EditorView::replacing_chars);
    law_a_selection_has_two_ends(v);
    let sel = v.text().subrange(near_end(v), far_end(v));
    lemma_written_over_is_flat(graphemes(sel), c);
    lemma_written_over(v, near_end(v), far_end(v), all_written_over(graphemes(sel), c));
}

proof fn lemma_before_line_ends(t: Seq<char>, a: int, b: int, e: int)
    requires
        0 <= a <= e <= b <= t.len(),
        forall|k: int| e <= k < b ==> t[k] == '\n' || t[k] == '\r',
        e > a ==> t[e - 1] != '\n' && t[e - 1] != '\r',
    ensures
        before_line_ends(t, a, b) == e,
    decreases b - e,
{
    if e < b {
        lemma_before_line_ends(t, a, b - 1, e);
    }
}

/// A text of several characters takes the place of the selection without the
/// line endings at its end, and is selected; the rest of the text is kept. One
/// character is written over every grapheme, and none does nothing.
pub proof fn law_a_text_takes_the_place_of_the_selection(v: EditorView, s: Seq<char>, e: int)
    requires
        v.wf(),
        !v.buffer().readonly,
        near_end(v) <= e <= far_end(v),
        forall|k: int|
            e <= k < far_end(v) ==> v.text()[k] == '\n' || v.text()[k] == '\r',
        e > near_end(v) ==> v.text()[e - 1] != '\n' && v.text()[e - 1] != '\r',
    ensures
        s.len() == 0 ==> v.replacing_with(s) == v,
        s.len() == 1 ==> v.replacing_with(s) == v.replacing_chars(s[0]),
        s.len() > 1 && e == near_end(v) ==> v.replacing_with(s) == v,
        s.len() > 1 && e > near_end(v) ==> {
            let w = v.replacing_with(s);
            &&& is_edit(v, w, near_end(v), e, s)
            &&& covers(w, near_end(v), near_end(v) + s.len())
            &&& w.registers == v.registers
            &&& w.status == v.status
            &&& w.goal_column == v.goal_column
        },
{
    reveal(EditorView::replacing_with);
    law_a_selection_has_two_ends(v);
    lemma_before_line_ends(v.text(), near_end(v), far_end(v), e);
    if s.len() > 1 && e > near_end(v) {
        lemma_written_over(v, near_end(v), e, s);
    }
}

// ---- Undo -----------------------------------------------------------------

/// Undoing puts the text and the cursor of the last point back and keeps what
/// there was for redoing; redoing does the same the other way. Nothing else
/// changes.
pub proof fn law_undo_goes_to_the_last_point(v: EditorView)
    requires
        v.wf(),
        !v.buffer().readonly,
    ensures
        v.buffer().past.len() > 0 ==> goes_to(v, v.undone(), v.buffer().past.last()) && ({
            let b = v.undone().buffer();
            &&& b.past == v.buffer().past.drop_last()
            &&& b.future == v.buffer().future.push(PointView { text: v.text(), at: v.cursor })
        }),
        v.buffer().past.len() == 0 ==> v.undone() == (EditorView {
            status: say::undo_at_oldest_text(),
            ..v
        }),
        v.buffer().future.len() > 0 ==> goes_to(v, v.redone(), v.buffer().future.last()) && ({
            let b = v.redone().buffer();
            &&& b.future == v.buffer().future.drop_last()
            &&& b.past == v.buffer().past.push(PointView { text: v.text(), at: v.cursor })
        }),
        v.buffer().future.len() == 0 ==> v.redone() == (EditorView {
            status: say::redo_at_newest_text(),
            ..v
        }),
{
    reveal(EditorView::undone);
    reveal(EditorView::redone);
}

/// Whether `w` is `v` with the text of a point on the page, and the cursor where
/// it was, as far as the text goes.
pub open spec fn goes_to(v: EditorView, w: EditorView, p: PointView) -> bool {
    &&& same_besides(v, w)
    &&& w.text() == p.text
    &&& w.cursor == if p.at < p.text.len() {
        p.at
    } else {
        p.text.len() as int
    }
    &&& w.anchor == w.cursor
    &&& w.buffer().modified
    &&& w.registers == v.registers
    &&& w.status == v.status
    &&& w.goal_column == v.goal_column
}

/// Undoing and redoing come back to the cursor that was left.
pub proof fn law_undo_and_redo_come_back_to_the_cursor(v: EditorView)
    requires
        v.wf(),
        !v.buffer().readonly,
    ensures
        v.buffer().past.len() > 0 ==> v.undone().redone().cursor == v.cursor,
        v.buffer().future.len() > 0 ==> v.redone().undone().cursor == v.cursor,
{
    reveal(EditorView::undone);
    reveal(EditorView::redone);
}

// ---- Counts ---------------------------------------------------------------

/// Without a count a command is done once, and a count of none is one.
pub proof fn law_a_count_is_one_at_least(v: EditorView)
    ensures
        v.count is None ==> v.count_or_one() == 1,
        v.count matches Some(n) ==> v.count_or_one() == if n < 1 {
            1
        } else {
            n
        },
{
}

/// `n` runs of `step`, one after the other.
pub open spec fn runs(
    step: spec_fn(EditorView) -> EditorView,
    v: EditorView,
    n: nat,
) -> EditorView
    decreases n,
{
    if n == 0 {
        v
    } else {
        step(runs(step, v, (n - 1) as nat))
    }
}

/// Whether a run left the selection and the length of the text as they were.
pub open spec fn moved_nothing(v: EditorView, w: EditorView) -> bool {
    w.cursor == v.cursor && w.anchor == v.anchor && w.text().len() == v.text().len()
}

/// `v` with announcements of the buffer on the page being part of a command, or
/// not.
pub open spec fn in_group(v: EditorView, on: bool) -> EditorView {
    EditorView {
        buffers: v.buffers.update(
            v.active,
            crate::buffer::BufferView { grouped: on, ..v.buffers[v.active] },
        ),
        ..v
    }
}

/// Whether the run after `k` others moves nothing.
pub open spec fn is_still(
    step: spec_fn(EditorView) -> EditorView,
    v: EditorView,
    k: nat,
) -> bool {
    moved_nothing(runs(step, v, k), runs(step, v, k + 1))
}

proof fn lemma_runs_begin(step: spec_fn(EditorView) -> EditorView, v: EditorView, n: nat)
    ensures
        runs(step, v, n + 1) == runs(step, step(v), n),
    decreases n,
{
    assert(runs(step, v, n + 1) == step(runs(step, v, n)));
    if n > 0 {
        lemma_runs_begin(step, v, (n - 1) as nat);
        assert(runs(step, v, n) == runs(step, step(v), (n - 1) as nat));
        assert(runs(step, step(v), n) == step(runs(step, step(v), (n - 1) as nat)));
    } else {
        assert(runs(step, v, 0) == v);
        assert(runs(step, step(v), 0) == step(v));
    }
}

proof fn lemma_running(v: EditorView, step: spec_fn(EditorView) -> EditorView, m: nat, n: int)
    requires
        m <= n,
        forall|k: nat| k < m - 1 ==> !(#[trigger] is_still(step, v, k)),
        m == n || (m > 0 && is_still(step, v, (m - 1) as nat)),
    ensures
        v.running(step, n) == runs(step, v, m),
    decreases m,
{
    assert(runs(step, v, 0) == v);
    if m > 0 {
        let w = step(v);
        lemma_runs_begin(step, v, 0);
        assert(runs(step, w, 0) == w);
        if m > 1 {
            assert(!is_still(step, v, 0));
            assert(!stood_still(v, w));
            assert forall|k: nat| k < m - 2 implies !(#[trigger] is_still(step, w, k)) by {
                lemma_runs_begin(step, v, k);
                lemma_runs_begin(step, v, k + 1);
                assert(!is_still(step, v, k + 1));
            }
            lemma_runs_begin(step, v, (m - 1) as nat);
            lemma_runs_begin(step, v, (m - 2) as nat);
            assert(is_still(step, v, (m - 1) as nat) == is_still(step, w, (m - 2) as nat));
            lemma_running(w, step, (m - 1) as nat, n - 1);
        } else if n > 1 {
            assert(is_still(step, v, 0));
            assert(stood_still(v, w));
        } else {
            assert(w.running(step, 0) == w);
        }
    }
}

/// A count runs the step as often as it says: the first run by itself, the
/// others, `m` of them, as part of the same command. They are as many as the
/// count leaves, or up to the first that moves nothing.
pub proof fn law_a_count_is_that_many_runs(
    v: EditorView,
    step: spec_fn(EditorView) -> EditorView,
    m: nat,
    n: int,
)
    requires
        n >= 1,
        m < n,
        moved_nothing(v, step(v)) ==> m == 0,
        !moved_nothing(v, step(v)) ==> {
            let w = in_group(step(v), true);
            &&& forall|k: nat| k < m - 1 ==> !(#[trigger] is_still(step, w, k))
            &&& m == n - 1 || (m > 0 && is_still(step, w, (m - 1) as nat))
        },
    ensures
        moved_nothing(v, step(v)) ==> v.counted(step, n) == step(v),
        !moved_nothing(v, step(v)) ==> v.counted(step, n) == in_group(
            runs(step, in_group(step(v), true), m),
            step(v).buffer().grouped,
        ),
        v.counted(step, 0) == v,
{
    reveal(EditorView::counted);
    if !moved_nothing(v, step(v)) {
        lemma_running(in_group(step(v), true), step, m, n - 1);
    }
}

/// A count that writes is what it says, up to ten thousand.
pub proof fn law_a_writing_count_is_what_it_says(
    v: EditorView,
    step: spec_fn(EditorView) -> EditorView,
    n: int,
)
    ensures
        n <= 10_000 ==> v.counted_writing(step, n) == v.counted(step, n),
        n > 10_000 ==> v.counted_writing(step, n) == (EditorView {
            status: say::writing_ceiling_text(10_000),
            ..v.counted(step, 10_000)
        }),
{
    reveal(EditorView::counted_writing);
}

// ---- Selecting, and typing ------------------------------------------------

/// Flipping changes ends and nothing else but the column that is aimed for.
pub proof fn law_flipping_changes_ends(v: EditorView)
    ensures
        v.flipped() == (EditorView {
            cursor: v.anchor,
            anchor: v.cursor,
            goal_column: v.flipped().goal_column,
            ..v
        }),
        v.flipped().goal_column == crate::editor::visual_column(v.text(), v.anchor),
{
    reveal(EditorView::flipped);
}

/// Beginning to type ends the growing of the selection and what was typed
/// before, and touches nothing else; a locked buffer only says that it is
/// locked.
pub proof fn law_typing_begins_afresh(v: EditorView)
    ensures
        !v.buffer().readonly ==> ({
            let w = v.inserting();
            &&& w.mode == Mode::Insert
            &&& !w.extend
            &&& w.memory.typed.len() == 0
            &&& w == (EditorView {
                mode: w.mode,
                extend: w.extend,
                memory: crate::state::MemoryView { typed: w.memory.typed, ..v.memory },
                ..v
            })
        }),
        v.buffer().readonly ==> v.inserting() == (EditorView {
            status: say::readonly_text(),
            ..v
        }),
{
}

/// The whole text is selected from its beginning, the cursor on its last
/// grapheme.
pub proof fn law_all_is_selected(v: EditorView)
    ensures
        v.selecting_all() == (EditorView {
            anchor: 0,
            cursor: prev_grapheme(v.text(), v.text().len() as int),
            goal_column: 0,
            ..v
        }),
{
    reveal(EditorView::selecting_all);
}

// ---- Leaving --------------------------------------------------------------

/// Whether two buffers hold the same: the text, its file, its history, and
/// whether it was saved.
pub open spec fn holds_the_same(a: BufferView, b: BufferView) -> bool {
    &&& a.text == b.text
    &&& a.path == b.path
    &&& a.modified == b.modified
    &&& a.readonly == b.readonly
    &&& a.syntax == b.syntax
    &&& a.past == b.past
    &&& a.future == b.future
}

/// Whether what buffer `k` held is among the buffers still.
pub open spec fn is_kept(v: EditorView, w: EditorView, k: int) -> bool {
    exists|j: int|
        0 <= j < w.buffers.len() && holds_the_same(v.buffers[k], #[trigger] w.buffers[j])
}

proof fn lemma_first_unsaved(buffers: Seq<BufferView>, i: int, k: int)
    requires
        0 <= i <= k < buffers.len(),
        buffers[k].modified,
        forall|j: int| i <= j < k ==> !(#[trigger] buffers[j]).modified,
    ensures
        unsaved_from(buffers, i) == k,
    decreases k - i,
{
    if i < k {
        assert(!buffers[i].modified);
        lemma_first_unsaved(buffers, i + 1, k);
    }
}

proof fn lemma_none_unsaved(buffers: Seq<BufferView>, i: int)
    requires
        0 <= i <= buffers.len(),
        forall|j: int| i <= j < buffers.len() ==> !(#[trigger] buffers[j]).modified,
    ensures
        unsaved_from(buffers, i) == buffers.len(),
    decreases buffers.len() - i,
{
    if i < buffers.len() {
        lemma_none_unsaved(buffers, i + 1);
    }
}

proof fn lemma_unsaved_is_there(buffers: Seq<BufferView>, i: int)
    requires
        0 <= i <= buffers.len(),
    ensures
        i <= unsaved_from(buffers, i) <= buffers.len(),
    decreases buffers.len() - i,
{
    if i < buffers.len() && !buffers[i].modified {
        lemma_unsaved_is_there(buffers, i + 1);
    }
}

/// Without force no unsaved work is dropped, whatever comes of it: what a buffer
/// held that was not saved is among the buffers still.
pub proof fn law_no_unsaved_work_is_dropped(v: EditorView, k: int)
    requires
        v.wf(),
        0 <= k < v.buffers.len(),
        v.buffers[k].modified,
    ensures
        is_kept(v, v.leaving(false).0, k),
        is_kept(v, v.leaving_all(false).0, k),
        is_kept(v, v.leaving_buffer(false).0, k),
{
    lemma_unsaved_is_there(v.buffers, 0);
    if unsaved_from(v.buffers, 0) == v.buffers.len() {
        lemma_kept_by_sweeping(v, k);
    } else {
        lemma_kept_by_showing(v, unsaved_from(v.buffers, 0), k);
    }
    if v.buffer().modified {
        assert(holds_the_same(v.buffers[k], v.buffers[k]));
    } else {
        lemma_kept_by_closing(v, k);
    }
}

proof fn lemma_kept_by_sweeping(v: EditorView, k: int)
    requires
        v.wf(),
        0 <= k < v.buffers.len(),
    ensures
        is_kept(v, v.swept(), k),
{
    assert(holds_the_same(v.buffers[k], v.swept().buffers[k]));
}

proof fn lemma_kept_by_showing(v: EditorView, i: int, k: int)
    requires
        v.wf(),
        0 <= i < v.buffers.len(),
        0 <= k < v.buffers.len(),
    ensures
        is_kept(v, v.showing_buffer(i), k),
{
    assert(holds_the_same(v.buffers[k], v.showing_buffer(i).buffers[k]));
}

proof fn lemma_kept_by_closing(v: EditorView, k: int)
    requires
        v.wf(),
        0 <= k < v.buffers.len(),
        k != v.active,
    ensures
        is_kept(v, v.closing(), k),
{
    let w = v.closing();
    let j = if k < v.active {
        k
    } else {
        k - 1
    };
    assert(w.buffers[j] == v.buffers[k]);
    assert(holds_the_same(v.buffers[k], w.buffers[j]));
}

/// Closing one of several buffers: one that was not saved stays without force,
/// and everything as it was. Else that buffer goes and no other, and the one
/// before it comes on the page where it was left.
pub proof fn law_closing_is_of_the_buffer_on_the_page(v: EditorView, force: bool)
    requires
        v.wf(),
        v.buffers.len() > 1,
    ensures
        ({
            let (w, out) = v.leaving(force);
            let i = if v.active > 0 {
                v.active - 1
            } else {
                0
            };
            let b = w.buffers[i];
            if v.buffers[v.active].modified && !force {
                w == v && out == Err::<CommandOutcome, ErrorView>(ErrorView::UnsavedChanges)
            } else {
                &&& out == Ok::<CommandOutcome, ErrorView>(CommandOutcome::Continue)
                &&& w.buffers == v.buffers.take(v.active) + v.buffers.skip(v.active + 1)
                &&& w.active == i
                &&& w.cursor == if b.place < b.text.len() {
                    b.place
                } else {
                    b.text.len() as int
                }
                &&& w == (EditorView {
                    buffers: w.buffers,
                    active: w.active,
                    cursor: w.cursor,
                    anchor: w.cursor,
                    extend: false,
                    ..v
                })
            }
        }),
        v.leaving(force) == v.leaving_buffer(force),
{
    assert(v.buffers.remove(v.active) =~= v.buffers.take(v.active) + v.buffers.skip(
        v.active + 1,
    ));
}

/// The last buffer is emptied where it is closed; a new one takes its place.
pub proof fn law_closing_the_last_buffer_empties_it(v: EditorView, force: bool)
    requires
        v.wf(),
        v.buffers.len() == 1,
    ensures
        ({
            let (w, out) = v.leaving_buffer(force);
            if v.buffers[0].modified && !force {
                w == v && out == Err::<CommandOutcome, ErrorView>(ErrorView::UnsavedChanges)
            } else {
                &&& out == Ok::<CommandOutcome, ErrorView>(CommandOutcome::Continue)
                &&& w.buffers.len() == 1
                &&& w.buffers[0].text.len() == 0
                &&& w.buffers[0].path is None
                &&& !w.buffers[0].modified
                &&& !w.buffers[0].readonly
                &&& w.buffers[0].past.len() == 0
                &&& w.cursor == 0
                &&& w.anchor == 0
            }
        }),
{
}

/// Leaving altogether, and leaving from the last buffer. It is held up without
/// force where something was not saved: the first such buffer comes on the page,
/// and no text changes. Else it leaves: the recovery copies that this session
/// wrote are given up, those of others are not, and nothing else changes.
pub proof fn law_leaving_altogether(v: EditorView, force: bool, i: int, k: int)
    requires
        v.wf(),
        0 <= i <= v.buffers.len(),
        i < v.buffers.len() ==> v.buffers[i].modified,
        forall|j: int| 0 <= j < i ==> !(#[trigger] v.buffers[j]).modified,
        0 <= k < v.buffers.len(),
    ensures
        v.buffers.len() == 1 ==> v.leaving(force) == v.leaving_all(force),
        !force && i < v.buffers.len() ==> ({
            let (w, out) = v.leaving_all(force);
            &&& out == Err::<CommandOutcome, ErrorView>(ErrorView::UnsavedChanges)
            &&& w.active == i
            &&& w.buffers.len() == v.buffers.len()
            &&& holds_the_same(v.buffers[k], w.buffers[k])
            &&& w.buffers[k].swap == v.buffers[k].swap
        }),
        force || i == v.buffers.len() ==> ({
            let (w, out) = v.leaving_all(force);
            &&& out == Ok::<CommandOutcome, ErrorView>(CommandOutcome::Quit)
            &&& w == (EditorView { buffers: w.buffers, ..v })
            &&& w.buffers.len() == v.buffers.len()
            &&& holds_the_same(v.buffers[k], w.buffers[k])
            &&& w.buffers[k].swap == match v.buffers[k].swap {
                Swap::Ours => Swap::Absent,
                other => other,
            }
        }),
{
    if i < v.buffers.len() {
        lemma_first_unsaved(v.buffers, 0, i);
    } else {
        lemma_none_unsaved(v.buffers, 0);
    }
}

/// A buffer that comes on the page is where it was left, and the one that was
/// there keeps its place.
pub proof fn law_a_buffer_is_shown_where_it_was_left(v: EditorView, i: int)
    requires
        v.wf(),
        0 <= i < v.buffers.len(),
    ensures
        ({
            let w = v.showing_buffer(i);
            &&& w.active == i
            &&& w.buffers.len() == v.buffers.len()
            &&& w.buffers[v.active] == (BufferView { place: v.cursor, ..v.buffers[v.active] })
            &&& forall|k: int|
                0 <= k < v.buffers.len() && k != v.active ==> (#[trigger] w.buffers[k])
                    == v.buffers[k]
            &&& i == v.active ==> w.cursor == v.cursor
            &&& i != v.active ==> w.cursor == if v.buffers[i].place < v.buffers[i].text.len() {
                v.buffers[i].place
            } else {
                v.buffers[i].text.len() as int
            }
            &&& w.anchor == w.cursor
        }),
{
}

} // verus!
