//! What holds of the editor as a whole.

use vstd::prelude::*;
use crate::article::{
    after_breaks, Article, ArticleLine, ArticlePart, part_rows, Rows, with_furniture, with_line,
    with_lines,
};
use crate::buffer::{BufferView, line_body, PointView};
use crate::editor::{EditorView, least, most};
use crate::grapheme::lemma_next_grapheme;
use crate::lookup::{is_name, names_among, part_of};
use crate::missed::{
    before_from, comes_before, first_six, lemma_before_transitive, missed_in_line,
};
use crate::number::{
    decimal, digit_char, digits_value, is_digit, padded_decimal, parsed, signed_decimal, zeros,
};
use crate::say;
use crate::text::{
    joined_with, lemma_line_around, lemma_line_start, line_count, line_of, line_start, next_stand,
    pieces_of, spliced,
};
use crate::block::stands;
use crate::comment::{all_slashed, slashed, turned, unslashed, wrapped};
use crate::notes::{arranged, place_for};
use crate::outcome::{CommandOutcome, ErrorView};
use crate::ruby::{Dialect, head, joint, ruby_by, tail, written};
use crate::undo::unsaved_from;
use crate::verbs::{
    all_written_over, is_announced_edit, is_one_undo_point, lemma_announced_edit,
    lemma_one_undo_point, stood_still,
};
use crate::wiki::{in_turn, lemma_name_from, Mark, WikiData};

verus! {

// ---- Undo -----------------------------------------------------------------

/// Undoing takes back one edit: the text, the cursor and the history are what
/// they were when it was announced. Redoing brings its text again.
pub proof fn law_undo_takes_back_an_edit(v: EditorView, a: int, b: int, s: Seq<char>)
    requires
        v.wf(),
        !v.buffer().readonly,
        !v.buffer().grouped,
        0 <= a <= b <= v.text().len(),
        a < b || s.len() > 0,
    ensures
        ({
            let written = v.announcing().writing(a, b, s);
            let back = written.undone();
            &&& back.text() == v.text()
            &&& back.cursor == v.cursor
            &&& back.buffer().past == v.buffer().past
            &&& back.redone().text() == written.text()
        }),
{
    reveal(EditorView::redone);
    reveal(EditorView::undone);
    let written = v.announcing().writing(a, b, s);
    let back = written.undone();
    assert(written.buffer().past.drop_last() =~= v.buffer().past);
    assert(back.buffer().past == v.buffer().past);
    assert(back.buffer().future.last().text == written.text());
}

/// Redoing what was undone brings back the text, and undoing what was redone.
pub proof fn law_undo_and_redo_are_opposites(v: EditorView)
    requires
        v.wf(),
        !v.buffer().readonly,
    ensures
        v.buffer().past.len() > 0 ==> v.undone().redone().text() == v.text()
            && v.undone().redone().buffer().future == v.buffer().future,
        v.buffer().future.len() > 0 ==> v.redone().undone().text() == v.text()
            && v.redone().undone().buffer().past == v.buffer().past,
{
    reveal(EditorView::redone);
    reveal(EditorView::undone);
    if v.buffer().past.len() > 0 {
        let back = v.undone();
        assert(back.buffer().future.drop_last() =~= v.buffer().future);
    }
    if v.buffer().future.len() > 0 {
        let forth = v.redone();
        assert(forth.buffer().past.drop_last() =~= v.buffer().past);
    }
}

/// Whether `step` edits the buffer on the page as a command does: it stays on
/// it, it leaves announcements as they are grouped, and in a group it leaves no
/// point of its own.
pub open spec fn edits_in_place(step: spec_fn(EditorView) -> EditorView) -> bool {
    forall|v: EditorView|
        v.wf() && !v.buffer().readonly ==> {
            let w = #[trigger] step(v);
            &&& w.wf()
            &&& w.active == v.active
            &&& w.buffer().readonly == v.buffer().readonly
            &&& w.buffer().grouped == v.buffer().grouped
            &&& v.buffer().grouped && v.buffer().announced is None ==> w.buffer().past
                == v.buffer().past && w.buffer().announced is None
        }
}

proof fn lemma_running_keeps_past(v: EditorView, step: spec_fn(EditorView) -> EditorView, n: int)
    requires
        edits_in_place(step),
        v.wf(),
        !v.buffer().readonly,
        v.buffer().grouped,
        v.buffer().announced is None,
    ensures
        v.running(step, n).wf(),
        v.running(step, n).active == v.active,
        v.running(step, n).buffer().readonly == v.buffer().readonly,
        v.running(step, n).buffer().past == v.buffer().past,
    decreases n,
{
    if n > 0 {
        let w = step(v);
        if !stood_still(v, w) {
            lemma_running_keeps_past(w, step, n - 1);
        }
    }
}

/// A count is one command: however often the step ran, one undo goes back to
/// where the first run announced its edit.
pub proof fn law_a_count_is_one_undo_point(
    v: EditorView,
    step: spec_fn(EditorView) -> EditorView,
    n: int,
)
    requires
        v.wf(),
        !v.buffer().readonly,
        edits_in_place(step),
        n >= 1,
        step(v).buffer().announced is None,
        step(v).buffer().past == v.buffer().past.push(PointView { text: v.text(), at: v.cursor }),
    ensures
        v.counted(step, n).undone().text() == v.text(),
        v.counted(step, n).undone().cursor == v.cursor,
        v.counted(step, n).undone().buffer().past == v.buffer().past,
{
    reveal(EditorView::counted);
    reveal(EditorView::undone);
    let first = step(v);
    assert(first.buffer().past.drop_last() =~= v.buffer().past);
    if !stood_still(v, first) {
        let grouped = first.grouping(true);
        assert(grouped.wf()) by {
            assert forall|k: int| 0 <= k < grouped.buffers.len() implies (
            #[trigger] grouped.buffers[k]).wf() by {
                assert(first.buffers[k].wf());
            }
        }
        lemma_running_keeps_past(grouped, step, n - 1);
    }
}

/// Whether `step` announces itself and then edits the buffer on the page, in
/// one edit or in several, whatever it does besides.
pub open spec fn announces_and_edits(step: spec_fn(EditorView) -> EditorView) -> bool {
    forall|v: EditorView|
        v.wf() && !v.buffer().readonly ==> {
            let w = #[trigger] step(v);
            &&& w.wf()
            &&& is_announced_edit(v, w)
        }
}

/// A counted edit is one undo point: one undo gives the text and the cursor that
/// there were before the first run, and redoing gives the text after the last.
pub proof fn law_a_counted_edit_is_one_undo_point(
    v: EditorView,
    step: spec_fn(EditorView) -> EditorView,
    n: int,
)
    requires
        v.wf(),
        !v.buffer().readonly,
        !v.buffer().grouped,
        announces_and_edits(step),
        n >= 1,
    ensures
        is_one_undo_point(v, v.counted(step, n)),
{
    assert forall|x: EditorView| x.wf() && !x.buffer().readonly implies {
        let w = #[trigger] step(x);
        &&& w.active == x.active
        &&& w.buffer().readonly == x.buffer().readonly
        &&& w.buffer().grouped == x.buffer().grouped
        &&& w.buffer().announced is None
        &&& x.buffer().grouped && x.buffer().announced is None ==> w.buffer().past
            == x.buffer().past
        &&& !x.buffer().grouped ==> w.buffer().past == x.buffer().past.push(
            PointView { text: x.text(), at: x.cursor },
        )
    } by {
        lemma_announced_edit(x, step(x));
    }
    reveal(EditorView::counted);
    let first = step(v);
    if !stood_still(v, first) {
        let grouped = first.grouping(true);
        assert(grouped.wf()) by {
            assert forall|k: int| 0 <= k < grouped.buffers.len() implies (
            #[trigger] grouped.buffers[k]).wf() by {
                assert(first.buffers[k].wf());
            }
        }
        lemma_running_keeps_past(grouped, step, n - 1);
    }
    lemma_one_undo_point(v, v.counted(step, n));
}

/// A count above the ceiling does what the ceiling does, and says so.
pub proof fn law_a_writing_count_has_a_ceiling(
    v: EditorView,
    step: spec_fn(EditorView) -> EditorView,
    n: int,
)
    requires
        n > crate::verbs::WRITING_MAX,
    ensures
        v.counted_writing(step, n).status == say::writing_ceiling_text(10_000),
        v.counted_writing(step, n).buffers == v.counted_writing(step, 10_000).buffers,
        v.counted_writing(step, n).cursor == v.counted_writing(step, 10_000).cursor,
{
    reveal(EditorView::counted_writing);
}

// ---- A locked buffer ------------------------------------------------------

proof fn lemma_locked_lines(v: EditorView, add: bool, first: int, last: int)
    requires
        v.wf(),
        v.buffer().readonly,
    ensures
        v.indenting_lines(add, first, last).buffers == v.buffers,
        v.indenting_lines(add, first, last).active == v.active,
        v.indenting_lines(add, first, last).cursor == v.cursor,
        v.indenting_lines(add, first, last).anchor == v.anchor,
        v.indenting_lines(add, first, last).mode == v.mode,
    decreases last - first + 1,
{
    if last >= first {
        lemma_locked_lines(v.indenting_line(add, last), add, first, last - 1);
    }
}

/// A locked buffer refuses every verb: its text, its history, the selection and
/// the mode stay as they are.
pub proof fn law_a_locked_buffer_refuses(
    v: EditorView,
    w: EditorView,
    g: spec_fn(char) -> Seq<char>,
    c: char,
    s: Seq<char>,
    add: bool,
    delta: i64,
)
    requires
        v.wf(),
        v.buffer().readonly,
        w == v.inserting() || w == v.undone() || w == v.redone() || w == v.joining() || w
            == v.mapping(g) || w == v.replacing_chars(c) || w == v.replacing_with(s) || w
            == v.replacing_with_register() || w == v.indenting(add) || w == v.bumping(delta),
    ensures
        w.buffers == v.buffers,
        w.active == v.active,
        w.cursor == v.cursor,
        w.anchor == v.anchor,
        w.mode == v.mode,
{
    reveal(EditorView::bumping);
    reveal(EditorView::indenting);
    reveal(EditorView::joining);
    reveal(EditorView::mapping);
    reveal(EditorView::redone);
    reveal(EditorView::replacing_chars);
    reveal(EditorView::replacing_with);
    reveal(EditorView::replacing_with_register);
    reveal(EditorView::undone);
    assert(v.announcing().buffers =~= v.buffers);
    assert(v.announcing() =~= v);
    let asked = v.asking_for_none();
    assert(asked.announcing().buffers =~= v.buffers);
    if w == v.indenting(add) {
        lemma_locked_lines(v, add, v.first_selected_line(), v.last_selected_line());
    }
}

// ---- Leaving --------------------------------------------------------------

proof fn lemma_unsaved_from(buffers: Seq<BufferView>, i: int)
    requires
        0 <= i <= buffers.len(),
    ensures
        i <= unsaved_from(buffers, i) <= buffers.len(),
        unsaved_from(buffers, i) < buffers.len() ==> buffers[unsaved_from(buffers, i)].modified,
        forall|k: int| i <= k < unsaved_from(buffers, i) ==> !(#[trigger] buffers[k]).modified,
    decreases buffers.len() - i,
{
    if i < buffers.len() && !buffers[i].modified {
        lemma_unsaved_from(buffers, i + 1);
    }
}

/// Leaving without force never leaves behind what was not saved, in whatever
/// buffer it is; where it holds the leaving up, its buffer comes on the page
/// and no text has changed.
pub proof fn law_leaving_keeps_unsaved_work(v: EditorView)
    requires
        v.wf(),
    ensures
        v.leaving_all(false).1 == Ok::<CommandOutcome, ErrorView>(CommandOutcome::Quit) <==> (
        forall|k: int| 0 <= k < v.buffers.len() ==> !(#[trigger] v.buffers[k]).modified),
        v.leaving(false).1 == Ok::<CommandOutcome, ErrorView>(CommandOutcome::Quit) ==> (
        forall|k: int| 0 <= k < v.buffers.len() ==> !(#[trigger] v.buffers[k]).modified),
        v.leaving_all(false).1 is Err ==> v.leaving_all(false).0.buffer().modified,
        forall|k: int|
            0 <= k < v.buffers.len() ==> (#[trigger] v.leaving_all(false).0.buffers[k]).text
                == v.buffers[k].text,
{
    lemma_unsaved_from(v.buffers, 0);
}

/// Leaving with force leaves.
pub proof fn law_leaving_with_force_leaves(v: EditorView)
    requires
        v.wf(),
    ensures
        v.leaving_all(true).1 == Ok::<CommandOutcome, ErrorView>(CommandOutcome::Quit),
        v.buffers.len() == 1 ==> v.leaving(true).1 == Ok::<CommandOutcome, ErrorView>(
            CommandOutcome::Quit,
        ),
        v.buffers.len() > 1 ==> v.leaving(true).1 == Ok::<CommandOutcome, ErrorView>(
            CommandOutcome::Continue,
        ),
{
}

// ---- Selecting ------------------------------------------------------------

/// Flipping moves the cursor and nothing of the selection; flipping twice puts
/// both ends back.
pub proof fn law_flipping_keeps_the_selection(v: EditorView)
    requires
        v.wf(),
    ensures
        v.flipped().selection_start() == v.selection_start(),
        v.flipped().selection_end() == v.selection_end(),
        v.flipped().cursor == v.anchor,
        v.flipped().flipped().cursor == v.cursor,
        v.flipped().flipped().anchor == v.anchor,
{
    reveal(EditorView::flipped);
}

/// A selection covers the grapheme under the cursor: it is empty only at the
/// end of the text.
pub proof fn law_a_selection_covers_the_cursor(v: EditorView)
    requires
        v.wf(),
    ensures
        v.selection_start() <= v.cursor <= v.selection_end() <= v.text().len(),
        v.cursor < v.text().len() ==> v.cursor < v.selection_end(),
        v.selection_start() == v.selection_end() ==> v.selection_start() == v.text().len(),
{
    lemma_next_grapheme(v.text(), most(v.anchor, v.cursor));
}

/// A selection that is grown to whole lines begins where the first of them
/// begins. Where it ends, [`crate::editor::Editor::extend_to_line_bounds`] says.
pub proof fn law_whole_lines_cover_the_selection(v: EditorView)
    requires
        v.wf(),
    ensures
        v.selecting_lines().anchor <= v.selection_start(),
        line_of(v.text(), v.selecting_lines().anchor) == v.first_selected_line(),
        v.selecting_lines().anchor == line_start(v.text(), v.first_selected_line()),
{
    reveal(EditorView::selecting_lines);
    law_a_selection_covers_the_cursor(v);
    lemma_line_around(v.text(), v.selection_start());
    lemma_line_start(v.text(), v.first_selected_line());
}

// ---- Writing --------------------------------------------------------------

/// Writing over is one for one: graphemes that are no line endings become as many
/// characters.
pub proof fn law_writing_over_is_one_for_one(pieces: Seq<Seq<char>>, c: char)
    requires
        forall|k: int|
            0 <= k < pieces.len() ==> (#[trigger] pieces[k]).len() > 0 && pieces[k][0] != '\n'
                && pieces[k][0] != '\r',
    ensures
        all_written_over(pieces, c) == Seq::new(pieces.len(), |i: int| c),
    decreases pieces.len(),
{
    if pieces.len() > 0 {
        law_writing_over_is_one_for_one(pieces.drop_last(), c);
        assert(pieces.last() == pieces[pieces.len() - 1]);
    }
    assert(all_written_over(pieces, c) =~= Seq::new(pieces.len(), |i: int| c));
}

/// Joining puts nothing between two full-width characters.
pub proof fn law_joining_han_puts_nothing_between(t: Seq<char>, end: int, next: int)
    requires
        0 < end <= next < t.len(),
        crate::width::wide(t[end - 1]),
        crate::width::wide(t[next]),
    ensures
        spliced(t, end, next, crate::verbs::glue(t, end, next)) == t.take(end) + t.skip(next),
{
    assert(spliced(t, end, next, Seq::empty()) =~= t.take(end) + t.skip(next));
}

// ---- Numbers --------------------------------------------------------------

/// A number in decimal is digits worth the number.
pub proof fn lemma_decimal(n: nat)
    ensures
        decimal(n).len() > 0,
        forall|k: int| 0 <= k < decimal(n).len() ==> is_digit(#[trigger] decimal(n)[k]),
        digits_value(decimal(n)) == n,
    decreases n,
{
    if n < 10 {
        assert(decimal(n).drop_last() =~= Seq::empty());
        assert(digits_value(Seq::<char>::empty()) == 0);
        assert(decimal(n).last() == digit_char(n as int));
    } else {
        lemma_decimal(n / 10);
        assert(decimal(n).drop_last() =~= decimal(n / 10));
        assert(decimal(n).last() == digit_char((n % 10) as int));
    }
}

/// Zeros in front are worth nothing.
pub proof fn lemma_zeros_are_worth_nothing(k: int, s: Seq<char>)
    requires
        0 <= k,
    ensures
        digits_value(zeros(k) + s) == digits_value(s),
    decreases k + s.len(),
{
    let all = zeros(k) + s;
    if s.len() > 0 {
        assert(all.drop_last() =~= zeros(k) + s.drop_last());
        lemma_zeros_are_worth_nothing(k, s.drop_last());
    } else if k > 0 {
        assert(all.drop_last() =~= zeros(k - 1) + s);
        lemma_zeros_are_worth_nothing(k - 1, s);
        assert(all.last() == '0');
    } else {
        assert(all =~= s);
    }
}

/// A number that a step wrote reads as that number, filled up with zeros or
/// not.
pub proof fn law_a_written_number_reads_back(n: i64, width: int)
    ensures
        parsed(signed_decimal(n as int)) == Some(n),
        parsed(padded_decimal(n as int, width)) == Some(n),
{
    let m = if n < 0 {
        (-n) as nat
    } else {
        n as nat
    };
    let digits = decimal(m);
    lemma_decimal(m);
    let s = signed_decimal(n as int);
    if n < 0 {
        assert(s.skip(1) =~= digits);
    } else {
        assert(is_digit(digits[0]));
    }
    let fill = width - digits.len();
    let k = if fill > 0 {
        fill
    } else {
        0
    };
    let p = padded_decimal(n as int, width);
    assert(zeros(fill) =~= zeros(k));
    lemma_zeros_are_worth_nothing(k, digits);
    if n < 0 {
        assert(p.skip(1) =~= zeros(k) + digits);
    } else {
        assert(p =~= zeros(k) + digits);
        assert(is_digit(p[0])) by {
            if k == 0 {
                assert(p[0] == digits[0]);
            }
        }
    }
}

// ---- The wiki -------------------------------------------------------------

proof fn lemma_lines_keep_rows(r: Rows, lines: Seq<ArticleLine>, upto: int)
    requires
        r.rows.len() > 0,
    ensures
        with_lines(r, lines, upto).rows.len() > 0,
        with_lines(r, lines, upto).rows[0] == r.rows[0],
    decreases lines.len(),
{
    if lines.len() > 0 {
        lemma_lines_keep_rows(r, lines.drop_last(), upto);
    }
}

proof fn lemma_first_row_leads(rows: Seq<Seq<char>>, sep: Seq<char>)
    requires
        rows.len() > 0,
    ensures
        rows[0].is_prefix_of(joined_with(rows, sep)),
    decreases rows.len(),
{
    let all = joined_with(rows, sep);
    if rows.len() == 1 {
        assert(all.subrange(0, rows[0].len() as int) =~= rows[0]);
    } else {
        lemma_first_row_leads(rows.drop_last(), sep);
        let head = joined_with(rows.drop_last(), sep);
        assert(all.subrange(0, rows[0].len() as int) =~= head.subrange(0, rows[0].len() as int));
    }
}

/// The line that is lifted out of an article stands at its beginning, and what
/// is left is the rest of it without the breaks between.
pub proof fn law_the_lede_and_the_body_are_the_article(a: Article, upto: int)
    ensures
        match a.lede() {
            Some(lede) => {
                let rest = a.prose(upto).skip(lede.len() as int);
                &&& lede.is_prefix_of(a.prose(upto))
                &&& a.body(upto) == rest.skip(after_breaks(rest, 0))
            },
            None => a.body(upto) == a.prose(upto),
        },
{
    if a.lede() is Some {
        let parts = a.parts;
        let part = parts[0];
        let none = Rows { rows: Seq::empty(), kept: 0, said: false, cut: false };
        assert(parts.drop_last().len() == 0);
        assert(part_rows(parts.drop_last(), a.mixed(), upto) == none);
        assert(parts.last() == part);
        if a.mixed() {
            let i = choose|i: int| 0 <= i < parts.len() && (#[trigger] parts[i]).global;
            let j = choose|j: int| 0 <= j < parts.len() && !(#[trigger] parts[j]).global;
            assert(i == j);
        }
        let furnished = with_furniture(none, part, 0, a.mixed());
        assert(furnished.rows[0] == a.lede()->0);
        lemma_lines_keep_rows(furnished, part.lines, upto);
        lemma_first_row_leads(part_rows(parts, a.mixed(), upto).rows, "\n"@);
    }
}

/// How many lines of body the parts have.
pub open spec fn body_lines(parts: Seq<ArticlePart>) -> int
    decreases parts.len(),
{
    if parts.len() == 0 {
        0
    } else {
        body_lines(parts.drop_last()) + parts.last().lines.len()
    }
}

proof fn lemma_lines_not_cut(r: Rows, lines: Seq<ArticleLine>, upto: int)
    requires
        !r.cut,
        r.kept + lines.len() <= upto,
    ensures
        !with_lines(r, lines, upto).cut,
        with_lines(r, lines, upto).kept <= r.kept + lines.len(),
    decreases lines.len(),
{
    if lines.len() > 0 {
        lemma_lines_not_cut(r, lines.drop_last(), upto);
    }
}

/// An article with no more lines of body than the limit is not cut.
pub proof fn law_a_short_article_is_whole(parts: Seq<ArticlePart>, mixed: bool, upto: int)
    requires
        body_lines(parts) <= upto,
    ensures
        !part_rows(parts, mixed, upto).cut,
        part_rows(parts, mixed, upto).kept <= body_lines(parts),
    decreases parts.len(),
{
    if parts.len() > 0 {
        law_a_short_article_is_whole(parts.drop_last(), mixed, upto);
        let r = part_rows(parts.drop_last(), mixed, upto);
        lemma_lines_not_cut(
            with_furniture(r, parts.last(), parts.len() - 1, mixed),
            parts.last().lines,
            upto,
        );
    }
}

proof fn lemma_lines_begin_alike(r: Rows, lines: Seq<ArticleLine>, upto: int, more: int)
    requires
        upto <= more,
    ensures
        ({
            let x = with_lines(r, lines, upto);
            let y = with_lines(r, lines, more);
            &&& !x.cut ==> x == y
            &&& x.rows.is_prefix_of(y.rows)
            &&& r.cut ==> x.cut
        }),
    decreases lines.len(),
{
    if lines.len() == 0 {
        assert(r.rows.subrange(0, r.rows.len() as int) =~= r.rows);
    } else {
        lemma_lines_begin_alike(r, lines.drop_last(), upto, more);
        let x = with_lines(r, lines.drop_last(), upto);
        let y = with_lines(r, lines.drop_last(), more);
        let z = with_line(y, lines.last(), more);
        let w = with_line(x, lines.last(), upto);
        assert(x.rows.is_prefix_of(z.rows)) by {
            assert(z.rows.subrange(0, x.rows.len() as int) =~= y.rows.subrange(
                0,
                x.rows.len() as int,
            ));
        }
        if !w.cut {
            assert(w.rows.subrange(0, w.rows.len() as int) =~= w.rows);
        }
    }
}

/// An article that is not cut is the whole one.
pub proof fn law_an_article_that_is_not_cut_is_whole(
    parts: Seq<ArticlePart>,
    mixed: bool,
    upto: int,
    more: int,
)
    requires
        upto <= more,
        !part_rows(parts, mixed, upto).cut,
    ensures
        part_rows(parts, mixed, upto) == part_rows(parts, mixed, more),
    decreases parts.len(),
{
    if parts.len() > 0 {
        let a = part_rows(parts.drop_last(), mixed, upto);
        let f = with_furniture(a, parts.last(), parts.len() - 1, mixed);
        lemma_lines_begin_alike(f, parts.last().lines, upto, more);
        law_an_article_that_is_not_cut_is_whole(parts.drop_last(), mixed, upto, more);
    }
}

proof fn lemma_parts_extend(parts: Seq<ArticlePart>, k: int, mixed: bool, upto: int)
    requires
        0 <= k <= parts.len(),
    ensures
        part_rows(parts.take(k), mixed, upto).rows.is_prefix_of(
            part_rows(parts, mixed, upto).rows,
        ),
    decreases parts.len(),
{
    let x = part_rows(parts.take(k), mixed, upto).rows;
    if k == parts.len() {
        assert(parts.take(k) =~= parts);
        assert(x.subrange(0, x.len() as int) =~= x);
    } else {
        let rest = parts.drop_last();
        assert(rest.take(k) =~= parts.take(k));
        lemma_parts_extend(rest, k, mixed, upto);
        let y = part_rows(rest, mixed, upto);
        let f = with_furniture(y, parts.last(), parts.len() - 1, mixed);
        lemma_lines_extend(f, parts.last().lines, upto);
        let z = with_lines(f, parts.last().lines, upto).rows;
        assert(f.rows.subrange(0, y.rows.len() as int) =~= y.rows);
        assert(z.subrange(0, x.len() as int) =~= f.rows.subrange(0, x.len() as int));
        assert(f.rows.subrange(0, x.len() as int) =~= y.rows.subrange(0, x.len() as int));
    }
}

proof fn lemma_joined_begins_alike(x: Seq<Seq<char>>, y: Seq<Seq<char>>, sep: Seq<char>)
    requires
        x.is_prefix_of(y),
    ensures
        joined_with(x, sep).is_prefix_of(joined_with(y, sep)),
    decreases y.len(),
{
    let a = joined_with(x, sep);
    let b = joined_with(y, sep);
    if x.len() == y.len() {
        assert(x =~= y);
        assert(a.subrange(0, a.len() as int) =~= a);
    } else if x.len() == 0 {
        assert(b.subrange(0, 0) =~= a);
    } else {
        let rest = y.drop_last();
        assert(rest.subrange(0, x.len() as int) =~= y.subrange(0, x.len() as int));
        lemma_joined_begins_alike(x, rest, sep);
        assert(b.subrange(0, a.len() as int) =~= joined_with(rest, sep).subrange(
            0,
            a.len() as int,
        ));
    }
}

/// Up to and with the part in which it is cut, an article is a beginning of one
/// with more lines; where that is the last part, the whole of it is.
pub proof fn law_a_cut_article_is_a_beginning(a: Article, k: int, upto: int, more: int)
    requires
        0 <= upto <= more,
        0 < k <= a.parts.len(),
        !part_rows(a.parts.take(k - 1), a.mixed(), upto).cut,
    ensures
        ({
            let cut = joined_with(part_rows(a.parts.take(k), a.mixed(), upto).rows, "\n"@);
            &&& cut.is_prefix_of(a.prose(more))
            &&& cut.is_prefix_of(a.prose(upto))
            &&& k == a.parts.len() ==> cut == a.prose(upto)
        }),
{
    let mixed = a.mixed();
    let parts = a.parts.take(k);
    assert(parts.drop_last() =~= a.parts.take(k - 1));
    law_an_article_that_is_not_cut_is_whole(a.parts.take(k - 1), mixed, upto, more);
    let r = part_rows(parts.drop_last(), mixed, upto);
    let f = with_furniture(r, parts.last(), k - 1, mixed);
    lemma_lines_begin_alike(f, parts.last().lines, upto, more);
    let x = part_rows(parts, mixed, upto).rows;
    let y = part_rows(parts, mixed, more).rows;
    let z = part_rows(a.parts, mixed, more).rows;
    lemma_parts_extend(a.parts, k, mixed, upto);
    lemma_parts_extend(a.parts, k, mixed, more);
    assert(z.subrange(0, x.len() as int) =~= y.subrange(0, x.len() as int));
    lemma_joined_begins_alike(x, z, "\n"@);
    lemma_joined_begins_alike(x, part_rows(a.parts, mixed, upto).rows, "\n"@);
    if k == a.parts.len() {
        assert(parts =~= a.parts);
    }
}

/// How many of the lines take a row.
pub open spec fn counting(lines: Seq<ArticleLine>) -> int
    decreases lines.len(),
{
    if lines.len() == 0 {
        0
    } else {
        counting(lines.drop_last()) + if lines.last().counts() { 1int } else { 0int }
    }
}

/// How many lines of the parts take a row.
pub open spec fn counting_in(parts: Seq<ArticlePart>) -> int
    decreases parts.len(),
{
    if parts.len() == 0 {
        0
    } else {
        counting_in(parts.drop_last()) + counting(parts.last().lines)
    }
}

/// How many of the lines are shown where there is room for `room` rows: each
/// before which fewer than that many take one.
pub open spec fn shown(lines: Seq<ArticleLine>, room: int) -> int
    decreases lines.len(),
{
    if lines.len() == 0 {
        0
    } else {
        let n = shown(lines.drop_last(), room);
        if n < lines.len() - 1 || counting(lines.drop_last()) >= room {
            n
        } else {
            n + 1
        }
    }
}

/// The rows of lines.
pub open spec fn rows_of(lines: Seq<ArticleLine>) -> Seq<Seq<char>> {
    lines.map_values(|l: ArticleLine| l.row())
}

proof fn lemma_lines_shown(r: Rows, lines: Seq<ArticleLine>, upto: int)
    requires
        r.kept <= upto,
        r.cut ==> r.kept == upto,
    ensures
        ({
            let n = shown(lines, upto - r.kept);
            let w = with_lines(r, lines, upto);
            &&& 0 <= n <= lines.len()
            &&& 0 <= counting(lines)
            &&& counting(lines.take(n)) == least(counting(lines), upto - r.kept)
            &&& w.rows == r.rows + rows_of(lines.take(n))
            &&& w.kept == least(r.kept + counting(lines), upto)
            &&& w.cut <==> r.cut || n < lines.len()
            &&& w.cut ==> w.kept == upto
        }),
    decreases lines.len(),
{
    let n = shown(lines, upto - r.kept);
    if lines.len() == 0 {
        assert(rows_of(lines.take(0)) =~= Seq::empty());
        assert(r.rows + rows_of(lines.take(0)) =~= r.rows);
    } else {
        let rest = lines.drop_last();
        lemma_lines_shown(r, rest, upto);
        let m = shown(rest, upto - r.kept);
        if n == m {
            assert(lines.take(n) =~= rest.take(n));
        } else {
            assert(rest.take(m) =~= rest);
            assert(lines.take(n) =~= lines);
            assert(rows_of(lines) =~= rows_of(rest).push(lines.last().row()));
            assert(r.rows + rows_of(lines) =~= (r.rows + rows_of(rest)).push(lines.last().row()));
        }
    }
}

/// An article has exactly the first lines of body that there is room for, in
/// their order: after what stands above it, each part has its first lines, those
/// that the parts before leave room for.
pub proof fn law_the_first_lines_of_body_are_kept(
    parts: Seq<ArticlePart>,
    mixed: bool,
    upto: int,
)
    requires
        0 <= upto,
    ensures
        part_rows(parts, mixed, upto).kept == least(counting_in(parts), upto),
        0 <= counting_in(parts),
        part_rows(parts, mixed, upto).cut ==> part_rows(parts, mixed, upto).kept == upto,
        parts.len() > 0 ==> ({
            let lines = parts.last().lines;
            let room = most(upto - counting_in(parts.drop_last()), 0);
            let n = shown(lines, room);
            &&& 0 <= n <= lines.len()
            &&& counting(lines.take(n)) == least(counting(lines), room)
            &&& part_rows(parts, mixed, upto).rows == with_furniture(
                part_rows(parts.drop_last(), mixed, upto),
                parts.last(),
                parts.len() - 1,
                mixed,
            ).rows + rows_of(lines.take(n))
        }),
    decreases parts.len(),
{
    if parts.len() > 0 {
        law_the_first_lines_of_body_are_kept(parts.drop_last(), mixed, upto);
        let r = part_rows(parts.drop_last(), mixed, upto);
        let f = with_furniture(r, parts.last(), parts.len() - 1, mixed);
        lemma_lines_shown(f, parts.last().lines, upto);
    }
}

proof fn lemma_lines_extend(r: Rows, lines: Seq<ArticleLine>, upto: int)
    ensures
        r.rows.is_prefix_of(with_lines(r, lines, upto).rows),
    decreases lines.len(),
{
    if lines.len() == 0 {
        assert(r.rows.subrange(0, r.rows.len() as int) =~= r.rows);
    } else {
        lemma_lines_extend(r, lines.drop_last(), upto);
        let x = with_lines(r, lines.drop_last(), upto);
        let y = with_line(x, lines.last(), upto);
        assert(y.rows.subrange(0, r.rows.len() as int) =~= x.rows.subrange(
            0,
            r.rows.len() as int,
        ));
    }
}

/// The entries of a name come in their turn: those of the book before the global
/// ones, of either the less deep ones first, and of those as deep the ones that
/// were read first.
pub proof fn law_parts_come_in_turn(v: EditorView, i: int, j: int)
    requires
        v.wf(),
        v.article_here() matches Some(a) && 0 <= i < j < a.parts.len(),
    ensures
        ({
            let a = v.article_here()->0;
            let found = v.wiki.by_name[v.wiki.find(a.name)].1;
            &&& a.parts[i] == part_of(v.wiki.entries[found[i] as int])
            &&& a.parts[j] == part_of(v.wiki.entries[found[j] as int])
            &&& a.parts[i].global ==> a.parts[j].global
            &&& a.parts[i].global == a.parts[j].global ==> v.wiki.entries[found[i] as int].depth
                <= v.wiki.entries[found[j] as int].depth
            &&& a.parts[i].global == a.parts[j].global && v.wiki.entries[found[i] as int].depth
                == v.wiki.entries[found[j] as int].depth ==> found[i] < found[j]
        }),
{
    let a = v.article_here()->0;
    let k = v.wiki.find(a.name);
    lemma_name_from(v.wiki.by_name, a.name, 0);
    let found = v.wiki.by_name[k].1;
    assert(v.wiki.are_in_turn(found));
    assert(in_turn(
        v.wiki.entries[found[i] as int],
        found[i],
        v.wiki.entries[found[j] as int],
        found[j],
    ));
}

/// A mark is a word of its line that is longer than one character and the name
/// of an entry, and every such word is a mark.
pub proof fn law_marks_are_the_names_among_the_words(
    wiki: WikiData,
    chars: Seq<char>,
    cuts: Seq<(usize, usize)>,
    word: (usize, usize),
)
    ensures
        names_among(wiki, chars, cuts).contains(word) <==> cuts.contains(word) && is_name(
            wiki,
            chars,
            word,
        ),
    decreases cuts.len(),
{
    if cuts.len() > 0 {
        let rest = cuts.drop_last();
        law_marks_are_the_names_among_the_words(wiki, chars, rest, word);
        let names = names_among(wiki, chars, rest);
        assert(cuts =~= rest.push(cuts.last()));
        if is_name(wiki, chars, cuts.last()) {
            assert(names_among(wiki, chars, cuts) == names.push(cuts.last()));
            assert(names.push(cuts.last()).contains(word) <==> names.contains(word) || word
                == cuts.last()) by {
                if names.contains(word) {
                    let k = choose|k: int| 0 <= k < names.len() && names[k] == word;
                    assert(names.push(cuts.last())[k] == word);
                }
                if word == cuts.last() {
                    assert(names.push(cuts.last())[names.len() as int] == word);
                }
            }
        }
        assert(cuts.contains(word) <==> rest.contains(word) || word == cuts.last()) by {
            if rest.contains(word) {
                let k = choose|k: int| 0 <= k < rest.len() && rest[k] == word;
                assert(cuts[k] == word);
            }
            if word == cuts.last() {
                assert(cuts[cuts.len() - 1] == word);
            }
        }
    }
}

proof fn lemma_not_before_itself(a: Seq<char>, i: int)
    ensures
        !before_from(a, a, i),
    decreases a.len() - i,
{
    if i < a.len() {
        lemma_not_before_itself(a, i + 1);
    }
}

proof fn lemma_name_is_listed(
    v: EditorView,
    a: Seq<(Seq<char>, Seq<int>)>,
    i: int,
    b: Seq<(Seq<char>, Seq<int>)>,
) -> (j: int)
    requires
        v.are_missed(a),
        v.are_missed(b),
        0 <= i < a.len(),
    ensures
        0 <= j < b.len(),
        b[j].0 == a[i].0,
{
    let name = a[i].0;
    crate::wiki::lemma_name_from(v.wiki.by_name, name, 0);
    let k = v.wiki.find(name);
    assert(v.wiki.by_name[k].0 == name);
    choose|j: int| 0 <= j < b.len() && (#[trigger] b[j]).0 == v.wiki.by_name[k].0
}

proof fn lemma_missed_agree(
    v: EditorView,
    a: Seq<(Seq<char>, Seq<int>)>,
    b: Seq<(Seq<char>, Seq<int>)>,
    i: int,
)
    requires
        v.are_missed(a),
        v.are_missed(b),
        0 <= i < a.len(),
        forall|k: int| 0 <= k < i ==> k < b.len() && (#[trigger] a[k]).0 == b[k].0,
    ensures
        i < b.len(),
        a[i].0 == b[i].0,
{
    let j = lemma_name_is_listed(v, a, i, b);
    lemma_not_before_itself(a[i].0, 0);
    if j < i {
        assert(a[j].0 == b[j].0);
        assert(comes_before(a[j].0, a[i].0));
    }
    if j > i {
        assert(comes_before(b[i].0, b[j].0));
        let m = lemma_name_is_listed(v, b, i, a);
        if m < i {
            assert(a[m].0 == b[m].0);
            lemma_not_before_itself(b[i].0, 0);
            assert(comes_before(b[m].0, b[i].0));
        }
        if m > i {
            assert(comes_before(a[i].0, a[m].0));
            lemma_before_transitive(a[i].0, b[i].0, a[i].0, 0);
        }
    }
}

proof fn lemma_missed_agree_upto(
    v: EditorView,
    a: Seq<(Seq<char>, Seq<int>)>,
    b: Seq<(Seq<char>, Seq<int>)>,
    n: int,
)
    requires
        v.are_missed(a),
        v.are_missed(b),
        0 <= n <= a.len(),
    ensures
        n <= b.len(),
        forall|k: int| 0 <= k < n ==> (#[trigger] a[k]).0 == b[k].0,
    decreases n,
{
    if n > 0 {
        lemma_missed_agree_upto(v, a, b, n - 1);
        lemma_missed_agree(v, a, b, n - 1);
    }
}

/// There is one list of the names that stand in a chapter unmarked.
pub proof fn law_the_missed_list_is_one(
    v: EditorView,
    a: Seq<(Seq<char>, Seq<int>)>,
    b: Seq<(Seq<char>, Seq<int>)>,
)
    requires
        v.are_missed(a),
        v.are_missed(b),
    ensures
        a == b,
{
    lemma_missed_agree_upto(v, a, b, a.len() as int);
    lemma_missed_agree_upto(v, b, a, b.len() as int);
    assert forall|k: int| 0 <= k < a.len() implies a[k] == b[k] by {
        assert(a[k].0 == b[k].0);
    }
    assert(a =~= b);
}

// ---- Comments, readings and notes -----------------------------------------

proof fn lemma_missed_in_line(
    chars: Seq<char>,
    marks: Seq<(usize, usize)>,
    name: Seq<char>,
    line: int,
    at: int,
)
    ensures
        forall|k: int|
            0 <= k < missed_in_line(chars, marks, name, line, at).len() ==> (
            #[trigger] missed_in_line(chars, marks, name, line, at)[k]) == line,
    decreases at,
{
    if at > 0 {
        lemma_missed_in_line(chars, marks, name, line, at - 1);
        let rest = missed_in_line(chars, marks, name, line, at - 1);
        let all = missed_in_line(chars, marks, name, line, at);
        assert forall|k: int| 0 <= k < all.len() implies (#[trigger] all[k]) == line by {
            if k < rest.len() {
                assert(all[k] == rest[k]);
            }
        }
    }
}

proof fn lemma_missed_on(v: EditorView, name: Seq<char>, lines: int)
    ensures
        forall|k: int|
            0 <= k < v.missed_on(name, lines).len() ==> 1 <= (
            #[trigger] v.missed_on(name, lines)[k]) <= lines,
        forall|j: int, k: int|
            0 <= j <= k < v.missed_on(name, lines).len() ==> (#[trigger] v.missed_on(
                name,
                lines,
            )[j]) <= (#[trigger] v.missed_on(name, lines)[k]),
    decreases lines,
{
    if lines > 0 {
        lemma_missed_on(v, name, lines - 1);
        let chars = line_body(v.text(), lines - 1);
        let rest = v.missed_on(name, lines - 1);
        let marks = v.names_on_line(lines - 1);
        lemma_missed_in_line(chars, marks, name, lines, chars.len() as int);
        if !v.quotes(lines - 1) {
            let new = missed_in_line(chars, marks, name, lines, chars.len() as int);
            assert(v.missed_on(name, lines) == rest + new);
            assert forall|k: int| 0 <= k < (rest + new).len() implies 1 <= (#[trigger] (rest
                + new)[k]) <= lines && (k >= rest.len() ==> (rest + new)[k] == lines) by {
                if k < rest.len() {
                    assert((rest + new)[k] == rest[k]);
                } else {
                    assert((rest + new)[k] == new[k - rest.len()]);
                }
            }
            assert forall|j: int, k: int| 0 <= j <= k < (rest + new).len() implies (#[trigger] (
            rest + new)[j]) <= (#[trigger] (rest + new)[k]) by {
                if k < rest.len() {
                    assert((rest + new)[j] == rest[j] && (rest + new)[k] == rest[k]);
                }
            }
        }
    }
}

/// A name that stands in a chapter unmarked is listed with one line at least and
/// six at most; their numbers are those of lines of the chapter, and do not go
/// down.
pub proof fn law_missed_lines_do_not_go_down(
    v: EditorView,
    list: Seq<(Seq<char>, Seq<int>)>,
    i: int,
)
    requires
        v.are_missed(list),
        0 <= i < list.len(),
    ensures
        1 <= list[i].1.len() <= 6,
        forall|k: int|
            0 <= k < list[i].1.len() ==> 1 <= (#[trigger] list[i].1[k]) <= line_count(v.text()),
        forall|j: int, k: int|
            0 <= j <= k < list[i].1.len() ==> (#[trigger] list[i].1[j]) <= (
            #[trigger] list[i].1[k]),
{
    let name = list[i].0;
    let all = v.missed_lines(name);
    lemma_missed_on(v, name, line_count(v.text()));
    let n = list[i].1;
    assert(n == first_six(all));
    assert forall|k: int| 0 <= k < n.len() implies #[trigger] n[k] == all[k] by {}
}

proof fn lemma_missed_however_marked(
    v: EditorView,
    mark: Mark,
    said: Seq<char>,
    name: Seq<char>,
    lines: int,
)
    ensures
        v.marking(mark, said).missed_on(name, lines) == v.missed_on(name, lines),
    decreases lines,
{
    if lines > 0 {
        lemma_missed_however_marked(v, mark, said, name, lines - 1);
        assert(v.marking(mark, said).quotes(lines - 1) == v.quotes(lines - 1));
        assert(v.marking(mark, said).names_on_line(lines - 1) == v.names_on_line(lines - 1));
    }
}

/// Which names stand in a chapter unmarked does not depend on how names are
/// marked on the page, or whether they are.
pub proof fn law_what_is_missed_is_missed_however_marked(
    v: EditorView,
    mark: Mark,
    said: Seq<char>,
    list: Seq<(Seq<char>, Seq<int>)>,
)
    ensures
        v.marking(mark, said).are_missed(list) <==> v.are_missed(list),
{
    let w = v.marking(mark, said);
    assert forall|name: Seq<char>| #[trigger] w.missed_lines(name) == v.missed_lines(name) by {
        lemma_missed_however_marked(v, mark, said, name, line_count(v.text()));
    }
    assert forall|name: Seq<char>| #[trigger] w.is_missed(name) == v.is_missed(name) by {
        assert(w.missed_lines(name) == v.missed_lines(name));
    }
    assert(w.wiki == v.wiki);
    if v.are_missed(list) {
        assert(w.are_missed(list));
    }
    if w.are_missed(list) {
        assert forall|i: int| 0 <= i < list.len() implies v.wiki.knows((#[trigger] list[i]).0)
            && v.is_missed(list[i].0) && list[i].1 == first_six(v.missed_lines(list[i].0)) by {
            assert(w.is_missed(list[i].0) == v.is_missed(list[i].0));
            assert(w.missed_lines(list[i].0) == v.missed_lines(list[i].0));
        }
        assert forall|k: int| 0 <= k < v.wiki.by_name.len() && v.is_missed(
            (#[trigger] v.wiki.by_name[k]).0,
        ) implies exists|i: int| 0 <= i < list.len() && (#[trigger] list[i]).0
            == v.wiki.by_name[k].0 by {
            assert(w.is_missed(w.wiki.by_name[k].0));
        }
        assert(v.are_missed(list));
    }
}

/// What was made one comment is what it was when the comment is taken off.
pub proof fn law_a_comment_is_taken_off_again(r: Seq<char>, marks: (Seq<char>, Seq<char>))
    requires
        !(r.len() >= marks.0.len() + marks.1.len() && marks.0.is_prefix_of(r)
            && marks.1.is_suffix_of(r)),
    ensures
        wrapped(wrapped(r, marks), marks) == r,
{
    let (head, tail) = marks;
    let w = head + r + tail;
    assert(w.subrange(0, head.len() as int) =~= head);
    assert(w.subrange(w.len() - tail.len(), w.len() as int) =~= tail);
    assert(w.subrange(head.len() as int, w.len() - tail.len()) =~= r);
}

proof fn lemma_pieces_without(s: Seq<char>, sep: char, k: int)
    requires
        0 <= k < pieces_of(s, sep).len(),
    ensures
        !pieces_of(s, sep)[k].contains(sep),
    decreases s.len(),
{
    if s.len() > 0 {
        let rest = pieces_of(s.drop_last(), sep);
        if s.last() == sep {
            if k < rest.len() {
                lemma_pieces_without(s.drop_last(), sep, k);
            }
        } else {
            lemma_pieces_some(s.drop_last(), sep);
            if k < rest.len() - 1 {
                lemma_pieces_without(s.drop_last(), sep, k);
            } else {
                lemma_pieces_without(s.drop_last(), sep, k);
                let piece = rest.last().push(s.last());
                if piece.contains(sep) {
                    let i = choose|i: int| 0 <= i < piece.len() && piece[i] == sep;
                    assert(rest.last()[i] == sep);
                }
            }
        }
    }
}

proof fn lemma_pieces_some(s: Seq<char>, sep: char)
    ensures
        pieces_of(s, sep).len() > 0,
    decreases s.len(),
{
    if s.len() > 0 {
        lemma_pieces_some(s.drop_last(), sep);
    }
}

proof fn lemma_pieces_of_more(s: Seq<char>, more: Seq<char>, sep: char)
    requires
        !more.contains(sep),
    ensures
        pieces_of(s + more, sep) == pieces_of(s, sep).drop_last().push(
            pieces_of(s, sep).last() + more,
        ),
    decreases more.len(),
{
    lemma_pieces_some(s, sep);
    let p = pieces_of(s, sep);
    if more.len() == 0 {
        assert(s + more =~= s);
        assert(p.last() + more =~= p.last());
        assert(p.drop_last().push(p.last()) =~= p);
    } else {
        let less = more.drop_last();
        assert(!less.contains(sep)) by {
            if less.contains(sep) {
                let i = choose|i: int| 0 <= i < less.len() && less[i] == sep;
                assert(more[i] == sep);
            }
        }
        assert(more.last() != sep) by {
            assert(more[more.len() - 1] == more.last());
        }
        lemma_pieces_of_more(s, less, sep);
        let all = s + more;
        assert(all.drop_last() =~= s + less);
        let q = p.drop_last().push(p.last() + less);
        assert(q.last() == p.last() + less);
        assert(q.drop_last() =~= p.drop_last());
        assert((p.last() + less).push(more.last()) =~= p.last() + more);
    }
}

/// Pieces without the separator are what they are cut into again.
proof fn lemma_joined_and_cut(lines: Seq<Seq<char>>, sep: char)
    requires
        lines.len() > 0,
        forall|k: int| 0 <= k < lines.len() ==> !(#[trigger] lines[k]).contains(sep),
    ensures
        pieces_of(joined_with(lines, seq![sep]), sep) == lines,
    decreases lines.len(),
{
    let all = joined_with(lines, seq![sep]);
    if lines.len() == 1 {
        lemma_pieces_of_more(Seq::empty(), lines[0], sep);
        assert(Seq::empty() + lines[0] =~= lines[0]);
        assert(pieces_of(Seq::empty(), sep).drop_last().push(
            pieces_of(Seq::empty(), sep).last() + lines[0],
        ) =~= lines);
    } else {
        let rest = lines.drop_last();
        lemma_joined_and_cut(rest, sep);
        let head = joined_with(rest, seq![sep]);
        let cut = head.push(sep);
        assert(cut.drop_last() =~= head);
        assert(head + seq![sep] =~= cut);
        assert(pieces_of(cut, sep) == rest.push(Seq::empty()));
        lemma_pieces_of_more(cut, lines.last(), sep);
        assert(all =~= cut + lines.last());
        assert(Seq::<char>::empty() + lines.last() =~= lines.last());
        assert(rest.push(Seq::empty()).drop_last() =~= rest);
        assert(rest.push(lines.last()) =~= lines);
    }
}

/// Lines put together are the text they were cut from.
proof fn lemma_cut_and_joined(s: Seq<char>, sep: char)
    ensures
        joined_with(pieces_of(s, sep), seq![sep]) == s,
    decreases s.len(),
{
    if s.len() > 0 {
        let less = s.drop_last();
        lemma_cut_and_joined(less, sep);
        lemma_pieces_some(less, sep);
        let p = pieces_of(less, sep);
        if s.last() == sep {
            let q = p.push(Seq::empty());
            assert(q.drop_last() =~= p);
            assert(joined_with(p, seq![sep]) + seq![sep] + Seq::<char>::empty() =~= s);
        } else {
            let q = p.drop_last().push(p.last().push(s.last()));
            assert(q.drop_last() =~= p.drop_last());
            if p.len() == 1 {
                assert(joined_with(q, seq![sep]) =~= s);
            } else {
                assert(joined_with(q, seq![sep]) =~= joined_with(p, seq![sep]).push(s.last()));
                assert(s =~= less.push(s.last()));
            }
        }
    }
}

/// Lines that were turned into comments are what they were when they are turned
/// back.
pub proof fn law_lines_are_turned_back(r: Seq<char>)
    requires
        !all_slashed(pieces_of(r, '\n')),
        exists|k: int|
            0 <= k < pieces_of(r, '\n').len() && (#[trigger] pieces_of(r, '\n')[k]).len() > 0,
    ensures
        turned(turned(r)) == r,
{
    reveal_strlit("// ");
    reveal_strlit("//");
    reveal_strlit("\n");
    assert("\n"@ =~= seq!['\n']);
    let lines = pieces_of(r, '\n');
    lemma_pieces_some(r, '\n');
    let out = Seq::new(
        lines.len(),
        |k: int|
            if all_slashed(lines) {
                unslashed(lines[k])
            } else {
                slashed(lines[k])
            },
    );
    assert forall|k: int| 0 <= k < out.len() implies !(#[trigger] out[k]).contains('\n') by {
        lemma_pieces_without(r, '\n', k);
        assert(out[k] == slashed(lines[k]));
        if out[k].contains('\n') {
            let i = choose|i: int| 0 <= i < out[k].len() && out[k][i] == '\n';
            if lines[k].len() > 0 {
                assert(i >= 3 ==> lines[k][i - 3] == '\n');
            } else {
                assert(lines[k][i] == '\n');
            }
        }
    }
    lemma_joined_and_cut(out, '\n');
    assert(turned(r) == joined_with(out, seq!['\n']));
    assert(pieces_of(turned(r), '\n') == out);
    assert forall|k: int| 0 <= k < out.len() implies (#[trigger] out[k]).len() == 0 || stands(
        out[k],
        "//"@,
        0,
    ) by {
        if lines[k].len() > 0 {
            assert(out[k].skip(0) =~= out[k]);
            assert(out[k].subrange(0, 2) =~= "//"@);
        }
    }
    let some = choose|k: int| 0 <= k < lines.len() && (#[trigger] lines[k]).len() > 0;
    assert(out[some].len() > 0);
    assert(all_slashed(out));
    let back = Seq::new(
        out.len(),
        |k: int|
            if all_slashed(out) {
                unslashed(out[k])
            } else {
                slashed(out[k])
            },
    );
    assert forall|k: int| 0 <= k < back.len() implies back[k] == lines[k] by {
        if lines[k].len() > 0 {
            assert(out[k].skip(0) =~= out[k]);
            assert(out[k].subrange(0, 3) =~= "// "@);
            assert(out[k].skip(3) =~= lines[k]);
        } else {
            assert(out[k] == lines[k]);
            assert(out[k].skip(0).len() == 0);
        }
    }
    assert(back =~= lines);
    lemma_cut_and_joined(r, '\n');
}

/// A reading that is written reads back, where neither it nor the text holds
/// the first character of the marks between and after them.
pub proof fn law_a_written_reading_reads_back(d: Dialect, base: Seq<char>, reading: Seq<char>)
    requires
        !base.contains(mark_char(d)),
        !reading.contains(mark_char(d)),
    ensures
        ruby_by(d, written(d, base, reading), 0) matches Some(r) && r.base(
            written(d, base, reading),
        ) == base && r.reading(written(d, base, reading)) == reading && r.end() == written(
            d,
            base,
            reading,
        ).len(),
{
    reveal_strlit("<ruby>");
    reveal_strlit("<rt>");
    reveal_strlit("</rt></ruby>");
    reveal_strlit("#ruby(\"");
    reveal_strlit("\", \"");
    reveal_strlit("\")");
    let s = written(d, base, reading);
    let h = head(d).len() as int;
    let m = h + base.len();
    let e = m + joint(d).len() + reading.len();
    assert(s.skip(0).subrange(0, h) =~= head(d));
    assert(s.skip(m).subrange(0, joint(d).len() as int) =~= joint(d));
    assert(s.skip(e).subrange(0, tail(d).len() as int) =~= tail(d));
    lemma_first_stand(s, joint(d), h, m, mark_char(d));
    lemma_first_stand(s, tail(d), (m + joint(d).len()) as int, e, mark_char(d));
    assert(s.subrange(h, m) =~= base);
    assert(s.subrange((m + joint(d).len()) as int, e) =~= reading);
}

/// The character that the marks between and after a text and its reading begin
/// with.
pub open spec fn mark_char(d: Dialect) -> char {
    match d {
        Dialect::Html => '<',
        Dialect::Typst => '"',
    }
}

proof fn lemma_first_stand(s: Seq<char>, lit: Seq<char>, i: int, at: int, c: char)
    requires
        0 <= i <= at,
        at + lit.len() <= s.len(),
        lit.len() > 0,
        lit[0] == c,
        lit.is_prefix_of(s.skip(at)),
        forall|k: int| i <= k < at ==> s[k] != c,
    ensures
        next_stand(s, lit, i) == Some(at),
    decreases at - i,
{
    if i < at {
        assert(!lit.is_prefix_of(s.skip(i))) by {
            if lit.is_prefix_of(s.skip(i)) {
                assert(s.skip(i).subrange(0, lit.len() as int)[0] == s[i]);
            }
        }
        lemma_first_stand(s, lit, i + 1, at, c);
    }
}

proof fn lemma_place_for(v: Seq<(usize, Seq<char>)>, column: usize, k: int)
    requires
        0 <= k <= v.len(),
    ensures
        k <= place_for(v, column, k) <= v.len(),
        forall|i: int| k <= i < place_for(v, column, k) ==> (#[trigger] v[i]).0 <= column,
        place_for(v, column, k) < v.len() ==> v[place_for(v, column, k)].0 > column,
    decreases v.len() - k,
{
    if k < v.len() && v[k].0 <= column {
        lemma_place_for(v, column, k + 1);
    }
}

/// What is drawn on a line comes in the order of its columns, and all of it
/// comes.
pub proof fn law_drawn_runs_are_in_order(v: Seq<(usize, Seq<char>)>, k: int)
    requires
        0 <= k <= v.len(),
    ensures
        arranged(v, k).len() == k,
        forall|i: int, j: int|
            0 <= i <= j < k ==> (#[trigger] arranged(v, k)[i]).0 <= (#[trigger] arranged(v, k)[j]).0,
        arranged(v, k).to_multiset() == v.take(k).to_multiset(),
    decreases k,
{
    if k > 0 {
        law_drawn_runs_are_in_order(v, k - 1);
        let rest = arranged(v, k - 1);
        let run = v[k - 1];
        let at = place_for(rest, run.0, 0);
        lemma_place_for(rest, run.0, 0);
        let all = rest.insert(at, run);
        assert forall|i: int, j: int| 0 <= i <= j < k implies (#[trigger] all[i]).0 <= (
        #[trigger] all[j]).0 by {
            if i < at {
                assert(all[i] == rest[i]);
            } else if i > at {
                assert(all[i] == rest[i - 1]);
            }
            if j < at {
                assert(all[j] == rest[j]);
            } else if j > at {
                assert(all[j] == rest[j - 1]);
                if at < rest.len() {
                    assert(rest[at].0 <= rest[j - 1].0);
                }
            }
        }
        vstd::seq_lib::to_multiset_insert(rest, at, run);
        assert(v.take(k) =~= v.take(k - 1).push(run));
        v.take(k - 1).to_multiset_ensures();
    } else {
        assert(v.take(0) =~= Seq::empty());
    }
}

} // verus!
