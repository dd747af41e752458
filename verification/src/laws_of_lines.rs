//! What holds of the verbs that work along lines.

use vstd::prelude::*;
use crate::buffer::PointView;
use crate::editor::EditorView;
use crate::laws::law_a_written_number_reads_back;
use crate::laws_of_verbs::{
    far_end, law_a_selection_has_two_ends, near_end, same_besides,
};
use crate::number::{decimal, digit_char, digit_value, digits_value, is_digit, signed_decimal};
use crate::text::{
    lemma_line_around, lemma_line_of_concat, lemma_line_of_monotone, lemma_line_of_prefix,
    lemma_line_start, lemma_line_starts, lemma_same_line, lemma_splice_keeps_lines, lemma_spliced,
    line_count, line_of, line_start, line_text, spliced,
};
use crate::verbs::{
    digit_from, digits_after, digits_before, lemma_spaces_at, number_at, spaces, spaces_at, stepped,
};

verus! {

// ---- Lines of a text that is edited ---------------------------------------

/// A line begins behind a break, or where the text begins.
proof fn lemma_begins_behind_a_break(t: Seq<char>, l: int)
    requires
        0 <= l < line_count(t),
    ensures
        line_start(t, l) > 0 ==> t[line_start(t, l) - 1] == '\n',
{
    lemma_line_start(t, l);
    if line_start(t, l) > 0 {
        assert(line_of(t, line_start(t, l) - 1) < l);
    }
}

/// What begins behind a break, or where the text begins, is a line.
proof fn lemma_is_line_start(t: Seq<char>, l: int, p: int)
    requires
        0 <= p <= t.len(),
        line_of(t, p) == l,
        p > 0 ==> t[p - 1] == '\n',
    ensures
        line_start(t, l) == p,
{
    lemma_line_around(t, p);
    lemma_line_start(t, l);
    if line_start(t, l) < p {
        lemma_line_of_monotone(t, line_start(t, l), p - 1);
    }
}

/// The lines behind a splice are as far from it as they were.
proof fn lemma_lines_behind(t: Seq<char>, a: int, b: int, s: Seq<char>, i: int)
    requires
        0 <= a <= b <= i <= t.len(),
        forall|k: int| a <= k < b ==> t[k] != '\n',
        forall|k: int| 0 <= k < s.len() ==> s[k] != '\n',
    ensures
        line_of(spliced(t, a, b, s), i - (b - a) + s.len()) == line_of(t, i),
{
    let head = t.take(a);
    let tail = t.skip(b);
    lemma_line_of_concat(head + s, tail, i - b);
    lemma_line_of_concat(head, s, s.len() as int);
    lemma_same_line(s, 0, s.len() as int);
    assert(t =~= t.take(b) + tail);
    lemma_line_of_concat(t.take(b), tail, i - b);
    lemma_same_line(t, a, b);
    lemma_line_of_prefix(t, head, a);
    lemma_line_of_prefix(t, t.take(b), b);
}

/// Where a line begins once a line was spliced within itself.
proof fn lemma_splice_moves_lines(t: Seq<char>, l: int, a: int, b: int, s: Seq<char>, m: int)
    requires
        0 <= a <= b <= t.len(),
        line_of(t, a) == l,
        forall|k: int| a <= k < b ==> t[k] != '\n',
        forall|k: int| 0 <= k < s.len() ==> s[k] != '\n',
        0 <= m,
    ensures
        line_start(spliced(t, a, b, s), m) == line_start(t, m) + if m <= l {
            0
        } else {
            s.len() - (b - a)
        },
        m <= l ==> line_start(t, m) <= a,
        m > l ==> line_start(t, m) >= b,
{
    let u = spliced(t, a, b, s);
    let p = line_start(t, m);
    lemma_spliced(t, a, b, s);
    lemma_splice_keeps_lines(t, a, b, s);
    lemma_line_start(t, m);
    lemma_line_start(u, m);
    lemma_line_around(t, a);
    lemma_same_line(t, a, b);
    if m <= l {
        lemma_line_starts(t, m, l);
        lemma_begins_behind_a_break(t, m);
        assert forall|k: int| 0 <= k < p implies u[k] == t[k] by {}
        lemma_line_of_prefix(u, t, p);
        lemma_is_line_start(u, m, p);
    } else if m < line_count(t) {
        if p < b {
            lemma_line_of_monotone(t, p, b);
        }
        lemma_begins_behind_a_break(t, m);
        lemma_lines_behind(t, a, b, s, p);
        let q = p - (b - a) + s.len();
        assert(p > b);
        assert(u[q - 1] == t[p - 1]);
        lemma_is_line_start(u, m, q);
    }
}

/// A splice within line `l` changes that line and no other.
pub proof fn lemma_splice_in_line(t: Seq<char>, l: int, a: int, b: int, s: Seq<char>, m: int)
    requires
        0 <= a <= b <= t.len(),
        line_of(t, a) == l,
        forall|k: int| a <= k < b ==> t[k] != '\n',
        forall|k: int| 0 <= k < s.len() ==> s[k] != '\n',
        0 <= m,
    ensures
        line_count(spliced(t, a, b, s)) == line_count(t),
        line_start(spliced(t, a, b, s), l) == line_start(t, l),
        line_start(t, l) <= a <= b <= line_start(t, l + 1) <= t.len(),
        line_text(spliced(t, a, b, s), m) == if m == l {
            spliced(line_text(t, l), a - line_start(t, l), b - line_start(t, l), s)
        } else {
            line_text(t, m)
        },
{
    let u = spliced(t, a, b, s);
    lemma_spliced(t, a, b, s);
    lemma_splice_keeps_lines(t, a, b, s);
    lemma_line_around(t, a);
    lemma_splice_moves_lines(t, l, a, b, s, l);
    lemma_splice_moves_lines(t, l, a, b, s, l + 1);
    lemma_splice_moves_lines(t, l, a, b, s, m);
    lemma_splice_moves_lines(t, l, a, b, s, m + 1);
    lemma_line_starts(t, m, m + 1);
    lemma_line_starts(t, l, l + 1);
    if m == l {
        assert(line_text(u, l) =~= spliced(
            line_text(t, l),
            a - line_start(t, l),
            b - line_start(t, l),
            s,
        ));
    } else if m < l {
        assert(forall|k: int| 0 <= k < a ==> u[k] == t[k]);
        assert(line_text(u, m) =~= line_text(t, m));
    } else {
        let by = s.len() - (b - a);
        assert(forall|k: int| b <= k < t.len() ==> u[k + by] == #[trigger] t[k]);
        assert forall|k: int| 0 <= k < line_text(t, m).len() implies line_text(u, m)[k]
            == line_text(t, m)[k] by {
            assert(line_text(t, m)[k] == t[line_start(t, m) + k]);
        }
        assert(line_text(u, m) =~= line_text(t, m));
    }
}

/// Where the lines are the same, they begin at the same places.
proof fn lemma_same_starts(t: Seq<char>, u: Seq<char>, m: int)
    requires
        0 <= m <= line_count(t),
        line_count(t) == line_count(u),
        forall|k: int| 0 <= k < line_count(t) ==> #[trigger] line_text(t, k) == line_text(u, k),
    ensures
        line_start(t, m) == line_start(u, m),
    decreases m,
{
    lemma_line_start(t, 0);
    lemma_line_start(u, 0);
    if m > 0 {
        lemma_same_starts(t, u, m - 1);
        lemma_line_starts(t, m - 1, m);
        lemma_line_starts(u, m - 1, m);
        assert(line_text(t, m - 1) == line_text(u, m - 1));
        assert(line_text(t, m - 1).len() == line_start(t, m) - line_start(t, m - 1));
        assert(line_text(u, m - 1).len() == line_start(u, m) - line_start(u, m - 1));
    } else {
        assert(line_of(t, 0) == 0 && line_of(u, 0) == 0);
        lemma_is_line_start(t, 0, 0);
        lemma_is_line_start(u, 0, 0);
    }
}

/// A text is the lines it has.
pub proof fn lemma_same_lines(t: Seq<char>, u: Seq<char>)
    requires
        line_count(t) == line_count(u),
        forall|k: int| 0 <= k < line_count(t) ==> #[trigger] line_text(t, k) == line_text(u, k),
    ensures
        t == u,
{
    let n = line_count(t);
    lemma_line_of_monotone(t, 0, t.len() as int);
    lemma_same_starts(t, u, n);
    lemma_line_start(t, n);
    lemma_line_start(u, n);
    assert forall|i: int| 0 <= i < t.len() implies t[i] == u[i] by {
        let l = line_of(t, i);
        lemma_line_around(t, i);
        lemma_same_starts(t, u, l);
        lemma_same_starts(t, u, l + 1);
        let at = i - line_start(t, l);
        assert(line_text(t, l)[at] == t[i]);
        assert(line_text(u, l)[at] == u[i]);
    }
    assert(t =~= u);
}

// ---- Indentation ----------------------------------------------------------

/// A line one level further in, or out: `w` spaces more, or as many of the
/// spaces before it less.
pub open spec fn indented(line: Seq<char>, add: bool, w: int) -> Seq<char> {
    if add {
        spaces(w) + line
    } else {
        line.skip(spaces_at(line, 0, w))
    }
}

/// The spaces that a line begins with are on the line.
proof fn lemma_spaces_on_line(t: Seq<char>, at: int, end: int, i: int, limit: int)
    requires
        0 <= at <= end <= t.len(),
        0 <= i <= end - at,
        i < end - at || end == t.len(),
        end < t.len() ==> end > at && t[end - 1] == '\n',
    ensures
        spaces_at(t, at + i, limit) == spaces_at(t.subrange(at, end), i, limit),
    decreases limit,
{
    if limit > 0 && i < end - at && t[at + i] == ' ' {
        lemma_spaces_on_line(t, at, end, i + 1, limit - 1);
    }
}

proof fn lemma_spaces_are_found(line: Seq<char>, w: int, i: int)
    requires
        0 <= i <= w,
    ensures
        spaces_at(spaces(w) + line, i, w - i) == w - i,
    decreases w - i,
{
    if i < w {
        lemma_spaces_are_found(line, w, i + 1);
    }
}

/// A line that was put one level further in is what it was when it is put one
/// level further out.
proof fn lemma_indented_and_back(line: Seq<char>, w: int)
    requires
        0 <= w,
    ensures
        indented(indented(line, true, w), false, w) == line,
{
    lemma_spaces_are_found(line, w, 0);
    assert((spaces(w) + line).skip(w) =~= line);
}

proof fn lemma_indenting_line(v: EditorView, add: bool, l: int, m: int)
    requires
        0 <= v.active < v.buffers.len(),
        !v.buffer().readonly,
        0 <= l < line_count(v.text()),
        0 <= m,
    ensures
        ({
            let w = v.indenting_line(add, l);
            &&& 0 <= w.active < w.buffers.len()
            &&& !w.buffer().readonly
            &&& w.settings == v.settings
            &&& line_count(w.text()) == line_count(v.text())
            &&& line_text(w.text(), m) == if m == l {
                indented(line_text(v.text(), l), add, v.settings.indent_width as int)
            } else {
                line_text(v.text(), m)
            }
        }),
{
    let t = v.text();
    let width = v.settings.indent_width as int;
    let at = line_start(t, l);
    let end = line_start(t, l + 1);
    let line = line_text(t, l);
    lemma_line_start(t, l);
    lemma_line_start(t, l + 1);
    lemma_line_starts(t, l, l + 1);
    if add {
        let pad = spaces(width);
        lemma_splice_in_line(t, l, at, at, pad, m);
        assert(spliced(line, 0, 0, pad) =~= pad + line);
        assert(spliced(t, at, at, Seq::empty()) =~= t);
        if width == 0 {
            assert(pad =~= Seq::empty());
            assert(pad + line =~= line);
        }
    } else {
        if end < t.len() {
            lemma_begins_behind_a_break(t, l + 1);
            assert(line_of(t, end) == l + 1);
        }
        lemma_spaces_on_line(t, at, end, 0, width);
        lemma_spaces_at(t, at, width);
        let n = spaces_at(t, at, width);
        lemma_splice_in_line(t, l, at, at + n, Seq::empty(), m);
        assert(spliced(line, 0, n, Seq::empty()) =~= line.skip(n));
        if n == 0 {
            assert(line.skip(0) =~= line);
        }
    }
}

proof fn lemma_indenting_lines(v: EditorView, add: bool, first: int, last: int, m: int)
    requires
        0 <= v.active < v.buffers.len(),
        !v.buffer().readonly,
        0 <= first,
        last < line_count(v.text()),
        0 <= m,
    ensures
        ({
            let w = v.indenting_lines(add, first, last);
            &&& 0 <= w.active < w.buffers.len()
            &&& !w.buffer().readonly
            &&& w.settings == v.settings
            &&& line_count(w.text()) == line_count(v.text())
            &&& line_text(w.text(), m) == if first <= m <= last {
                indented(line_text(v.text(), m), add, v.settings.indent_width as int)
            } else {
                line_text(v.text(), m)
            }
        }),
    decreases last - first + 1,
{
    if first <= last {
        lemma_indenting_line(v, add, last, m);
        lemma_indenting_lines(v.indenting_line(add, last), add, first, last - 1, m);
    }
}

/// Every line that the selection touches goes one level in, or out, blank ones
/// too: it gets the spaces of one level, or loses as many as it begins with, up
/// to that many. The other lines, and how many there are, stay.
pub proof fn law_indenting_is_of_the_lines_touched(v: EditorView, add: bool, m: int)
    requires
        v.wf(),
        !v.buffer().readonly,
        0 <= m < line_count(v.text()),
    ensures
        line_count(v.indenting(add).text()) == line_count(v.text()),
        line_text(v.indenting(add).text(), m) == if v.first_selected_line() <= m
            <= v.last_selected_line() {
            indented(line_text(v.text(), m), add, v.settings.indent_width as int)
        } else {
            line_text(v.text(), m)
        },
{
    reveal(EditorView::indenting);
    lemma_touched_lines(v);
    lemma_indenting_lines(
        v.announcing(),
        add,
        v.first_selected_line(),
        v.last_selected_line(),
        m,
    );
}

proof fn lemma_touched_lines(v: EditorView)
    requires
        v.wf(),
    ensures
        0 <= v.first_selected_line() <= v.last_selected_line() < line_count(v.text()),
{
    let t = v.text();
    crate::laws::law_a_selection_covers_the_cursor(v);
    let at = crate::editor::most(v.selection_end() - 1, v.selection_start());
    lemma_line_around(t, v.selection_start());
    lemma_line_around(t, at);
    lemma_line_of_monotone(t, v.selection_start(), at);
}

/// Lines that were put one level further in are what they were when the same
/// lines are put one level further out.
pub proof fn law_indenting_is_undone_by_unindenting(v: EditorView, first: int, last: int)
    requires
        v.sound(),
        !v.buffer().readonly,
        0 <= first,
        last < line_count(v.text()),
    ensures
        v.indenting_lines(true, first, last).indenting_lines(false, first, last).text()
            == v.text(),
{
    let w = v.indenting_lines(true, first, last);
    let back = w.indenting_lines(false, first, last);
    let width = v.settings.indent_width as int;
    lemma_indenting_lines(v, true, first, last, 0);
    lemma_indenting_lines(w, false, first, last, 0);
    assert forall|m: int| 0 <= m < line_count(back.text()) implies #[trigger] line_text(
        back.text(),
        m,
    ) == line_text(v.text(), m) by {
        lemma_indenting_lines(v, true, first, last, m);
        lemma_indenting_lines(w, false, first, last, m);
        lemma_indented_and_back(line_text(v.text(), m), width);
    }
    lemma_same_lines(back.text(), v.text());
}

/// The line that `m` must not be below to be touched by the selection, and the
/// one that it must not be above: those of its first and of its last character.
pub open spec fn touches(v: EditorView, m: int) -> bool {
    let last = if far_end(v) - 1 > near_end(v) {
        far_end(v) - 1
    } else {
        near_end(v)
    };
    line_of(v.text(), near_end(v)) <= m <= line_of(v.text(), last)
}

proof fn lemma_count_spaces(line: Seq<char>, i: int, w: int, k: int)
    requires
        0 <= i,
        0 <= k <= w,
        i + k <= line.len(),
        forall|j: int| i <= j < i + k ==> line[j] == ' ',
        k == w || i + k == line.len() || line[i + k] != ' ',
    ensures
        spaces_at(line, i, w) == k,
    decreases k,
{
    if k > 0 {
        lemma_count_spaces(line, i + 1, w - 1, k - 1);
    }
}

/// One level is as many spaces as the setting says. Every line that the
/// selection touches gets them in front, blank ones too, or loses the `k` that it
/// begins with, up to that many: no tab and no other space. The other lines, and
/// how many there are, stay; so do the ends of the selection, as far as the text
/// goes.
pub proof fn law_a_level_is_so_many_spaces(v: EditorView, m: int, k: int)
    requires
        v.wf(),
        !v.buffer().readonly,
        0 <= m < line_count(v.text()),
        ({
            let line = line_text(v.text(), m);
            let w = v.settings.indent_width as int;
            &&& 0 <= k <= w
            &&& k <= line.len()
            &&& forall|j: int| 0 <= j < k ==> line[j] == ' '
            &&& k == w || k == line.len() || line[k] != ' '
        }),
    ensures
        ({
            let line = line_text(v.text(), m);
            let (u, x) = (v.indenting(true), v.indenting(false));
            let pad = Seq::new(v.settings.indent_width as nat, |i: int| ' ');
            &&& line_count(u.text()) == line_count(v.text())
            &&& line_count(x.text()) == line_count(v.text())
            &&& touches(v, m) ==> line_text(u.text(), m) == pad + line && line_text(x.text(), m)
                == line.skip(k)
            &&& !touches(v, m) ==> line_text(u.text(), m) == line && line_text(x.text(), m)
                == line
        }),
        stays_put(v, v.indenting(true)),
        stays_put(v, v.indenting(false)),
{
    let line = line_text(v.text(), m);
    let w = v.settings.indent_width as int;
    law_a_selection_has_two_ends(v);
    law_indenting_is_of_the_lines_touched(v, true, m);
    law_indenting_is_of_the_lines_touched(v, false, m);
    lemma_count_spaces(line, 0, w, k);
    assert(spaces(w) =~= Seq::new(v.settings.indent_width as nat, |i: int| ' '));
    lemma_indenting_stays_put(v, true);
    lemma_indenting_stays_put(v, false);
}

/// Whether the ends of the selection are where they were, as far as the text
/// goes, and nothing but the text on the page is different.
pub open spec fn stays_put(v: EditorView, w: EditorView) -> bool {
    let n = w.text().len() as int;
    &&& same_besides(v, w)
    &&& w.registers == v.registers
    &&& w.status == v.status
    &&& w.goal_column == v.goal_column
    &&& w.cursor == if v.cursor < n {
        v.cursor
    } else {
        n
    }
    &&& w.anchor == if v.anchor < n {
        v.anchor
    } else {
        n
    }
}

/// How far the edits of an indentation have come that was announced in `v`: none
/// is done, or what there was is the last point.
spec fn is_under_way(v: EditorView, w: EditorView) -> bool {
    &&& same_besides(v, w)
    &&& w.registers == v.registers
    &&& w.status == v.status
    &&& w.goal_column == v.goal_column
    &&& w.cursor == v.cursor
    &&& w.anchor == v.anchor
    &&& !v.buffer().grouped ==> ({
        ||| w.buffers == v.announcing().buffers
        ||| w.buffer().announced is None && w.buffer().past == v.buffer().past.push(
            PointView { text: v.text(), at: v.cursor },
        )
    })
}

proof fn lemma_lines_under_way(v: EditorView, w: EditorView, add: bool, first: int, last: int)
    requires
        v.wf(),
        !v.buffer().readonly,
        is_under_way(v, w),
    ensures
        is_under_way(v, w.indenting_lines(add, first, last)),
    decreases last - first + 1,
{
    if first <= last {
        let x = w.indenting_line(add, last);
        if x.buffer() == w.buffer() {
            assert(x.buffers =~= w.buffers);
        } else if w.buffers == v.announcing().buffers {
            assert(w.text() == v.text());
        }
        assert(same_besides(v, x));
        assert(is_under_way(v, x));
        lemma_lines_under_way(v, x, add, first, last - 1);
    }
}

proof fn lemma_indenting_stays_put(v: EditorView, add: bool)
    requires
        v.wf(),
        !v.buffer().readonly,
    ensures
        stays_put(v, v.indenting(add)),
        !v.buffer().grouped && v.indenting(add).text() != v.text() ==> v.indenting(
            add,
        ).buffer().past == v.buffer().past.push(PointView { text: v.text(), at: v.cursor }),
{
    reveal(EditorView::indenting);
    let (first, last) = (v.first_selected_line(), v.last_selected_line());
    assert(is_under_way(v, v.announcing()));
    lemma_lines_under_way(v, v.announcing(), add, first, last);
    assert(v.announcing().text() == v.text());
}

/// However many lines are put in or out, one undo puts them back.
pub proof fn law_indenting_is_one_undo_point(v: EditorView, add: bool)
    requires
        v.wf(),
        !v.buffer().readonly,
        !v.buffer().grouped,
        v.indenting(add).text() != v.text(),
    ensures
        v.indenting(add).undone().text() == v.text(),
        v.indenting(add).undone().cursor == v.cursor,
{
    reveal(EditorView::undone);
    lemma_indenting_stays_put(v, add);
}

// ---- Numbers --------------------------------------------------------------

/// Whether these are digits as a number is written: no zero before the others.
pub open spec fn is_plain(s: Seq<char>) -> bool {
    &&& s.len() > 0
    &&& forall|k: int| 0 <= k < s.len() ==> is_digit(#[trigger] s[k])
    &&& s[0] == '0' ==> s.len() == 1
}

/// Digits are what their worth is written as.
proof fn lemma_plain_digits(s: Seq<char>)
    requires
        is_plain(s),
    ensures
        decimal(digits_value(s)) == s,
    decreases s.len(),
{
    let d = digit_value(s.last());
    let rest = s.drop_last();
    assert(is_digit(s[s.len() - 1]));
    assert(digit_char(d) == s.last());
    if s.len() == 1 {
        assert(digits_value(rest) == 0);
        assert(decimal(digits_value(s)) =~= s);
    } else {
        assert forall|k: int| 0 <= k < rest.len() implies is_digit(#[trigger] rest[k]) by {
            assert(rest[k] == s[k]);
        }
        assert(rest[0] == s[0]);
        lemma_plain_digits(rest);
        if digits_value(rest) == 0 {
            assert(decimal(0)[0] == '0');
        }
        let n = digits_value(s);
        assert(n / 10 == digits_value(rest) && n % 10 == d);
        assert(decimal(n) =~= s);
    }
}

/// A number is written in plain digits.
proof fn lemma_decimal_is_plain(n: nat)
    ensures
        is_plain(decimal(n)),
        n > 0 ==> decimal(n)[0] != '0',
    decreases n,
{
    if n >= 10 {
        lemma_decimal_is_plain(n / 10);
        assert(decimal(n)[0] == decimal(n / 10)[0]);
        assert forall|k: int| 0 <= k < decimal(n).len() implies is_digit(
            #[trigger] decimal(n)[k],
        ) by {
            if k < decimal(n / 10).len() {
                assert(decimal(n)[k] == decimal(n / 10)[k]);
            }
        }
    }
}

proof fn lemma_digit_from(line: Seq<char>, i: int)
    requires
        0 <= i <= line.len(),
    ensures
        i <= digit_from(line, i) <= line.len(),
        digit_from(line, i) < line.len() ==> is_digit(line[digit_from(line, i)]),
    decreases line.len() - i,
{
    if i < line.len() && !is_digit(line[i]) {
        lemma_digit_from(line, i + 1);
    }
}

proof fn lemma_digits_before(line: Seq<char>, i: int)
    requires
        0 <= i <= line.len(),
    ensures
        0 <= digits_before(line, i) <= i,
        digits_before(line, i) > 0 ==> !is_digit(line[digits_before(line, i) - 1]),
        forall|k: int| digits_before(line, i) <= k < i ==> is_digit(#[trigger] line[k]),
    decreases i,
{
    if i > 0 && is_digit(line[i - 1]) {
        lemma_digits_before(line, i - 1);
    }
}

proof fn lemma_digits_after(line: Seq<char>, i: int)
    requires
        0 <= i <= line.len(),
    ensures
        i <= digits_after(line, i) <= line.len(),
        digits_after(line, i) < line.len() ==> !is_digit(line[digits_after(line, i)]),
        forall|k: int| i <= k < digits_after(line, i) ==> is_digit(#[trigger] line[k]),
    decreases line.len() - i,
{
    if i < line.len() && is_digit(line[i]) {
        lemma_digits_after(line, i + 1);
    }
}

proof fn lemma_digits_end(line: Seq<char>, i: int, end: int)
    requires
        0 <= i <= end <= line.len(),
        forall|k: int| i <= k < end ==> is_digit(#[trigger] line[k]),
        end < line.len() ==> !is_digit(line[end]),
    ensures
        digits_after(line, i) == end,
    decreases end - i,
{
    if i < end {
        lemma_digits_end(line, i + 1, end);
    }
}

/// A number that was written in the place of another is found there.
proof fn lemma_written_number_is_found(line: Seq<char>, first: int, end: int, next: i64)
    requires
        0 <= first < end <= line.len(),
        first > 0 ==> !is_digit(line[first - 1]) && line[first - 1] != '-',
        end < line.len() ==> !is_digit(line[end]),
    ensures
        ({
            let s = signed_decimal(next as int);
            let line2 = spliced(line, first, end, s);
            number_at(line2, first) matches Some(m) && m.value == next && m.start(line2) == first
                && m.end == first + s.len() && !m.padded(line2)
        }),
        forall|k: int|
            0 <= k < signed_decimal(next as int).len() ==> signed_decimal(next as int)[k] != '\n',
        signed_decimal(next as int).len() > 0,
{
    let s = signed_decimal(next as int);
    let line2 = spliced(line, first, end, s);
    let m = if next < 0 {
        (-next) as nat
    } else {
        next as nat
    };
    let digits = decimal(m);
    lemma_decimal_is_plain(m);
    let sign = s.len() - digits.len();
    let first2 = first + sign;
    let end2 = first + s.len();
    assert forall|k: int| 0 <= k < digits.len() implies #[trigger] s[sign + k] == digits[k] by {}
    assert forall|k: int| 0 <= k < s.len() implies s[k] != '\n' by {
        if k >= sign {
            assert(s[sign + (k - sign)] == digits[k - sign]);
            assert(is_digit(digits[k - sign]));
        }
    }
    assert(line2.subrange(first, end2) =~= s);
    assert forall|k: int| first2 <= k < end2 implies is_digit(#[trigger] line2[k]) by {
        assert(line2[k] == s[sign + (k - first2)]);
        assert(is_digit(digits[k - first2]));
    }
    assert(line2[first] == s[0]);
    assert(line2[first2] == digits[0]) by {
        assert(line2[first2] == s[sign + 0]);
    }
    if first > 0 {
        assert(line2[first - 1] == line[first - 1]);
    }
    assert(end2 < line2.len() ==> line2[end2] == line[end]);
    assert(digit_from(line2, first) == first2) by {
        assert(is_digit(line2[first2]));
        reveal_with_fuel(digit_from, 2);
    }
    assert(digits_before(line2, first2) == first2);
    lemma_digits_end(line2, first2, end2);
    law_a_written_number_reads_back(next, 0);
}

/// A number that is found is a run of digits.
proof fn lemma_number_at(line: Seq<char>, col: int)
    requires
        0 <= col <= line.len(),
        number_at(line, col) is Some,
    ensures
        ({
            let n = number_at(line, col)->0;
            &&& 0 <= n.first < n.end <= line.len()
            &&& n.first > 0 ==> !is_digit(line[n.first - 1])
            &&& n.end < line.len() ==> !is_digit(line[n.end])
            &&& forall|k: int| n.first <= k < n.end ==> is_digit(#[trigger] line[k])
        }),
{
    let d = digit_from(line, col);
    let n = number_at(line, col)->0;
    lemma_digit_from(line, col);
    lemma_digits_before(line, d);
    lemma_digits_after(line, n.first);
    if n.end <= n.first {
        assert(is_digit(line[n.first]));
    }
}

/// What a step does to a number that is not filled up with zeros.
proof fn lemma_bumped(v: EditorView, delta: i64)
    requires
        0 <= v.active < v.buffers.len(),
        !v.buffer().readonly,
        v.number_here() matches Some(n) && ({
            let line = line_text(v.text(), v.cursor_line());
            let base = line_start(v.text(), v.cursor_line());
            &&& !n.padded(line)
            &&& 0 <= base + n.start(line) <= base + n.end <= v.text().len()
            &&& 0 < signed_decimal(stepped(n.value, delta)).len()
        }),
    ensures
        ({
            let n = v.number_here()->0;
            let line = line_text(v.text(), v.cursor_line());
            let base = line_start(v.text(), v.cursor_line());
            let at = base + n.start(line);
            let w = v.bumping(delta);
            &&& w.text() == spliced(
                v.text(),
                at,
                base + n.end,
                signed_decimal(stepped(n.value, delta)),
            )
            &&& w.cursor == at
            &&& w.active == v.active
            &&& w.buffers.len() == v.buffers.len()
            &&& !w.buffer().readonly
        }),
{
    reveal(EditorView::bumping);
    let n = v.number_here()->0;
    let line = line_text(v.text(), v.cursor_line());
    let base = line_start(v.text(), v.cursor_line());
    lemma_spliced(
        v.text(),
        base + n.start(line),
        base + n.end,
        signed_decimal(stepped(n.value, delta)),
    );
}

/// A step and the step back give the text that there was: of a number without a
/// `-` before it, written without zeros before it, where the step stays within
/// an `i64`.
#[verifier::spinoff_prover]
#[verifier::rlimit(40)]
pub proof fn law_a_step_is_undone_by_the_step_back(v: EditorView, delta: i64)
    requires
        v.wf(),
        !v.buffer().readonly,
        delta != i64::MIN,
        v.number_here() matches Some(n) && ({
            let line = line_text(v.text(), v.cursor_line());
            &&& n.start(line) == n.first
            &&& line[n.first] == '0' ==> n.end == n.first + 1
            &&& i64::MIN <= n.value + delta <= i64::MAX
        }),
    ensures
        v.bumping(delta).bumping((-delta) as i64).text() == v.text(),
{
    let t = v.text();
    let l = v.cursor_line();
    let base = line_start(t, l);
    let line = line_text(t, l);
    let n = v.number_here()->0;
    lemma_line_around(t, v.cursor);
    lemma_line_start(t, l);
    lemma_line_start(t, l + 1);
    lemma_number_at(line, v.cursor - base);
    let digits = line.subrange(n.first, n.end);
    assert(is_plain(digits)) by {
        assert(digits[0] == line[n.first]);
        assert forall|k: int| 0 <= k < digits.len() implies is_digit(#[trigger] digits[k]) by {
            assert(digits[k] == line[n.first + k]);
        }
    }
    lemma_plain_digits(digits);
    assert(n.value == digits_value(digits)) by {
        assert(is_digit(digits[0]));
    }
    let next = (n.value + delta) as i64;
    let s = signed_decimal(next as int);
    let at = base + n.first;
    let u = spliced(t, at, base + n.end, s);
    lemma_written_number_is_found(line, n.first, n.end, next);
    lemma_spliced(t, at, base + n.end, s);
    let w = v.bumping(delta);
    lemma_bumped(v, delta);
    assert forall|k: int| at <= k < base + n.end implies t[k] != '\n' by {
        assert(t[k] == line[k - base]);
        assert(is_digit(line[k - base]));
    }
    lemma_stays_on_line(t, l, at);
    lemma_splice_in_line(t, l, at, base + n.end, s, l);
    lemma_line_of_prefix(u, t, at);
    let line2 = spliced(line, n.first, n.end, s);
    assert(line_text(u, l) == line2);
    assert(w.number_here() == number_at(line2, n.first));
    let m = w.number_here()->0;
    assert(stepped(m.value, (-delta) as i64) == n.value);
    let back = w.bumping((-delta) as i64);
    assert(signed_decimal(n.value as int) == digits);
    lemma_bumped(w, (-delta) as i64);
    assert(back.text() == spliced(u, at, at + s.len(), digits));
    assert(spliced(u, at, at + s.len(), digits) =~= t);
}

/// A position before the end of line `l`, and not before its beginning, is on
/// it.
proof fn lemma_stays_on_line(t: Seq<char>, l: int, i: int)
    requires
        0 <= l,
        line_start(t, l) <= i < line_start(t, l + 1),
    ensures
        line_of(t, i) == l,
{
    lemma_line_start(t, l);
    lemma_line_start(t, l + 1);
    lemma_line_of_monotone(t, line_start(t, l), i);
    assert(line_of(t, i) < l + 1);
}

} // verus!
