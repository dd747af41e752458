//! What stepping a number is for: what stands there afterwards is the number
//! that there was and the step, written as the number was written.

use vstd::prelude::*;
use vstd::arithmetic::power::{lemma_pow_increases, lemma_pow_positive, pow};
use crate::editor::EditorView;
use crate::laws::{lemma_decimal, lemma_zeros_are_worth_nothing};
use crate::laws_of_verbs::is_edit;
use crate::number::{decimal, digits_value, is_digit, padded_decimal, signed_decimal, zeros};
use crate::text::{
    lemma_line_around, lemma_line_of_monotone, lemma_line_start, lemma_same_line, lemma_spliced,
    line_of, line_start, line_text, spliced,
};
use crate::verbs::{digit_from, digits_after, digits_before, stepped, Written};

verus! {

/// Whether `c` is one of `0` to `9`.
pub open spec fn is_numeral(c: char) -> bool {
    c == '0' || c == '1' || c == '2' || c == '3' || c == '4' || c == '5' || c == '6' || c == '7'
        || c == '8' || c == '9'
}

/// Whether all of these are numerals, and there is one.
pub open spec fn are_numerals(s: Seq<char>) -> bool {
    s.len() > 0 && forall|k: int| 0 <= k < s.len() ==> is_numeral(#[trigger] s[k])
}

/// What numerals are worth by their places: the first of `n + 1` counts by the
/// `n`th power of ten.
pub open spec fn worth(s: Seq<char>) -> int
    decreases s.len(),
{
    if s.len() == 0 {
        0
    } else {
        (s[0] as int - '0' as int) * pow(10, (s.len() - 1) as nat) + worth(s.skip(1))
    }
}

/// Whether `x` is the number `n` in writing: the sign `-` where it is less than
/// none, and numerals worth it.
pub open spec fn reads(x: Seq<char>, n: int) -> bool {
    if n < 0 {
        x.len() > 0 && x[0] == '-' && are_numerals(x.skip(1)) && worth(x.skip(1)) == -n
    } else {
        are_numerals(x) && worth(x) == n
    }
}

/// The numerals of the number `n` in writing.
pub open spec fn numerals(x: Seq<char>, n: int) -> Seq<char> {
    if n < 0 {
        x.skip(1)
    } else {
        x
    }
}

/// Whether the numerals of a number are `a..b` of the text: all of a run.
pub open spec fn is_run(t: Seq<char>, a: int, b: int) -> bool {
    &&& 0 <= a < b <= t.len()
    &&& forall|k: int| a <= k < b ==> is_numeral(#[trigger] t[k])
    &&& a > 0 ==> !is_numeral(t[a - 1])
    &&& b < t.len() ==> !is_numeral(t[b])
}

/// Whether the run `a..b` is the one at the cursor, or the next one along its
/// line.
pub open spec fn is_next_run(v: EditorView, a: int, b: int) -> bool {
    &&& is_run(v.text(), a, b)
    &&& v.cursor < b
    &&& forall|k: int|
        v.cursor <= k < a ==> !is_numeral(#[trigger] v.text()[k]) && v.text()[k] != '\n'
}

/// Whether a `-` stands before the run that begins at `a`.
pub open spec fn is_below_none(t: Seq<char>, a: int) -> bool {
    a > 0 && t[a - 1] == '-'
}

/// Where a number begins whose numerals begin at `a`: the `-` is part of it.
pub open spec fn begins(t: Seq<char>, a: int) -> int {
    if is_below_none(t, a) {
        a - 1
    } else {
        a
    }
}

/// The number whose numerals are `a..b` of the text.
pub open spec fn number_of(t: Seq<char>, a: int, b: int) -> int {
    if is_below_none(t, a) {
        -worth(t.subrange(a, b))
    } else {
        worth(t.subrange(a, b))
    }
}

/// Whether the numerals `a..b` were filled up with zeros.
pub open spec fn is_filled_up(t: Seq<char>, a: int, b: int) -> bool {
    t[a] == '0' && b - a > 1
}

/// `n`, or the least or the greatest number that an `i64` is where `n` is beyond
/// them.
pub open spec fn within(n: int) -> int {
    if n < -0x8000_0000_0000_0000 {
        -0x8000_0000_0000_0000
    } else if n > 0x7fff_ffff_ffff_ffff {
        0x7fff_ffff_ffff_ffff
    } else {
        n
    }
}

/// Numerals with one more at the end are worth ten times as much and that one.
proof fn lemma_worth_of_last(s: Seq<char>)
    requires
        s.len() > 0,
    ensures
        worth(s) == 10 * worth(s.drop_last()) + (s.last() as int - '0' as int),
    decreases s.len(),
{
    let d = s.last() as int - '0' as int;
    reveal(pow);
    if s.len() == 1 {
        assert(s.skip(1).len() == 0);
        assert(pow(10, 0) == 1);
        assert(worth(s.skip(1)) == 0);
        assert(worth(s.drop_last()) == 0);
        assert(s[0] == s.last());
        assert((s[0] as int - '0' as int) * 1 == d);
    } else {
        let rest = s.skip(1);
        lemma_worth_of_last(rest);
        assert(rest.drop_last() =~= s.drop_last().skip(1));
        let f = s[0] as int - '0' as int;
        let p = pow(10, (s.len() - 2) as nat);
        assert(pow(10, (s.len() - 1) as nat) == 10 * p);
        assert(s.drop_last()[0] == s[0]);
        assert(worth(s.drop_last()) == f * p + worth(rest.drop_last()));
        assert(f * (10 * p) == 10 * (f * p)) by (nonlinear_arith);
    }
}

/// What digits are worth, counted either way.
proof fn lemma_worth(s: Seq<char>)
    requires
        forall|k: int| 0 <= k < s.len() ==> is_numeral(#[trigger] s[k]),
    ensures
        worth(s) == digits_value(s),
    decreases s.len(),
{
    if s.len() > 0 {
        lemma_worth_of_last(s);
        assert forall|k: int| 0 <= k < s.drop_last().len() implies is_numeral(
            #[trigger] s.drop_last()[k],
        ) by {
            assert(s.drop_last()[k] == s[k]);
        }
        lemma_worth(s.drop_last());
        assert(is_numeral(s[s.len() - 1]));
    }
}

proof fn lemma_written_decimal(m: nat)
    ensures
        are_numerals(decimal(m)),
        worth(decimal(m)) == m,
        decimal(m)[0] == '0' ==> decimal(m).len() == 1,
        m > 0 ==> decimal(m)[0] != '0',
    decreases m,
{
    lemma_decimal(m);
    let s = decimal(m);
    assert forall|k: int| 0 <= k < s.len() implies is_numeral(#[trigger] s[k]) by {
        assert(is_digit(s[k]));
    }
    lemma_worth(s);
    if m >= 10 {
        lemma_written_decimal(m / 10);
        assert(s[0] == decimal(m / 10)[0]);
    }
}

/// What a step writes is the number, filled up where it was.
proof fn lemma_written_number(n: int, width: int, fill: bool)
    requires
        width >= 1,
    ensures
        ({
            let x = if fill {
                padded_decimal(n, width)
            } else {
                signed_decimal(n)
            };
            let d = numerals(x, n);
            &&& reads(x, n)
            &&& fill ==> d.len() >= width && (d.len() > width ==> d[0] != '0' || d.len() == 1)
            &&& !fill ==> d[0] == '0' ==> d.len() == 1
        }),
{
    let m = if n < 0 {
        (-n) as nat
    } else {
        n as nat
    };
    let digits = decimal(m);
    lemma_written_decimal(m);
    if fill {
        let x = padded_decimal(n, width);
        let k = if width > digits.len() {
            width - digits.len()
        } else {
            0
        };
        assert(zeros(width - digits.len()) =~= zeros(k));
        let d = zeros(k) + digits;
        assert(numerals(x, n) =~= d);
        assert forall|i: int| 0 <= i < d.len() implies is_numeral(#[trigger] d[i]) by {
            if i >= k {
                assert(d[i] == digits[i - k]);
            }
        }
        lemma_zeros_are_worth_nothing(k, digits);
        lemma_worth(d);
        lemma_worth(digits);
    } else {
        assert(numerals(signed_decimal(n), n) =~= digits);
    }
}

proof fn lemma_first_digit(line: Seq<char>, i: int, d: int)
    requires
        0 <= i <= d < line.len(),
        forall|k: int| i <= k < d ==> !is_digit(#[trigger] line[k]),
        is_digit(line[d]),
    ensures
        digit_from(line, i) == d,
    decreases d - i,
{
    if i < d {
        assert(!is_digit(line[i]));
        lemma_first_digit(line, i + 1, d);
    }
}

proof fn lemma_no_digit(line: Seq<char>, i: int)
    requires
        0 <= i <= line.len(),
        forall|k: int| i <= k < line.len() ==> !is_digit(#[trigger] line[k]),
    ensures
        digit_from(line, i) == line.len(),
    decreases line.len() - i,
{
    if i < line.len() {
        lemma_no_digit(line, i + 1);
    }
}

proof fn lemma_run_begins(line: Seq<char>, i: int, first: int)
    requires
        0 <= first <= i <= line.len(),
        forall|k: int| first <= k < i ==> is_digit(#[trigger] line[k]),
        first > 0 ==> !is_digit(line[first - 1]),
    ensures
        digits_before(line, i) == first,
    decreases i - first,
{
    if first < i {
        assert(is_digit(line[i - 1]));
        lemma_run_begins(line, i - 1, first);
    }
}

proof fn lemma_run_ends(line: Seq<char>, i: int, end: int)
    requires
        0 <= i <= end <= line.len(),
        forall|k: int| i <= k < end ==> is_digit(#[trigger] line[k]),
        end < line.len() ==> !is_digit(line[end]),
    ensures
        digits_after(line, i) == end,
    decreases end - i,
{
    if i < end {
        assert(is_digit(line[i]));
        lemma_run_ends(line, i + 1, end);
    }
}

/// The run is on the line of the cursor.
proof fn lemma_run_on_line(v: EditorView, a: int, b: int)
    requires
        v.wf(),
        is_next_run(v, a, b),
    ensures
        ({
            let t = v.text();
            let l = line_of(t, v.cursor);
            &&& 0 <= l
            &&& 0 <= line_start(t, l) <= begins(t, a)
            &&& b <= line_start(t, l + 1) <= t.len()
            &&& line_start(t, l) <= v.cursor < line_start(t, l + 1)
            &&& line_start(t, l) == a ==> a == 0 || t[a - 1] == '\n'
        }),
{
    let t = v.text();
    let c = v.cursor;
    let l = line_of(t, c);
    assert forall|k: int| a <= k < b implies t[k] != '\n' by {
        assert(is_numeral(t[k]));
    }
    lemma_line_of_monotone(t, 0, c);
    if c <= a {
        assert forall|k: int| c <= k < a implies t[k] != '\n' by {
            assert(!is_numeral(t[k]) && t[k] != '\n');
        }
        lemma_same_line(t, c, a);
    } else {
        lemma_same_line(t, a, c);
    }
    lemma_same_line(t, a, b - 1);
    lemma_line_around(t, c);
    lemma_line_around(t, a);
    lemma_line_around(t, b - 1);
    lemma_line_start(t, l);
    if line_start(t, l) == a && a > 0 {
        assert(line_of(t, a - 1) < l);
    }
    if is_below_none(t, a) {
        lemma_line_around(t, a - 1);
        assert(line_of(t, a) == line_of(t, a - 1));
    }
}

/// The number that the editor finds is the one whose numerals the run is.
proof fn lemma_number_found(v: EditorView, a: int, b: int)
    requires
        v.wf(),
        is_next_run(v, a, b),
    ensures
        ({
            let t = v.text();
            let base = line_start(t, v.cursor_line());
            let line = line_text(t, v.cursor_line());
            let old = number_of(t, a, b);
            &&& i64::MIN <= old <= i64::MAX ==> v.number_here() == Some(
                Written { first: a - base, end: b - base, value: old as i64 },
            ) && (v.number_here()->0).start(line) == begins(t, a) - base
                && (v.number_here()->0).padded(line) == is_filled_up(t, a, b)
            &&& !(i64::MIN <= old <= i64::MAX) ==> v.number_here() is None
        }),
{
    let t = v.text();
    let l = v.cursor_line();
    let base = line_start(t, l);
    let line = line_text(t, l);
    lemma_run_on_line(v, a, b);
    let col = v.cursor - base;
    let (first, end) = (a - base, b - base);
    assert forall|k: int| 0 <= k < line.len() implies #[trigger] line[k] == t[base + k] by {}
    assert forall|k: int| first <= k < end implies is_digit(#[trigger] line[k]) by {
        assert(is_numeral(t[base + k]));
    }
    assert(first > 0 ==> !is_digit(line[first - 1]));
    assert(end < line.len() ==> !is_digit(line[end]));
    let d = if col > first {
        col
    } else {
        first
    };
    assert forall|k: int| col <= k < d implies !is_digit(#[trigger] line[k]) by {
        assert(!is_numeral(t[base + k]));
    }
    assert(is_digit(line[d]));
    lemma_first_digit(line, col, d);
    lemma_run_begins(line, d, first);
    lemma_run_ends(line, first, end);
    let start = begins(t, a) - base;
    assert(start == if first > 0 && line[first - 1] == '-' {
        first - 1
    } else {
        first
    });
    let s = line.subrange(start, end);
    let digits = t.subrange(a, b);
    assert forall|k: int| 0 <= k < digits.len() implies is_numeral(#[trigger] digits[k]) by {
        assert(is_numeral(t[a + k]));
    }
    lemma_worth(digits);
    if is_below_none(t, a) {
        assert(s[0] == t[a - 1]);
        assert(s.skip(1) =~= digits);
    } else {
        assert(s =~= digits);
        assert(is_numeral(digits[0]));
    }
    assert(line[first] == t[a]);
}

/// A step puts `delta` to the number at the cursor, or the next one along its
/// line, with a `-` before it or not: what stands there afterwards, and where the
/// cursor is, reads as the number that there was and `delta`, as far as an `i64`
/// goes. Numerals that were filled up with zeros are as many afterwards, or more
/// without a zero before them; others have no zero before them. The rest of the
/// text is kept.
pub proof fn law_a_step_is_by_delta(v: EditorView, delta: i64, a: int, b: int)
    requires
        v.wf(),
        !v.buffer().readonly,
        is_next_run(v, a, b),
        within(number_of(v.text(), a, b)) == number_of(v.text(), a, b),
    ensures
        ({
            let t = v.text();
            let w = v.bumping(delta);
            let at = begins(t, a);
            let x = w.text().subrange(at, w.text().len() - (t.len() - b));
            let next = within(number_of(t, a, b) + delta);
            let d = numerals(x, next);
            &&& is_edit(v, w, at, b, x)
            &&& reads(x, next)
            &&& is_filled_up(t, a, b) ==> d.len() >= b - a && (d.len() > b - a ==> d[0] != '0')
            &&& !is_filled_up(t, a, b) ==> (d[0] == '0' ==> d.len() == 1)
            &&& w.cursor == at
            &&& w.anchor == at
            &&& w.registers == v.registers
            &&& w.status == v.status
            &&& w.goal_column == v.goal_column
        }),
{
    reveal(EditorView::bumping);
    let t = v.text();
    let at = begins(t, a);
    lemma_run_on_line(v, a, b);
    lemma_number_found(v, a, b);
    let old = number_of(t, a, b) as i64;
    let next = stepped(old, delta);
    assert(next == within(number_of(t, a, b) + delta));
    let fill = is_filled_up(t, a, b);
    let s = if fill {
        padded_decimal(next, b - a)
    } else {
        signed_decimal(next)
    };
    lemma_written_number(next, b - a, fill);
    lemma_spliced(t, at, b, s);
    assert(s.len() > 0);
    let w = v.bumping(delta);
    assert(w.text() == spliced(t, at, b, s));
    assert(w.text().subrange(at, w.text().len() - (t.len() - b)) =~= s);
}

/// Where no numeral stands from the cursor to the end of its line, and where the
/// number is more than an `i64`, a step changes nothing.
pub proof fn law_where_there_is_no_number_nothing_is_stepped(
    v: EditorView,
    delta: i64,
    a: int,
    b: int,
)
    requires
        v.wf(),
        !v.buffer().readonly,
        (v.cursor <= b <= v.text().len() && (b < v.text().len() ==> v.text()[b] == '\n') && forall|
            k: int,
        |
            v.cursor <= k < b ==> !is_numeral(#[trigger] v.text()[k]) && v.text()[k] != '\n') || (
        is_next_run(v, a, b) && within(number_of(v.text(), a, b)) != number_of(v.text(), a, b)),
    ensures
        v.bumping(delta) == v,
{
    reveal(EditorView::bumping);
    let t = v.text();
    if is_next_run(v, a, b) && within(number_of(t, a, b)) != number_of(t, a, b) {
        lemma_number_found(v, a, b);
    } else {
        let l = v.cursor_line();
        let base = line_start(t, l);
        let line = line_text(t, l);
        lemma_line_around(t, v.cursor);
        assert forall|k: int| v.cursor <= k < b implies t[k] != '\n' by {
            assert(!is_numeral(t[k]) && t[k] != '\n');
        }
        lemma_same_line(t, v.cursor, b);
        lemma_line_start(t, l + 1);
        assert(line_start(t, l + 1) <= b + 1) by {
            if line_start(t, l + 1) > b + 1 {
                assert(line_of(t, b + 1) < l + 1);
            }
        }
        let col = v.cursor - base;
        assert forall|k: int| col <= k < line.len() implies !is_digit(#[trigger] line[k]) by {
            assert(line[k] == t[base + k]);
            if base + k < b {
                assert(!is_numeral(t[base + k]));
            }
        }
        lemma_no_digit(line, col);
    }
}

// ---- A step and the step back ---------------------------------------------

proof fn lemma_worth_bounds(s: Seq<char>)
    requires
        forall|k: int| 0 <= k < s.len() ==> is_numeral(#[trigger] s[k]),
    ensures
        0 <= worth(s) < pow(10, s.len()),
        s.len() > 0 && s[0] != '0' ==> worth(s) >= pow(10, (s.len() - 1) as nat),
        s.len() > 0 && s[0] == '0' ==> worth(s) < pow(10, (s.len() - 1) as nat),
    decreases s.len(),
{
    reveal(pow);
    if s.len() > 0 {
        let rest = s.skip(1);
        assert forall|k: int| 0 <= k < rest.len() implies is_numeral(#[trigger] rest[k]) by {
            assert(rest[k] == s[k + 1]);
        }
        lemma_worth_bounds(rest);
        assert(is_numeral(s[0]));
        let d = s[0] as int - '0' as int;
        let p = pow(10, (s.len() - 1) as nat);
        assert(pow(10, s.len()) == 10 * p);
        assert(0 <= d <= 9);
        lemma_pow_positive(10, (s.len() - 1) as nat);
        assert(0 <= d * p <= 9 * p) by (nonlinear_arith)
            requires
                0 <= d <= 9,
                p > 0,
        ;
        if d == 0 {
            assert(d * p == 0) by (nonlinear_arith)
                requires
                    d == 0,
            ;
        } else {
            assert(d * p >= p) by (nonlinear_arith)
                requires
                    d >= 1,
                    p > 0,
            ;
        }
    }
}

/// As many numerals worth as much are the same.
proof fn lemma_same_numerals(x: Seq<char>, y: Seq<char>)
    requires
        x.len() == y.len(),
        forall|k: int| 0 <= k < x.len() ==> is_numeral(#[trigger] x[k]),
        forall|k: int| 0 <= k < y.len() ==> is_numeral(#[trigger] y[k]),
        worth(x) == worth(y),
    ensures
        x == y,
    decreases x.len(),
{
    if x.len() > 0 {
        lemma_worth_of_last(x);
        lemma_worth_of_last(y);
        let (a, b) = (x.drop_last(), y.drop_last());
        assert(is_numeral(x[x.len() - 1]) && is_numeral(y[y.len() - 1]));
        assert forall|k: int| 0 <= k < a.len() implies is_numeral(#[trigger] a[k]) && is_numeral(
            b[k],
        ) by {
            assert(a[k] == x[k] && b[k] == y[k]);
        }
        assert forall|k: int| 0 <= k < b.len() implies is_numeral(#[trigger] b[k]) by {
            assert(b[k] == y[k]);
        }
        assert(worth(a) == worth(b));
        lemma_same_numerals(a, b);
        assert(x =~= a.push(x.last()));
        assert(y =~= b.push(y.last()));
    } else {
        assert(x =~= y);
    }
}

/// Numerals worth as much, without a zero before them, are the same; so are those
/// filled up to one width.
proof fn lemma_same_number(x: Seq<char>, y: Seq<char>, width: int, fill: bool)
    requires
        are_numerals(x),
        are_numerals(y),
        worth(x) == worth(y),
        fill ==> y.len() == width && y[0] == '0' && width > 1 && x.len() >= width && (x.len()
            > width ==> x[0] != '0'),
        !fill ==> (x[0] == '0' ==> x.len() == 1) && (y[0] == '0' ==> y.len() == 1),
    ensures
        x == y,
{
    lemma_worth_bounds(x);
    lemma_worth_bounds(y);
    let (n, m) = (x.len(), y.len());
    if n != m {
        let (less, more) = if n < m {
            (x, y)
        } else {
            (y, x)
        };
        lemma_pow_increases(10, less.len(), (more.len() - 1) as nat);
        if fill {
            lemma_pow_increases(10, (m - 1) as nat, (n - 1) as nat);
        }
        if more[0] == '0' {
            assert(more.len() == 1);
        }
        assert(false);
    }
    lemma_same_numerals(x, y);
}

/// A step and the step back give the text that there was, of numbers with a `-`
/// or without, filled up with zeros or not, where the first step stays within an
/// `i64`. Left out is what does not tell itself apart any more: none with a `-`
/// before it; a number filled up that fills its numerals after the step; and a
/// `-` that goes away between the number and a numeral or another `-`.
pub proof fn law_any_step_is_undone_by_the_step_back(v: EditorView, delta: i64, a: int, b: int)
    requires
        v.wf(),
        !v.buffer().readonly,
        is_next_run(v, a, b),
        delta != i64::MIN,
        ({
            let t = v.text();
            let old = number_of(t, a, b);
            let next = old + delta;
            &&& within(old) == old
            &&& within(next) == next
            &&& is_below_none(t, a) ==> old != 0
            &&& is_filled_up(t, a, b) ==> -pow(10, (b - a - 1) as nat) < next < pow(
                10,
                (b - a - 1) as nat,
            )
            &&& is_below_none(t, a) && next >= 0 && a > 1 ==> !is_numeral(t[a - 2]) && t[a - 2]
                != '-'
        }),
    ensures
        v.bumping(delta).bumping((-delta) as i64).text() == v.text(),
        v.bumping(delta).bumping((-delta) as i64).cursor == begins(v.text(), a),
{
    let t = v.text();
    let old = number_of(t, a, b);
    let next = old + delta;
    let at = begins(t, a);
    let w = v.bumping(delta);
    let u = w.text();
    let end = u.len() - (t.len() - b);
    let a2 = if next < 0 {
        at + 1
    } else {
        at
    };
    lemma_step_in_text(v, delta, a, b);
    lemma_run_after_step(t, u, a, b, next);
    assert(is_next_run(w, a2, end));
    let by = (-delta) as i64;
    lemma_step_in_text(w, by, a2, end);
    lemma_back_again(t, u, w.bumping(by).text(), a, b, a2, end, old, next);
}

/// Whether `u` is `t` with another number, `next`, in the place of that whose
/// numerals are `a..b`, written as that was.
spec fn is_stepped(t: Seq<char>, u: Seq<char>, a: int, b: int, next: int) -> bool {
    let at = begins(t, a);
    let end = u.len() - (t.len() - b);
    let x = u.subrange(at, end);
    let d = numerals(x, next);
    &&& at <= end <= u.len()
    &&& u == t.take(at) + x + t.skip(b)
    &&& reads(x, next)
    &&& is_filled_up(t, a, b) ==> d.len() >= b - a && (d.len() > b - a ==> d[0] != '0')
    &&& !is_filled_up(t, a, b) ==> (d[0] == '0' ==> d.len() == 1)
}

proof fn lemma_step_in_text(v: EditorView, delta: i64, a: int, b: int)
    requires
        v.wf(),
        !v.buffer().readonly,
        is_next_run(v, a, b),
        within(number_of(v.text(), a, b)) == number_of(v.text(), a, b),
    ensures
        ({
            let w = v.bumping(delta);
            &&& is_stepped(v.text(), w.text(), a, b, within(number_of(v.text(), a, b) + delta))
            &&& w.cursor == begins(v.text(), a)
            &&& w.wf()
            &&& !w.buffer().readonly
        }),
{
    law_a_step_is_by_delta(v, delta, a, b);
    let t = v.text();
    let w = v.bumping(delta);
    let u = w.text();
    let at = begins(t, a);
    let x = u.subrange(at, u.len() - (t.len() - b));
    assert(u.len() == at + x.len() + (t.len() - b));
    lemma_bumped_is_sound(v, delta);
}

/// The number that was written is found as the run that it is.
proof fn lemma_run_after_step(t: Seq<char>, u: Seq<char>, a: int, b: int, next: int)
    requires
        is_run(t, a, b),
        is_stepped(t, u, a, b, next),
        is_below_none(t, a) && next >= 0 && a > 1 ==> !is_numeral(t[a - 2]) && t[a - 2] != '-',
        is_filled_up(t, a, b) ==> -pow(10, (b - a - 1) as nat) < next < pow(
            10,
            (b - a - 1) as nat,
        ),
    ensures
        ({
            let at = begins(t, a);
            let end = u.len() - (t.len() - b);
            let a2 = if next < 0 {
                at + 1
            } else {
                at
            };
            &&& is_run(u, a2, end)
            &&& next < 0 ==> u[at] == '-'
            &&& begins(u, a2) == at
            &&& is_below_none(u, a2) == (next < 0)
            &&& number_of(u, a2, end) == next
            &&& is_filled_up(u, a2, end) == is_filled_up(t, a, b)
            &&& is_filled_up(t, a, b) ==> end - a2 == b - a
        }),
{
    let at = begins(t, a);
    let end = u.len() - (t.len() - b);
    let x = u.subrange(at, end);
    let d = numerals(x, next);
    let fill = is_filled_up(t, a, b);
    let a2 = if next < 0 {
        at + 1
    } else {
        at
    };
    assert(d =~= u.subrange(a2, end));
    assert forall|k: int| a2 <= k < end implies is_numeral(#[trigger] u[k]) by {
        assert(u[k] == d[k - a2]);
    }
    assert(end < u.len() ==> u[end] == t[b]);
    assert(at > 0 ==> u[at - 1] == t[at - 1]);
    assert(next < 0 ==> u[at] == x[0]);
    assert(d[0] == u[a2]);
    lemma_worth_bounds(d);
    if fill {
        let p = (b - a - 1) as nat;
        if d.len() > b - a {
            lemma_pow_increases(10, p, (d.len() - 1) as nat);
            assert(false);
        }
        if d[0] != '0' {
            assert(false);
        }
    }
}

/// Stepping back to the number that there was writes what there was.
proof fn lemma_back_again(
    t: Seq<char>,
    u: Seq<char>,
    back: Seq<char>,
    a: int,
    b: int,
    a2: int,
    end: int,
    old: int,
    next: int,
)
    requires
        is_run(t, a, b),
        is_stepped(t, u, a, b, next),
        is_stepped(u, back, a2, end, old),
        end == u.len() - (t.len() - b),
        0 <= a2 <= end,
        begins(u, a2) == begins(t, a),
        is_filled_up(u, a2, end) == is_filled_up(t, a, b),
        is_filled_up(t, a, b) ==> end - a2 == b - a,
        old == number_of(t, a, b),
        is_below_none(t, a) ==> old != 0,
    ensures
        back == t,
{
    let at = begins(t, a);
    let fill = is_filled_up(t, a, b);
    let y = back.subrange(at, back.len() - (u.len() - end));
    let had = t.subrange(a, b);
    assert forall|k: int| 0 <= k < had.len() implies is_numeral(#[trigger] had[k]) by {
        assert(is_numeral(t[a + k]));
    }
    lemma_worth_bounds(had);
    assert(is_below_none(t, a) == (old < 0));
    assert(had[0] == t[a]);
    lemma_same_number(numerals(y, old), had, b - a, fill);
    if old < 0 {
        assert(y =~= seq!['-'] + y.skip(1));
        assert(t.subrange(at, b) =~= seq!['-'] + had);
    }
    assert(y =~= t.subrange(at, b));
    let x = u.subrange(at, end);
    assert(u.len() == at + x.len() + (t.len() - b));
    assert(u.take(at) =~= t.take(at));
    assert(u.skip(end) =~= t.skip(b));
    assert(back =~= t);
}

proof fn lemma_bumped_is_sound(v: EditorView, delta: i64)
    requires
        v.wf(),
        v.bumping(delta).cursor <= v.bumping(delta).text().len(),
        v.bumping(delta).anchor <= v.bumping(delta).text().len(),
        v.bumping(delta).cursor >= 0,
        v.bumping(delta).anchor >= 0,
    ensures
        v.bumping(delta).wf(),
{
    reveal(EditorView::bumping);
    let w = v.bumping(delta);
    assert forall|k: int| 0 <= k < w.buffers.len() implies (#[trigger] w.buffers[k]).wf() by {
        assert(v.buffers[k].wf());
    }
}

/// The count says how far a number is stepped, up or down: one where none was
/// typed, and as far as an `i64` goes. It is used up.
pub proof fn law_the_count_is_how_far_a_number_is_stepped(v: EditorView, up: bool, n: int)
    requires
        v.wf(),
        n == (match v.count {
            Some(k) => if 1 <= k <= i64::MAX {
                k as int
            } else if k < 1 {
                1
            } else {
                i64::MAX as int
            },
            None => 1,
        }),
    ensures
        ({
            let w = EditorView { count: None, ..v };
            let delta = (if up {
                n
            } else {
                -n
            }) as i64;
            w.can_bump(delta) ==> v.bumping_by_count(up) == w.bumping(delta)
        }),
        v.bumping_by_count(up).count is None,
{
    reveal(EditorView::bumping_by_count);
    reveal(EditorView::bumping);
}

} // verus!
