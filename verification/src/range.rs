//! The line before a command: which lines it means, and a substitution.

use vstd::prelude::*;
use crate::number::{digit, digits_value, is_digit};
use crate::search::{Lines, LinesView, Substitution, SubstitutionView};
use crate::text::{chars_of, pieces_of, same_text, split_on, string_between, views};

verus! {

/// The number that digits stand for; none where there are no digits, or other
/// characters, or more than a `usize` counts.
pub open spec fn number_of(s: Seq<char>) -> Option<usize> {
    if s.len() > 0 && (forall|k: int| 0 <= k < s.len() ==> is_digit(#[trigger] s[k]))
        && digits_value(s) <= usize::MAX {
        Some(digits_value(s) as usize)
    } else {
        None
    }
}

proof fn lemma_value_grows(s: Seq<char>, i: int)
    requires
        0 <= i <= s.len(),
        forall|k: int| 0 <= k < s.len() ==> is_digit(#[trigger] s[k]),
    ensures
        digits_value(s.take(i)) <= digits_value(s),
    decreases s.len() - i,
{
    if i == s.len() {
        assert(s.take(i) =~= s);
    } else {
        assert(s.take(i + 1).drop_last() =~= s.take(i));
        assert(s.take(i + 1).last() == s[i]);
        lemma_value_grows(s, i + 1);
    }
}

/// The number that digits stand for.
pub fn read_number(s: &str) -> (r: Option<usize>)
    ensures
        r == number_of(s@),
{
    let v: Vec<char> = chars_of(s);
    if v.len() == 0 {
        return None;
    }
    let mut i: usize = 0;
    while i < v.len()
        invariant
            0 <= i <= v@.len(),
            v@ == s@,
            forall|k: int| 0 <= k < i ==> is_digit(#[trigger] s@[k]),
        decreases v@.len() - i,
    {
        if !digit(v[i]) {
            assert(!is_digit(s@[i as int]));
            return None;
        }
        i += 1;
    }
    let mut n: usize = 0;
    let mut j: usize = 0;
    assert(s@.take(0) =~= Seq::empty());
    while j < v.len()
        invariant
            0 <= j <= v@.len(),
            v@.len() > 0,
            v@ == s@,
            forall|k: int| 0 <= k < s@.len() ==> is_digit(#[trigger] s@[k]),
            n == digits_value(s@.take(j as int)),
        decreases v@.len() - j,
    {
        let d: usize = (v[j] as u32 - '0' as u32) as usize;
        proof {
            assert(s@.take(j + 1).drop_last() =~= s@.take(j as int));
            assert(s@.take(j + 1).last() == s@[j as int]);
            lemma_value_grows(s@, j + 1);
        }
        n = match n.checked_mul(10) {
            Some(m) => match m.checked_add(d) {
                Some(m) => m,
                None => return None,
            },
            None => return None,
        };
        j += 1;
    }
    assert(s@.take(v@.len() as int) =~= s@);
    Some(n)
}

/// A line named before a command: its number, `.` for the line of the cursor,
/// `$` for the last one. Counted from zero.
pub open spec fn line_named(s: Seq<char>, here: usize, last: usize) -> Option<usize> {
    if s == seq!['.'] {
        Some(here)
    } else if s == seq!['$'] {
        Some(last)
    } else {
        match number_of(s) {
            Some(n) => Some(
                if n >= 1 {
                    (n - 1) as usize
                } else {
                    0
                },
            ),
            None => None,
        }
    }
}

/// The lines named; none where one of the names is none.
pub open spec fn lines_listed(names: Seq<Seq<char>>, here: usize, last: usize) -> Option<Seq<usize>>
    decreases names.len(),
{
    if names.len() == 0 {
        Some(Seq::empty())
    } else {
        match (
            lines_listed(names.drop_last(), here, last),
            line_named(names.last(), here, last),
        ) {
            (Some(v), Some(l)) => Some(v.push(l)),
            _ => None,
        }
    }
}

/// Which lines a range means: `%` all of them, `1-3` a span, `1,3` a list. A
/// dash and a comma do not go together.
pub open spec fn lines_of_range(s: Seq<char>, here: usize, last: usize) -> Option<LinesView> {
    if s.len() == 0 {
        Some(LinesView::Selected)
    } else if s == seq!['%'] {
        Some(LinesView::All)
    } else {
        let ends = pieces_of(s, '-');
        if ends.len() == 2 {
            match (line_named(ends[0], here, last), line_named(ends[1], here, last)) {
                (Some(a), Some(b)) => Some(LinesView::Span(a as int, b as int)),
                _ => None,
            }
        } else if ends.len() == 1 {
            match lines_listed(pieces_of(s, ','), here, last) {
                Some(v) => Some(LinesView::List(v)),
                None => None,
            }
        } else {
            None
        }
    }
}

/// A line named before a command.
fn read_line_name(s: &str, here: usize, last: usize) -> (r: Option<usize>)
    ensures
        r == line_named(s@, here, last),
{
    proof {
        reveal_strlit(".");
        reveal_strlit("$");
        assert("."@ =~= seq!['.']);
        assert("$"@ =~= seq!['$']);
    }
    if same_text(s, ".") {
        Some(here)
    } else if same_text(s, "$") {
        Some(last)
    } else {
        match read_number(s) {
            Some(n) => Some(
                if n >= 1 {
                    n - 1
                } else {
                    0
                },
            ),
            None => None,
        }
    }
}

/// Which lines a range means.
fn read_range(s: &str, here: usize, last: usize) -> (r: Option<Lines>)
    ensures
        match r {
            Some(l) => lines_of_range(s@, here, last) == Some(l@),
            None => lines_of_range(s@, here, last) is None,
        },
{
    proof {
        reveal_strlit("%");
        assert("%"@ =~= seq!['%']);
    }
    if s.unicode_len() == 0 {
        return Some(Lines::Selected);
    }
    if same_text(s, "%") {
        return Some(Lines::All);
    }
    let ends: Vec<String> = split_on(s, '-');
    let ghost e = views(ends@);
    assert(e.len() == ends@.len());
    if ends.len() == 2 {
        assert(e[0] == ends@[0]@);
        assert(e[1] == ends@[1]@);
        return match (
            read_line_name(ends[0].as_str(), here, last),
            read_line_name(ends[1].as_str(), here, last),
        ) {
            (Some(a), Some(b)) => Some(Lines::Span(a, b)),
            _ => None,
        };
    }
    if ends.len() != 1 {
        return None;
    }
    let names: Vec<String> = split_on(s, ',');
    let ghost all = views(names@);
    let mut v: Vec<usize> = Vec::new();
    let mut i: usize = 0;
    assert(all.take(0) =~= Seq::empty());
    while i < names.len()
        invariant
            0 <= i <= names@.len(),
            all == views(names@),
            all == pieces_of(s@, ','),
            s@.len() > 0,
            s@ != seq!['%'],
            pieces_of(s@, '-').len() == 1,
            lines_listed(all.take(i as int), here, last) == Some(v@),
        decreases names@.len() - i,
    {
        proof {
            assert(all.take(i + 1).drop_last() =~= all.take(i as int));
            assert(all.take(i + 1).last() == names@[i as int]@);
        }
        match read_line_name(names[i].as_str(), here, last) {
            Some(l) => {
                v.push(l);
            },
            None => {
                proof {
                    lemma_unlisted(all, here, last, i + 1);
                }
                return None;
            },
        }
        i += 1;
    }
    assert(all.take(names@.len() as int) =~= all);
    Some(Lines::List(v))
}

proof fn lemma_unlisted(names: Seq<Seq<char>>, here: usize, last: usize, k: int)
    requires
        0 <= k <= names.len(),
        lines_listed(names.take(k), here, last) is None,
    ensures
        lines_listed(names, here, last) is None,
    decreases names.len(),
{
    if k == names.len() {
        assert(names.take(k) =~= names);
    } else {
        assert(names.drop_last().take(k) =~= names.take(k));
        lemma_unlisted(names.drop_last(), here, last, k);
    }
}

// ---- A substitution -------------------------------------------------------

/// Whether `c` may stand in a range.
pub open spec fn in_range(c: char) -> bool {
    is_digit(c) || c == '.' || c == '$' || c == '%' || c == ',' || c == '-'
}

/// Where the range at the beginning ends.
pub open spec fn range_end(s: Seq<char>, i: int) -> int
    decreases s.len() - i,
{
    if i < s.len() && in_range(s[i]) {
        range_end(s, i + 1)
    } else {
        i
    }
}

/// The first `d` at or after `i`, or the end.
pub open spec fn find_delimiter(s: Seq<char>, d: char, i: int) -> int
    decreases s.len() - i,
{
    if i >= s.len() {
        s.len() as int
    } else if s[i] == d {
        i
    } else {
        find_delimiter(s, d, i + 1)
    }
}

/// Whether every flag is known.
pub open spec fn flags_known(s: Seq<char>) -> bool {
    forall|k: int|
        0 <= k < s.len() ==> (#[trigger] s[k] == 'g' || s[k] == 'i' || s[k] == 'f' || s[k] == 'n')
}

/// Whether a line is a substitution: a range, `s`, and what parts its fields.
pub open spec fn is_substitution(s: Seq<char>) -> bool {
    let k = range_end(s, 0);
    k + 1 < s.len() && s[k] == 's' && (s[k + 1] == '/' || s[k + 1] == '#' || s[k + 1] == '|')
}

/// The substitution that a line says; none where its lines or its flags are
/// none.
pub open spec fn substitution_of(s: Seq<char>, here: usize, last: usize) -> Option<
    SubstitutionView,
> {
    let k = range_end(s, 0);
    let d = s[k + 1];
    let a = k + 2;
    let b = find_delimiter(s, d, a);
    let w = if b < s.len() {
        b + 1
    } else {
        b
    };
    let e = find_delimiter(s, d, w);
    let flags = if e < s.len() {
        s.skip(e + 1)
    } else {
        Seq::empty()
    };
    match lines_of_range(s.take(k), here, last) {
        None => None,
        Some(lines) => if !flags_known(flags) {
            None
        } else {
            Some(
                SubstitutionView {
                    lines,
                    pattern: s.subrange(a, b),
                    with: s.subrange(w, e),
                    every: flags.contains('g'),
                    fold: flags.contains('i'),
                    as_text: flags.contains('f'),
                    count: flags.contains('n'),
                },
            )
        },
    }
}

/// Where the range at the beginning ends.
fn find_range_end(v: &Vec<char>) -> (k: usize)
    ensures
        k == range_end(v@, 0),
        k <= v@.len(),
{
    let mut k: usize = 0;
    while k < v.len() && (digit(v[k]) || v[k] == '.' || v[k] == '$' || v[k] == '%' || v[k] == ','
        || v[k] == '-')
        invariant
            0 <= k <= v@.len(),
            range_end(v@, 0) == range_end(v@, k as int),
        decreases v@.len() - k,
    {
        k += 1;
    }
    k
}

/// The first `d` at or after `i`, or the end.
fn seek_delimiter(v: &Vec<char>, d: char, i: usize) -> (k: usize)
    requires
        i <= v@.len(),
    ensures
        k == find_delimiter(v@, d, i as int),
        i <= k <= v@.len(),
{
    let mut k: usize = i;
    while k < v.len() && v[k] != d
        invariant
            i <= k <= v@.len(),
            find_delimiter(v@, d, i as int) == find_delimiter(v@, d, k as int),
        decreases v@.len() - k,
    {
        k += 1;
    }
    k
}

/// Whether `c` is one of the characters from `a` on.
fn has_from(v: &Vec<char>, a: usize, c: char) -> (r: bool)
    requires
        a <= v@.len(),
    ensures
        r == v@.skip(a as int).contains(c),
{
    let mut i: usize = a;
    while i < v.len()
        invariant
            a <= i <= v@.len(),
            forall|k: int| a <= k < i ==> v@[k] != c,
        decreases v@.len() - i,
    {
        if v[i] == c {
            assert(v@.skip(a as int)[i - a] == c);
            return true;
        }
        i += 1;
    }
    assert forall|k: int| 0 <= k < v@.skip(a as int).len() implies v@.skip(a as int)[k] != c by {
        assert(v@[a + k] != c);
    }
    false
}

/// Whether a line is a substitution.
pub fn says_substitution(s: &str) -> (r: bool)
    ensures
        r == is_substitution(s@),
{
    let v: Vec<char> = chars_of(s);
    let n: usize = v.len();
    let k: usize = find_range_end(&v);
    k < n && k + 1 < n && v[k] == 's' && (v[k + 1] == '/' || v[k + 1] == '#' || v[k + 1] == '|')
}

/// The substitution that a line says.
pub fn read_substitution(s: &str, here: usize, last: usize) -> (r: Option<Substitution>)
    requires
        is_substitution(s@),
    ensures
        match r {
            Some(x) => substitution_of(s@, here, last) == Some(x@),
            None => substitution_of(s@, here, last) is None,
        },
{
    let v: Vec<char> = chars_of(s);
    let n: usize = v.len();
    let k: usize = find_range_end(&v);
    let d: char = v[k + 1];
    let a: usize = k + 2;
    let b: usize = seek_delimiter(&v, d, a);
    let w: usize = if b < n {
        b + 1
    } else {
        b
    };
    let e: usize = seek_delimiter(&v, d, w);
    let f: usize = if e < n {
        e + 1
    } else {
        n
    };
    let ghost flags = v@.skip(f as int);
    assert(e >= n ==> flags =~= Seq::empty());
    let range: String = string_between(&v, 0, k);
    assert(range@ =~= v@.take(k as int));
    let lines: Lines = match read_range(range.as_str(), here, last) {
        Some(lines) => lines,
        None => return None,
    };
    let mut i: usize = f;
    while i < n
        invariant
            f <= i <= n == v@.len(),
            flags == v@.skip(f as int),
            v@ == s@,
            k == range_end(v@, 0),
            d == v@[k + 1],
            k + 1 < n,
            a == k + 2,
            b == find_delimiter(v@, d, a as int),
            w == (if b < n { b + 1 } else { b as int }),
            e == find_delimiter(v@, d, w as int),
            f == (if e < n { e + 1 } else { n as int }),
            e >= n ==> flags =~= Seq::<char>::empty(),
            forall|j: int|
                f <= j < i ==> (#[trigger] v@[j] == 'g' || v@[j] == 'i' || v@[j] == 'f' || v@[j]
                    == 'n'),
        decreases n - i,
    {
        if !(v[i] == 'g' || v[i] == 'i' || v[i] == 'f' || v[i] == 'n') {
            assert(flags[i - f] == v@[i as int]);
            assert(!flags_known(flags));
            return None;
        }
        i += 1;
    }
    proof {
        assert forall|j: int| 0 <= j < flags.len() implies (#[trigger] flags[j] == 'g' || flags[j]
            == 'i' || flags[j] == 'f' || flags[j] == 'n') by {
            assert(flags[j] == v@[f + j]);
        }
    }
    Some(
        Substitution {
            lines,
            pattern: string_between(&v, a, b),
            with: string_between(&v, w, e),
            every: has_from(&v, f, 'g'),
            fold: has_from(&v, f, 'i'),
            as_text: has_from(&v, f, 'f'),
            count: has_from(&v, f, 'n'),
        },
    )
}

} // verus!
