//! Text as a sequence of characters: lines, and strings made of characters.

use vstd::prelude::*;

verus! {

/// `String::push` puts the character after the others.
pub assume_specification[ String::push ](s: &mut String, c: char)
    ensures
        final(s)@ == old(s)@.push(c),
;

/// `String::push_str` puts the whole of `t` after what was there.
pub assume_specification[ String::push_str ](s: &mut String, t: &str)
    ensures
        final(s)@ == old(s)@ + t@,
;

// ---- Lines ----------------------------------------------------------------

/// How many line breaks stand before position `i`: the line that `i` is on.
pub open spec fn line_of(t: Seq<char>, i: int) -> int
    decreases i,
{
    if i <= 0 {
        0
    } else {
        line_of(t, i - 1) + if t[i - 1] == '\n' { 1int } else { 0int }
    }
}

/// How many lines the text has. Text that ends in a line break has an empty
/// line after it.
pub open spec fn line_count(t: Seq<char>) -> int {
    line_of(t, t.len() as int) + 1
}

/// The first position at or after `i` that has `l` line breaks before it, or
/// the end of the text.
pub open spec fn line_start_from(t: Seq<char>, l: int, i: int) -> int
    decreases t.len() - i,
{
    if i >= t.len() || line_of(t, i) >= l {
        i
    } else {
        line_start_from(t, l, i + 1)
    }
}

/// Where line `l` begins; the end of the text for the line after the last.
pub open spec fn line_start(t: Seq<char>, l: int) -> int {
    line_start_from(t, l, 0)
}

/// Where the line that `i` is on ends: its line break, or the end of the text.
pub open spec fn line_end(t: Seq<char>, i: int) -> int
    decreases t.len() - i,
{
    if i >= t.len() {
        t.len() as int
    } else if t[i] == '\n' {
        i
    } else {
        line_end(t, i + 1)
    }
}

/// Line `l`, with the break that ends it.
pub open spec fn line_text(t: Seq<char>, l: int) -> Seq<char> {
    t.subrange(line_start(t, l), line_start(t, l + 1))
}

/// The last line that holds text: the empty line after a final break is not
/// one to stand on.
pub open spec fn last_line(t: Seq<char>) -> int {
    if t.len() > 0 && t.last() == '\n' {
        line_count(t) - 2
    } else {
        line_count(t) - 1
    }
}

/// The text with `a..b` replaced by `s`.
pub open spec fn spliced(t: Seq<char>, a: int, b: int, s: Seq<char>) -> Seq<char> {
    t.take(a) + s + t.skip(b)
}

/// Line numbers never go down along the text.
pub proof fn lemma_line_of_monotone(t: Seq<char>, i: int, j: int)
    requires
        i <= j,
    ensures
        0 <= line_of(t, i) <= line_of(t, j),
    decreases
        if j > 0 { j } else { 0 },
{
    if j <= 0 {
    } else if i < j {
        lemma_line_of_monotone(t, i, j - 1);
    } else {
        lemma_line_of_monotone(t, i - 1, j - 1);
    }
}

/// The line number of a position depends only on what stands before it.
pub proof fn lemma_line_of_prefix(t: Seq<char>, u: Seq<char>, i: int)
    requires
        forall|k: int| 0 <= k < i ==> t[k] == u[k],
    ensures
        line_of(t, i) == line_of(u, i),
    decreases i,
{
    if i > 0 {
        lemma_line_of_prefix(t, u, i - 1);
    }
}

proof fn lemma_line_start_from(t: Seq<char>, l: int, i: int)
    requires
        0 <= i <= t.len(),
        l >= 0,
        line_of(t, i) <= l,
    ensures
        i <= line_start_from(t, l, i) <= t.len(),
        line_of(t, line_start_from(t, l, i)) <= l,
        line_start_from(t, l, i) < t.len() ==> line_of(t, line_start_from(t, l, i)) == l,
        l < line_count(t) ==> line_of(t, line_start_from(t, l, i)) == l,
        forall|k: int| i <= k < line_start_from(t, l, i) ==> #[trigger] line_of(t, k) < l,
    decreases t.len() - i,
{
    if i >= t.len() || line_of(t, i) >= l {
    } else {
        lemma_line_start_from(t, l, i + 1);
    }
}

/// What the beginning of a line is: the first position with that many breaks
/// before it.
pub proof fn lemma_line_start(t: Seq<char>, l: int)
    requires
        l >= 0,
    ensures
        0 <= line_start(t, l) <= t.len(),
        line_start(t, l) < t.len() ==> line_of(t, line_start(t, l)) == l,
        l < line_count(t) ==> line_of(t, line_start(t, l)) == l,
        l >= line_count(t) ==> line_start(t, l) == t.len(),
        forall|k: int| 0 <= k < line_start(t, l) ==> #[trigger] line_of(t, k) < l,
{
    lemma_line_start_from(t, l, 0);
    if l >= line_count(t) {
        lemma_line_of_monotone(t, line_start(t, l), t.len() as int);
    }
}

/// A later line does not begin earlier.
pub proof fn lemma_line_starts(t: Seq<char>, l: int, m: int)
    requires
        0 <= l <= m,
    ensures
        0 <= line_start(t, l) <= line_start(t, m) <= t.len(),
{
    lemma_line_start(t, l);
    lemma_line_start(t, m);
    if line_start(t, m) < line_start(t, l) {
        assert(line_of(t, line_start(t, m)) < l);
    }
}

/// A position is on its line: not before the line begins, and before the next
/// one begins unless the text ends there.
pub proof fn lemma_line_around(t: Seq<char>, i: int)
    requires
        0 <= i <= t.len(),
    ensures
        0 <= line_of(t, i) < line_count(t),
        0 <= line_start(t, line_of(t, i)) <= i,
        i <= line_start(t, line_of(t, i) + 1) <= t.len(),
        i < t.len() ==> i < line_start(t, line_of(t, i) + 1),
{
    let l = line_of(t, i);
    lemma_line_of_monotone(t, 0, i);
    lemma_line_of_monotone(t, i, t.len() as int);
    lemma_line_start(t, l);
    lemma_line_start(t, l + 1);
    if line_start(t, l) > i {
        assert(line_of(t, i) < l);
    }
    let s = line_start(t, l + 1);
    if s < i || (s == i && s < t.len()) {
        assert(line_of(t, s) == l + 1);
        lemma_line_of_monotone(t, s, i);
    }
}

/// The break found from `i` is the first one there.
pub proof fn lemma_line_end(t: Seq<char>, i: int)
    requires
        0 <= i <= t.len(),
    ensures
        i <= line_end(t, i) <= t.len(),
        line_end(t, i) < t.len() ==> t[line_end(t, i)] == '\n',
        forall|k: int| i <= k < line_end(t, i) ==> t[k] != '\n',
    decreases t.len() - i,
{
    if i < t.len() && t[i] != '\n' {
        lemma_line_end(t, i + 1);
    }
}

/// Where no break stands between two positions, they are on one line.
pub proof fn lemma_same_line(t: Seq<char>, i: int, j: int)
    requires
        0 <= i <= j <= t.len(),
        forall|k: int| i <= k < j ==> t[k] != '\n',
    ensures
        line_of(t, j) == line_of(t, i),
    decreases j - i,
{
    if i < j {
        lemma_same_line(t, i, j - 1);
    }
}

/// The lines of two texts put together.
pub proof fn lemma_line_of_concat(x: Seq<char>, y: Seq<char>, k: int)
    requires
        0 <= k <= y.len(),
    ensures
        line_of(x + y, x.len() + k) == line_of(x, x.len() as int) + line_of(y, k),
    decreases k,
{
    if k == 0 {
        lemma_line_of_prefix(x + y, x, x.len() as int);
    } else {
        lemma_line_of_concat(x, y, k - 1);
        assert((x + y)[x.len() + k - 1] == y[k - 1]);
    }
}

/// A splice that takes no break out and puts none in keeps the lines.
pub proof fn lemma_splice_keeps_lines(t: Seq<char>, a: int, b: int, s: Seq<char>)
    requires
        0 <= a <= b <= t.len(),
        forall|k: int| a <= k < b ==> t[k] != '\n',
        forall|k: int| 0 <= k < s.len() ==> s[k] != '\n',
    ensures
        line_count(spliced(t, a, b, s)) == line_count(t),
{
    let head = t.take(a);
    let tail = t.skip(b);
    let n = tail.len() as int;
    lemma_line_of_concat(head + s, tail, n);
    lemma_line_of_concat(head, s, s.len() as int);
    lemma_same_line(s, 0, s.len() as int);
    assert(t =~= t.take(b) + tail);
    lemma_line_of_concat(t.take(b), tail, n);
    lemma_same_line(t, a, b);
    lemma_line_of_prefix(t, head, a);
    lemma_line_of_prefix(t, t.take(b), b);
}

/// A text has as many characters as its parts.
pub proof fn lemma_spliced(t: Seq<char>, a: int, b: int, s: Seq<char>)
    requires
        0 <= a <= b <= t.len(),
    ensures
        spliced(t, a, b, s).len() == t.len() - (b - a) + s.len(),
        spliced(t, a, b, s).take(a) == t.take(a),
        spliced(t, a, b, s).subrange(a, a + s.len()) == s,
        spliced(t, a, b, s).skip((a + s.len()) as int) == t.skip(b),
{
    assert(spliced(t, a, b, s).take(a) =~= t.take(a));
    assert(spliced(t, a, b, s).subrange(a, a + s.len()) =~= s);
    assert(spliced(t, a, b, s).skip((a + s.len()) as int) =~= t.skip(b));
}

// ---- White space ----------------------------------------------------------

/// Whether `c` has the Unicode property `White_Space`.
pub open spec fn is_space(c: char) -> bool {
    ('\u{9}' <= c && c <= '\u{d}') || c == ' ' || c == '\u{85}' || c == '\u{a0}' || c == '\u{1680}'
        || ('\u{2000}' <= c && c <= '\u{200a}') || c == '\u{2028}' || c == '\u{2029}' || c
        == '\u{202f}' || c == '\u{205f}' || c == '\u{3000}'
}

/// Whether `c` has the Unicode property `White_Space`.
pub fn space(c: char) -> (r: bool)
    ensures
        r == is_space(c),
{
    ('\u{9}' <= c && c <= '\u{d}') || c == ' ' || c == '\u{85}' || c == '\u{a0}' || c == '\u{1680}'
        || ('\u{2000}' <= c && c <= '\u{200a}') || c == '\u{2028}' || c == '\u{2029}' || c
        == '\u{202f}' || c == '\u{205f}' || c == '\u{3000}'
}

/// The first position at or after `i` that is not white space.
pub open spec fn after_space(s: Seq<char>, i: int) -> int
    decreases s.len() - i,
{
    if i < s.len() && is_space(s[i]) {
        after_space(s, i + 1)
    } else {
        i
    }
}

/// The position after the last character before `j` that is not white space,
/// going back no further than `i`.
pub open spec fn before_space(s: Seq<char>, i: int, j: int) -> int
    decreases j - i,
{
    if j > i && is_space(s[j - 1]) {
        before_space(s, i, j - 1)
    } else {
        j
    }
}

/// `s` without white space in front.
pub open spec fn trimmed_start(s: Seq<char>) -> Seq<char> {
    s.skip(after_space(s, 0))
}

/// `s` without white space at either end.
pub open spec fn trimmed(s: Seq<char>) -> Seq<char> {
    let a = after_space(s, 0);
    s.subrange(a, before_space(s, a, s.len() as int))
}

/// `s` without white space in front.
pub fn trim_start<'a>(s: &'a str) -> (r: &'a str)
    ensures
        r@ == trimmed_start(s@),
{
    let chars: Vec<char> = chars_of(s);
    let mut a: usize = 0;
    while a < chars.len() && space(chars[a])
        invariant
            0 <= a <= chars@.len(),
            chars@ == s@,
            after_space(s@, 0) == after_space(s@, a as int),
        decreases chars@.len() - a,
    {
        a += 1;
    }
    assert(s@.subrange(a as int, s@.len() as int) =~= s@.skip(a as int));
    s.substring_char(a, chars.len())
}

/// `s` without white space at either end.
pub fn trim<'a>(s: &'a str) -> (r: &'a str)
    ensures
        r@ == trimmed(s@),
{
    let chars: Vec<char> = chars_of(s);
    let n: usize = chars.len();
    let mut a: usize = 0;
    while a < n && space(chars[a])
        invariant
            0 <= a <= n,
            n == chars@.len(),
            chars@ == s@,
            after_space(s@, 0) == after_space(s@, a as int),
        decreases n - a,
    {
        a += 1;
    }
    let mut b: usize = n;
    while b > a && space(chars[b - 1])
        invariant
            a <= b <= n,
            n == chars@.len(),
            chars@ == s@,
            before_space(s@, a as int, n as int) == before_space(s@, a as int, b as int),
        decreases b,
    {
        b -= 1;
    }
    s.substring_char(a, b)
}

// ---- Strings as characters ------------------------------------------------

/// The characters of `s`.
pub fn chars_of(s: &str) -> (r: Vec<char>)
    ensures
        r@ == s@,
{
    let mut v: Vec<char> = Vec::new();
    for c in it: s.chars()
        invariant
            v@ == it.seq().take(it.index() as int),
            it.seq() == s@,
    {
        v.push(c);
    }
    v
}

/// The characters of `v` from `a` up to `b`, as a string.
pub fn string_between(v: &Vec<char>, a: usize, b: usize) -> (r: String)
    requires
        a <= b <= v@.len(),
    ensures
        r@ == v@.subrange(a as int, b as int),
{
    let mut s: String = String::new();
    let mut i: usize = a;
    while i < b
        invariant
            a <= i <= b <= v@.len(),
            s@ == v@.subrange(a as int, i as int),
        decreases b - i,
    {
        s.push(v[i]);
        i += 1;
    }
    s
}

/// The characters of `v`, as a string.
pub fn string_of(v: &Vec<char>) -> (r: String)
    ensures
        r@ == v@,
{
    let s: String = string_between(v, 0, v.len());
    assert(v@.subrange(0, v@.len() as int) =~= v@);
    s
}

/// A copy of `s`.
pub fn copied(s: &str) -> (r: String)
    ensures
        r@ == s@,
{
    let mut out: String = String::new();
    out.push_str(s);
    assert(out@ =~= s@);
    out
}

/// How many characters `s` has.
pub fn char_count(s: &str) -> (n: usize)
    ensures
        n == s@.len(),
{
    chars_of(s).len()
}

/// Whether two strings hold the same characters.
pub fn same_text(a: &str, b: &str) -> (r: bool)
    ensures
        r == (a@ == b@),
{
    let x: Vec<char> = chars_of(a);
    let y: Vec<char> = chars_of(b);
    if x.len() != y.len() {
        return false;
    }
    let mut i: usize = 0;
    while i < x.len()
        invariant
            0 <= i <= x@.len() == y@.len(),
            x@ == a@,
            y@ == b@,
            forall|k: int| 0 <= k < i ==> x@[k] == y@[k],
        decreases x@.len() - i,
    {
        if x[i] != y[i] {
            assert(a@[i as int] != b@[i as int]);
            return false;
        }
        i += 1;
    }
    assert(a@ =~= b@);
    true
}

/// Whether the characters of `head` stand in `v` from `at` on.
pub fn stands_at(v: &Vec<char>, at: usize, head: &Vec<char>) -> (r: bool)
    requires
        at <= v@.len(),
    ensures
        r == head@.is_prefix_of(v@.skip(at as int)),
        r ==> at + head@.len() <= v@.len() <= usize::MAX,
{
    let ghost rest = v@.skip(at as int);
    let n: usize = v.len();
    if head.len() > n - at {
        return false;
    }
    let mut i: usize = 0;
    while i < head.len()
        invariant
            0 <= i <= head@.len() <= n - at,
            at <= n == v@.len(),
            rest == v@.skip(at as int),
            forall|k: int| 0 <= k < i ==> head@[k] == rest[k],
        decreases head@.len() - i,
    {
        if head[i] != v[at + i] {
            assert(head@[i as int] != rest.subrange(0, head@.len() as int)[i as int]);
            return false;
        }
        i += 1;
    }
    assert(rest.subrange(0, head@.len() as int) =~= head@);
    true
}

/// The first place at or after `i` where `lit` stands.
pub open spec fn next_stand(s: Seq<char>, lit: Seq<char>, i: int) -> Option<int>
    decreases s.len() - i,
{
    if i + lit.len() > s.len() {
        None
    } else if lit.is_prefix_of(s.skip(i)) {
        Some(i)
    } else {
        next_stand(s, lit, i + 1)
    }
}

/// The first place at or after `i` where `lit` stands.
pub fn find_stand(v: &Vec<char>, lit: &Vec<char>, i: usize) -> (r: Option<usize>)
    requires
        i <= v@.len(),
    ensures
        match r {
            Some(k) => next_stand(v@, lit@, i as int) == Some(k as int) && i <= k && k + lit@.len()
                <= v@.len() <= usize::MAX,
            None => next_stand(v@, lit@, i as int) is None,
        },
{
    let n: usize = v.len();
    let m: usize = lit.len();
    let mut k: usize = i;
    while m <= n - k
        invariant
            i <= k <= n,
            n == v@.len(),
            m == lit@.len(),
            next_stand(v@, lit@, i as int) == next_stand(v@, lit@, k as int),
        decreases n - k,
    {
        if stands_at(v, k, lit) {
            return Some(k);
        }
        if k == n {
            return None;
        }
        k += 1;
    }
    None
}

// ---- Lists of strings -----------------------------------------------------

/// What strings hold.
pub open spec fn views(v: Seq<String>) -> Seq<Seq<char>> {
    v.map_values(|s: String| s@)
}

/// The pieces one after the other, with `sep` between every two.
pub open spec fn joined_with(pieces: Seq<Seq<char>>, sep: Seq<char>) -> Seq<char>
    decreases pieces.len(),
{
    if pieces.len() == 0 {
        Seq::empty()
    } else if pieces.len() == 1 {
        pieces[0]
    } else {
        joined_with(pieces.drop_last(), sep) + sep + pieces.last()
    }
}

/// The pieces that `sep` cuts `s` into: one more than there are `sep`s.
pub open spec fn pieces_of(s: Seq<char>, sep: char) -> Seq<Seq<char>>
    decreases s.len(),
{
    if s.len() == 0 {
        seq![Seq::empty()]
    } else {
        let rest = pieces_of(s.drop_last(), sep);
        if s.last() == sep {
            rest.push(Seq::empty())
        } else {
            rest.drop_last().push(rest.last().push(s.last()))
        }
    }
}

/// The strings one after the other, with `sep` between every two.
pub fn join_with(v: &[String], sep: &str) -> (r: String)
    ensures
        r@ == joined_with(views(v@), sep@),
{
    let ghost all = views(v@);
    let mut out: String = String::new();
    let mut i: usize = 0;
    assert(all.take(0) =~= Seq::empty());
    while i < v.len()
        invariant
            0 <= i <= v@.len(),
            all == views(v@),
            out@ == joined_with(all.take(i as int), sep@),
        decreases v@.len() - i,
    {
        let ghost so_far = all.take(i + 1);
        assert(so_far.drop_last() =~= all.take(i as int));
        assert(so_far.last() == v@[i as int]@);
        if i > 0 {
            out.push_str(sep);
        }
        out.push_str(v[i].as_str());
        assert(out@ =~= joined_with(so_far, sep@));
        i += 1;
    }
    assert(all.take(v@.len() as int) =~= all);
    out
}

/// The pieces that `sep` cuts `s` into.
pub fn split_on(s: &str, sep: char) -> (r: Vec<String>)
    ensures
        views(r@) == pieces_of(s@, sep),
{
    let chars: Vec<char> = chars_of(s);
    let mut out: Vec<String> = Vec::new();
    let mut piece: String = String::new();
    let mut i: usize = 0;
    assert(s@.take(0) =~= Seq::empty());
    while i < chars.len()
        invariant
            0 <= i <= chars@.len(),
            chars@ == s@,
            views(out@).push(piece@) == pieces_of(s@.take(i as int), sep),
        decreases chars@.len() - i,
    {
        let ghost so_far = s@.take(i + 1);
        let ghost before = views(out@);
        let ghost had = piece@;
        assert(so_far.drop_last() =~= s@.take(i as int));
        assert(before.push(had).drop_last() =~= before);
        if chars[i] == sep {
            out.push(piece);
            piece = String::new();
            assert(views(out@) =~= before.push(had));
        } else {
            piece.push(chars[i]);
        }
        assert(views(out@).push(piece@) =~= pieces_of(so_far, sep));
        i += 1;
    }
    let ghost before = views(out@);
    out.push(piece);
    assert(views(out@) =~= before.push(piece@));
    assert(s@.take(chars@.len() as int) =~= s@);
    out
}

} // verus!
