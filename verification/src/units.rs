//! The units a text is read in: words, clauses, sentences, paragraphs.

use vstd::prelude::*;
use ropey::Rope;
use crate::rope::{rope_char, rope_chars, rope_len};
use crate::text::{is_space, space};

verus! {

/// What a reader steps by.
#[derive(Debug, Clone, Copy, PartialEq, Eq, Structural)]
pub enum Unit {
    /// A word with the space after it. A 漢字 is a word.
    Word,
    /// What stands between two marks, with the space before it.
    Clause,
    /// The same without the space.
    ClauseHead,
    /// Up to a full stop and the quotes it closes, or the end of the line.
    Sentence,
    /// A line.
    Paragraph,
}

/// What kind of character it is, as far as words go.
#[derive(Debug, Clone, Copy, PartialEq, Eq, Structural)]
pub enum Class {
    Space,
    Han,
    Mark,
    Letter,
}

/// Whether `c` is a 漢字: the unified ideographs with their extensions and
/// compatibility forms, 〇 and 々.
pub open spec fn is_han(c: char) -> bool {
    ('\u{4e00}' <= c && c <= '\u{9fff}') || ('\u{3400}' <= c && c <= '\u{4dbf}') || ('\u{f900}' <= c
        && c <= '\u{faff}') || ('\u{20000}' <= c && c <= '\u{323af}') || c == '〇' || c == '々'
}

/// Whether `c` is a punctuation mark.
pub open spec fn is_mark(c: char) -> bool {
    ('!' <= c && c <= '/') || (':' <= c && c <= '@') || ('[' <= c && c <= '^') || c == '`' || ('{'
        <= c && c <= '~') || ('\u{a1}' <= c && c <= '\u{bf}') || ('\u{2010}' <= c && c
        <= '\u{205e}') || ('\u{3001}' <= c && c <= '\u{3003}') || ('\u{3008}' <= c && c
        <= '\u{301f}') || c == '\u{30fb}' || ('\u{fe10}' <= c && c <= '\u{fe6b}') || ('\u{ff01}'
        <= c && c <= '\u{ff0f}') || ('\u{ff1a}' <= c && c <= '\u{ff20}') || ('\u{ff3b}' <= c && c
        <= '\u{ff3e}') || c == '\u{ff40}' || ('\u{ff5b}' <= c && c <= '\u{ff65}')
}

/// What kind of character it is.
pub open spec fn class_of(c: char) -> Class {
    if is_space(c) {
        Class::Space
    } else if is_han(c) {
        Class::Han
    } else if is_mark(c) {
        Class::Mark
    } else {
        Class::Letter
    }
}

/// Whether `c` ends a sentence.
pub open spec fn is_stop(c: char) -> bool {
    c == '。' || c == '！' || c == '？' || c == '.' || c == '!' || c == '?' || c == '…'
}

/// Whether `c` closes what a sentence may end in.
pub open spec fn is_closer(c: char) -> bool {
    c == '」' || c == '』' || c == '”' || c == '’' || c == '）' || c == ')' || c == '"' || c == '》'
        || c == '〉' || c == '】'
}

/// Whether what stands before `i` is a stop, or closes what a stop ends.
pub open spec fn after_stop(t: Seq<char>, i: int) -> bool
    decreases i,
{
    i > 0 && (is_stop(t[i - 1]) || (is_closer(t[i - 1]) && after_stop(t, i - 1)))
}

/// Whether a unit ends, and another begins, between `i - 1` and `i`.
pub open spec fn parts_at(u: Unit, t: Seq<char>, i: int) -> bool {
    let (a, b) = (class_of(t[i - 1]), class_of(t[i]));
    match u {
        Unit::Word => b != Class::Space && (a != b || b == Class::Han),
        Unit::Clause => a != Class::Space && (b == Class::Space || (a == Class::Mark) != (b
            == Class::Mark)),
        Unit::ClauseHead => b != Class::Space && (a == Class::Space || (a == Class::Mark) != (b
            == Class::Mark)),
        Unit::Sentence => t[i - 1] == '\n' || (!is_stop(t[i]) && !is_closer(t[i]) && after_stop(
            t,
            i,
        )),
        Unit::Paragraph => t[i - 1] == '\n',
    }
}

/// Where the unit ends that `i` is in: the first parting after `i`, or the end
/// of the text.
pub open spec fn unit_end(u: Unit, t: Seq<char>, i: int) -> int
    decreases t.len() - i,
{
    if i + 1 >= t.len() {
        t.len() as int
    } else if parts_at(u, t, i + 1) {
        i + 1
    } else {
        unit_end(u, t, i + 1)
    }
}

/// The last beginning of a unit before `i`.
pub open spec fn unit_start(u: Unit, t: Seq<char>, i: int) -> int
    decreases i,
{
    if i <= 1 {
        0
    } else if parts_at(u, t, i - 1) {
        i - 1
    } else {
        unit_start(u, t, i - 1)
    }
}

/// Whether `c` is a 漢字.
pub fn han(c: char) -> (r: bool)
    ensures
        r == is_han(c),
{
    ('\u{4e00}' <= c && c <= '\u{9fff}') || ('\u{3400}' <= c && c <= '\u{4dbf}') || ('\u{f900}' <= c
        && c <= '\u{faff}') || ('\u{20000}' <= c && c <= '\u{323af}') || c == '〇' || c == '々'
}

/// Whether `c` is a punctuation mark.
pub fn mark(c: char) -> (r: bool)
    ensures
        r == is_mark(c),
{
    ('!' <= c && c <= '/') || (':' <= c && c <= '@') || ('[' <= c && c <= '^') || c == '`' || ('{'
        <= c && c <= '~') || ('\u{a1}' <= c && c <= '\u{bf}') || ('\u{2010}' <= c && c
        <= '\u{205e}') || ('\u{3001}' <= c && c <= '\u{3003}') || ('\u{3008}' <= c && c
        <= '\u{301f}') || c == '\u{30fb}' || ('\u{fe10}' <= c && c <= '\u{fe6b}') || ('\u{ff01}'
        <= c && c <= '\u{ff0f}') || ('\u{ff1a}' <= c && c <= '\u{ff20}') || ('\u{ff3b}' <= c && c
        <= '\u{ff3e}') || c == '\u{ff40}' || ('\u{ff5b}' <= c && c <= '\u{ff65}')
}

/// What kind of character it is.
pub fn class(c: char) -> (r: Class)
    ensures
        r == class_of(c),
{
    if space(c) {
        Class::Space
    } else if han(c) {
        Class::Han
    } else if mark(c) {
        Class::Mark
    } else {
        Class::Letter
    }
}

/// Whether `c` ends a sentence.
fn stop(c: char) -> (r: bool)
    ensures
        r == is_stop(c),
{
    c == '。' || c == '！' || c == '？' || c == '.' || c == '!' || c == '?' || c == '…'
}

/// Whether `c` closes what a sentence may end in.
fn closer(c: char) -> (r: bool)
    ensures
        r == is_closer(c),
{
    c == '」' || c == '』' || c == '”' || c == '’' || c == '）' || c == ')' || c == '"' || c == '》'
        || c == '〉' || c == '】'
}

/// Whether what stands before `i` is a stop, or closes what a stop ends.
fn stands_after_stop(rope: &Rope, i: usize) -> (r: bool)
    requires
        i <= rope_chars(*rope).len(),
    ensures
        r == after_stop(rope_chars(*rope), i as int),
{
    let mut k: usize = i;
    while k > 0 && !stop(rope_char(rope, k - 1)) && closer(rope_char(rope, k - 1))
        invariant
            k <= i <= rope_chars(*rope).len(),
            after_stop(rope_chars(*rope), i as int) == after_stop(rope_chars(*rope), k as int),
        decreases k,
    {
        k -= 1;
    }
    k > 0 && stop(rope_char(rope, k - 1))
}

/// Whether a unit ends, and another begins, between `i - 1` and `i`.
fn units_part_at(u: Unit, rope: &Rope, i: usize) -> (r: bool)
    requires
        0 < i < rope_chars(*rope).len(),
    ensures
        r == parts_at(u, rope_chars(*rope), i as int),
{
    let x: char = rope_char(rope, i - 1);
    let y: char = rope_char(rope, i);
    let a: Class = class(x);
    let b: Class = class(y);
    match u {
        Unit::Word => b != Class::Space && (a != b || b == Class::Han),
        Unit::Clause => a != Class::Space && (b == Class::Space || (a == Class::Mark) != (b
            == Class::Mark)),
        Unit::ClauseHead => b != Class::Space && (a == Class::Space || (a == Class::Mark) != (b
            == Class::Mark)),
        Unit::Sentence => x == '\n' || (!stop(y) && !closer(y) && stands_after_stop(rope, i)),
        Unit::Paragraph => x == '\n',
    }
}

/// Where the unit ends that `i` is in.
pub fn find_unit_end(u: Unit, rope: &Rope, i: usize) -> (r: usize)
    requires
        i <= rope_chars(*rope).len(),
    ensures
        r == unit_end(u, rope_chars(*rope), i as int),
        i <= r <= rope_chars(*rope).len(),
        i < rope_chars(*rope).len() ==> i < r,
{
    let n: usize = rope_len(rope);
    let mut k: usize = i;
    while k < n && k + 1 < n && !units_part_at(u, rope, k + 1)
        invariant
            i <= k <= n,
            n == rope_chars(*rope).len(),
            unit_end(u, rope_chars(*rope), i as int) == unit_end(u, rope_chars(*rope), k as int),
        decreases n - k,
    {
        k += 1;
    }
    if k < n && k + 1 < n {
        k + 1
    } else {
        n
    }
}

/// The last beginning of a unit before `i`.
pub fn find_unit_start(u: Unit, rope: &Rope, i: usize) -> (r: usize)
    requires
        i <= rope_chars(*rope).len(),
    ensures
        r == unit_start(u, rope_chars(*rope), i as int),
        r <= i,
        0 < i ==> r < i,
{
    let mut k: usize = i;
    while k > 1 && !units_part_at(u, rope, k - 1)
        invariant
            k <= i <= rope_chars(*rope).len(),
            0 < i ==> 0 < k,
            unit_start(u, rope_chars(*rope), i as int) == unit_start(
                u,
                rope_chars(*rope),
                k as int,
            ),
        decreases k,
    {
        k -= 1;
    }
    if k <= 1 {
        0
    } else {
        k - 1
    }
}

} // verus!
