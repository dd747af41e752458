//! The rope a buffer's text is kept in.
//!
//! A rope is known here by the characters it holds, [`rope_chars`]. Each
//! function below makes one call of the `ropey` crate, which is built without
//! its line break features: the only line break is `'\n'`.

use vstd::prelude::*;
use ropey::Rope;
use crate::text::{line_count, line_of, line_start, line_text, spliced};

verus! {

/// `ropey::Rope`, carried as it is.
#[verifier::external_type_specification]
#[verifier::external_body]
pub struct ExRope(ropey::Rope);

/// The characters of a rope, first to last.
pub uninterp spec fn rope_chars(rope: Rope) -> Seq<char>;

/// `Rope::from_str`: the rope holds the characters of `s`.
#[verifier::external_body]
pub(crate) fn rope_from(s: &str) -> (rope: Rope)
    ensures
        rope_chars(rope) == s@,
{
    Rope::from_str(s)
}

/// `Rope::clone`: the copy holds the same characters.
#[verifier::external_body]
pub(crate) fn rope_clone(rope: &Rope) -> (copy: Rope)
    ensures
        rope_chars(copy) == rope_chars(*rope),
{
    rope.clone()
}

/// `Rope::len_chars` counts the characters.
#[verifier::external_body]
pub(crate) fn rope_len(rope: &Rope) -> (n: usize)
    ensures
        n == rope_chars(*rope).len(),
{
    rope.len_chars()
}

/// `Rope::char` reads one character. It panics past the end.
#[verifier::external_body]
pub(crate) fn rope_char(rope: &Rope, i: usize) -> (c: char)
    requires
        i < rope_chars(*rope).len(),
    ensures
        c == rope_chars(*rope)[i as int],
{
    rope.char(i)
}

/// `Rope::len_lines` counts the line breaks, and one more.
#[verifier::external_body]
pub(crate) fn rope_lines(rope: &Rope) -> (n: usize)
    ensures
        n == line_count(rope_chars(*rope)),
{
    rope.len_lines()
}

/// `Rope::char_to_line` counts the line breaks before a position, which may be
/// the end of the text. It panics beyond that.
#[verifier::external_body]
pub(crate) fn rope_char_to_line(rope: &Rope, i: usize) -> (l: usize)
    requires
        i <= rope_chars(*rope).len(),
    ensures
        l == line_of(rope_chars(*rope), i as int),
{
    rope.char_to_line(i)
}

/// `Rope::line_to_char` is the position at which a line begins; for the line
/// after the last it is the end of the text. It panics beyond that.
#[verifier::external_body]
pub(crate) fn rope_line_to_char(rope: &Rope, l: usize) -> (i: usize)
    requires
        l <= line_count(rope_chars(*rope)),
    ensures
        i == line_start(rope_chars(*rope), l as int),
{
    rope.line_to_char(l)
}

/// `Rope::line` is one line with the break that ends it. It panics past the
/// last line.
#[verifier::external_body]
pub(crate) fn rope_line(rope: &Rope, l: usize) -> (s: String)
    requires
        l < line_count(rope_chars(*rope)),
    ensures
        s@ == line_text(rope_chars(*rope), l as int),
{
    rope.line(l).to_string()
}

/// `Rope::slice` is the text from `a` up to `b`. It panics where `a..b` is not
/// a range of the text.
#[verifier::external_body]
pub(crate) fn rope_slice(rope: &Rope, a: usize, b: usize) -> (s: String)
    requires
        a <= b <= rope_chars(*rope).len(),
    ensures
        s@ == rope_chars(*rope).subrange(a as int, b as int),
{
    rope.slice(a..b).to_string()
}

/// `Rope::insert` puts `s` in at `i`, which may be the end. It panics beyond
/// that.
#[verifier::external_body]
pub(crate) fn rope_insert(rope: &mut Rope, i: usize, s: &str)
    requires
        i <= rope_chars(*old(rope)).len(),
    ensures
        rope_chars(*final(rope)) == spliced(rope_chars(*old(rope)), i as int, i as int, s@),
{
    rope.insert(i, s)
}

/// `Rope::remove` takes `a..b` out. It panics where that is not a range of the
/// text.
#[verifier::external_body]
pub(crate) fn rope_remove(rope: &mut Rope, a: usize, b: usize)
    requires
        a <= b <= rope_chars(*old(rope)).len(),
    ensures
        rope_chars(*final(rope)) == spliced(
            rope_chars(*old(rope)),
            a as int,
            b as int,
            Seq::<char>::empty(),
        ),
{
    rope.remove(a..b)
}

} // verus!
