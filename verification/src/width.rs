//! How many columns a character takes.

use vstd::prelude::*;
use unicode_width::UnicodeWidthChar;

verus! {

/// The columns a character takes on a page; `None` for a control character.
pub uninterp spec fn columns(c: char) -> Option<usize>;

/// `UnicodeWidthChar::width`: the displayed width of a character after
/// Unicode's East Asian Width, a table over single characters.
#[verifier::external_body]
pub(crate) fn char_columns(c: char) -> (w: Option<usize>)
    ensures
        w == columns(c),
{
    UnicodeWidthChar::width(c)
}

/// Whether a character is full-width, as 漢字 and kana are.
pub open spec fn wide(c: char) -> bool {
    columns(c) == Some(2usize)
}

/// Whether a character is full-width.
pub fn is_wide(c: char) -> (r: bool)
    ensures
        r == wide(c),
{
    match char_columns(c) {
        Some(w) => w == 2,
        None => false,
    }
}

} // verus!
