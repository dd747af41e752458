//! Upper and lower case.

use vstd::prelude::*;
use crate::editor::{Editor, EditorView};
use crate::pairs::one;
use crate::text::same_text;

verus! {

/// A character in upper case; it may be more than one.
pub uninterp spec fn uppercase(c: char) -> Seq<char>;

/// A character in lower case; it may be more than one.
pub uninterp spec fn lowercase(c: char) -> Seq<char>;

/// `char::to_uppercase`: the upper case of a character after Unicode's tables.
#[verifier::external_body]
pub(crate) fn upper(c: char) -> (s: String)
    ensures
        s@ == uppercase(c),
{
    c.to_uppercase().to_string()
}

/// `char::to_lowercase`: the lower case of a character after Unicode's tables.
#[verifier::external_body]
pub(crate) fn lower(c: char) -> (s: String)
    ensures
        s@ == lowercase(c),
{
    c.to_lowercase().to_string()
}

/// What is done to the case of a text.
#[derive(Debug, Clone, Copy, PartialEq, Eq, Structural)]
pub enum Case {
    Lower,
    Upper,
    Swap,
}

/// Whether a character has a lower case of its own.
pub open spec fn is_capital(c: char) -> bool {
    lowercase(c) != seq![c]
}

/// A character in another case.
pub open spec fn cased(case: Case, c: char) -> Seq<char> {
    match case {
        Case::Lower => lowercase(c),
        Case::Upper => uppercase(c),
        Case::Swap => if is_capital(c) {
            lowercase(c)
        } else {
            uppercase(c)
        },
    }
}

/// Whether a character has a lower case of its own.
pub(crate) fn capital(c: char) -> (r: bool)
    ensures
        r == is_capital(c),
{
    !same_text(lower(c).as_str(), one(c).as_str())
}

/// A character in another case.
pub(crate) fn in_case(case: Case, c: char) -> (s: String)
    ensures
        s@ == cased(case, c),
{
    match case {
        Case::Lower => lower(c),
        Case::Upper => upper(c),
        Case::Swap => if capital(c) {
            lower(c)
        } else {
            upper(c)
        },
    }
}

impl EditorView {
    /// With the case of what is selected changed.
    pub open spec fn casing(self, case: Case) -> EditorView {
        self.mapping(|c: char| cased(case, c))
    }
}

impl Editor {
    /// Changes the case of what is selected.
    pub fn change_case(&mut self, case: Case)
        requires
            old(self).wf(),
        ensures
            final(self).wf(),
            final(self)@ == old(self)@.casing(case),
    {
        let ghost g = |c: char| cased(case, c);
        let ghost want = self@.mapping(g);
        let f = |c: char| -> (s: String)
            ensures
                s@ == cased(case, c),
        {
            in_case(case, c)
        };
        self.map_selection(f);
        assert(want == old(self)@.mapping(g));
    }
}

} // verus!
