//! How much was written.

use vstd::prelude::*;
use crate::editor::{Editor, EditorView};
use crate::ruby::{plain_from, without_readings};
use crate::say;
use crate::text::{chars_of, is_space, pieces_of, space, split_on, views};
use crate::units::{han, is_han};

verus! {

/// How many of the first `k` characters are han.
pub open spec fn han_in(s: Seq<char>, k: int) -> int
    decreases k,
{
    if k <= 0 {
        0
    } else if is_han(s[k - 1]) {
        han_in(s, k - 1) + 1
    } else {
        han_in(s, k - 1)
    }
}

/// How many of the first `k` characters are written: those that are not white
/// space.
pub open spec fn written_in(s: Seq<char>, k: int) -> int
    decreases k,
{
    if k <= 0 {
        0
    } else if is_space(s[k - 1]) {
        written_in(s, k - 1)
    } else {
        written_in(s, k - 1) + 1
    }
}

/// How many of the first `k` lines have something written on them.
pub open spec fn paragraphs_in(lines: Seq<Seq<char>>, k: int) -> int
    decreases k,
{
    if k <= 0 {
        0
    } else if written_in(lines[k - 1], lines[k - 1].len() as int) > 0 {
        paragraphs_in(lines, k - 1) + 1
    } else {
        paragraphs_in(lines, k - 1)
    }
}

impl EditorView {
    /// What is counted: what is selected, else the whole text, without its
    /// readings.
    pub open spec fn counted_text(self) -> Seq<char> {
        plain_from(
            if self.anchor != self.cursor {
                self.selected()
            } else {
                self.text()
            },
            0,
        )
    }

    /// With the count of what was written said.
    #[verifier::opaque]
    pub open spec fn reporting_count(self) -> EditorView {
        let s = self.counted_text();
        let lines = pieces_of(s, '\n');
        let n = s.len() as int;
        self.saying(
            say::count_report_text(
                if self.anchor != self.cursor {
                    say::count_selection_text()
                } else {
                    say::count_whole_text()
                },
                han_in(s, n) as nat,
                written_in(s, n) as nat,
                paragraphs_in(lines, lines.len() as int) as nat,
            ),
        )
    }
}

/// How many characters are han, and how many are written.
fn count_chars(v: &Vec<char>) -> (r: (usize, usize))
    ensures
        r.0 == han_in(v@, v@.len() as int),
        r.1 == written_in(v@, v@.len() as int),
{
    let mut h: usize = 0;
    let mut w: usize = 0;
    let mut i: usize = 0;
    while i < v.len()
        invariant
            0 <= i <= v@.len(),
            h <= i,
            w <= i,
            h == han_in(v@, i as int),
            w == written_in(v@, i as int),
        decreases v@.len() - i,
    {
        if han(v[i]) {
            h += 1;
        }
        if !space(v[i]) {
            w += 1;
        }
        i += 1;
    }
    (h, w)
}

/// How many lines have something written on them.
fn count_paragraphs(lines: &Vec<String>) -> (n: usize)
    ensures
        n == paragraphs_in(views(lines@), lines@.len() as int),
{
    let ghost all = views(lines@);
    let mut n: usize = 0;
    let mut i: usize = 0;
    while i < lines.len()
        invariant
            0 <= i <= lines@.len(),
            all == views(lines@),
            n <= i,
            n == paragraphs_in(all, i as int),
        decreases lines@.len() - i,
    {
        let v: Vec<char> = chars_of(lines[i].as_str());
        assert(all[i as int] == v@);
        let (_, w) = count_chars(&v);
        if w > 0 {
            n += 1;
        }
        i += 1;
    }
    n
}

impl Editor {
    /// `:count`: says how much was written.
    pub fn report_count(&mut self)
        requires
            old(self).wf(),
        ensures
            final(self).wf(),
            final(self)@ == old(self)@.reporting_count(),
    {
        proof {
            reveal(EditorView::reporting_count);
        }
        let some: bool = self.anchor != self.cursor;
        let all: String = if some {
            self.selected_text()
        } else {
            self.current_buffer().text()
        };
        let s: String = without_readings(all.as_str());
        let v: Vec<char> = chars_of(s.as_str());
        let (h, w) = count_chars(&v);
        let lines: Vec<String> = split_on(s.as_str(), '\n');
        let n: usize = count_paragraphs(&lines);
        let scope: String = if some {
            say::count_selection()
        } else {
            say::count_whole()
        };
        self.say(say::count_report(scope.as_str(), h, w, n));
    }
}

} // verus!
