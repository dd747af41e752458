//! What the page draws without its being written.

use vstd::prelude::*;
use crate::buffer::{Block, line_body};
use crate::editor::{Editor, EditorView, run_views};
use crate::rope::rope_line_to_char;
use crate::state::Render;
use crate::text::{lemma_line_around, line_count, line_start, string_of};
use crate::units::{han, is_han};

verus! {

/// The mark that should stand in place of a narrow one.
pub open spec fn right_mark(c: char) -> Option<char> {
    if c == ',' {
        Some('，')
    } else if c == '.' {
        Some('。')
    } else if c == '?' {
        Some('？')
    } else if c == '!' {
        Some('！')
    } else if c == ':' {
        Some('：')
    } else if c == ';' {
        Some('；')
    } else {
        None
    }
}

/// Whether a narrow mark stands at `i` after a han character.
pub open spec fn is_wrong(line: Seq<char>, i: int) -> bool {
    right_mark(line[i]) is Some && i > 0 && is_han(line[i - 1])
}

/// The notes on the first `k` characters of a line: after every mark that is
/// wrong, the one it should be.
pub open spec fn notes_on(line: Seq<char>, k: int) -> Seq<(usize, Seq<char>)>
    decreases k,
{
    if k <= 0 {
        Seq::empty()
    } else if is_wrong(line, k - 1) {
        notes_on(line, k - 1).push((k as usize, seq![right_mark(line[k - 1])->0]))
    } else {
        notes_on(line, k - 1)
    }
}

/// The candidates on line `l` among the first `k`.
pub open spec fn candidates_on(
    v: Seq<(usize, usize, Seq<char>)>,
    l: int,
    k: int,
) -> Seq<(usize, Seq<char>)>
    decreases k,
{
    if k <= 0 {
        Seq::empty()
    } else if v[k - 1].0 == l {
        candidates_on(v, l, k - 1).push((v[k - 1].1, v[k - 1].2))
    } else {
        candidates_on(v, l, k - 1)
    }
}

/// The first place at or after `k` whose column is beyond `column`.
pub open spec fn place_for(v: Seq<(usize, Seq<char>)>, column: usize, k: int) -> int
    decreases v.len() - k,
{
    if k >= v.len() {
        v.len() as int
    } else if v[k].0 > column {
        k
    } else {
        place_for(v, column, k + 1)
    }
}

/// The first `k` runs in the order of their columns; those of one column as
/// they came.
pub open spec fn arranged(v: Seq<(usize, Seq<char>)>, k: int) -> Seq<(usize, Seq<char>)>
    decreases k,
{
    if k <= 0 {
        Seq::empty()
    } else {
        let rest = arranged(v, k - 1);
        rest.insert(place_for(rest, v[k - 1].0, 0), v[k - 1])
    }
}

/// What runs on a line hold.
pub open spec fn drawn_views(v: Seq<(usize, String)>) -> Seq<(usize, Seq<char>)> {
    v.map_values(|r: (usize, String)| (r.0, r.1@))
}

impl EditorView {
    /// Whether the marks of line `l` are noted: on prose, where the page is not
    /// the file as it is.
    pub open spec fn is_noted(self, l: int) -> bool {
        self.settings.notes && self.settings.render != Render::Off && 0 <= l < line_count(
            self.text(),
        ) && self.block_of(l) == Block::Prose
    }

    /// What is drawn on line `l`.
    pub open spec fn drawn_on(self, l: int) -> Seq<(usize, Seq<char>)> {
        let line = line_body(self.text(), l);
        let all = candidates_on(self.candidate, l, self.candidate.len() as int) + (if self.is_noted(
            l,
        ) {
            notes_on(line, line.len() as int)
        } else {
            Seq::empty()
        });
        arranged(all, all.len() as int)
    }
}

/// The mark that should stand in place of a narrow one.
fn find_right_mark(c: char) -> (r: Option<char>)
    ensures
        r == right_mark(c),
{
    if c == ',' {
        Some('，')
    } else if c == '.' {
        Some('。')
    } else if c == '?' {
        Some('？')
    } else if c == '!' {
        Some('！')
    } else if c == ':' {
        Some('：')
    } else if c == ';' {
        Some('；')
    } else {
        None
    }
}

/// Puts a run where its column belongs.
fn place(v: &mut Vec<(usize, String)>, column: usize, text: String)
    ensures
        drawn_views(final(v)@) == drawn_views(old(v)@).insert(
            place_for(drawn_views(old(v)@), column, 0),
            (column, text@),
        ),
{
    let ghost all = drawn_views(v@);
    let mut k: usize = 0;
    while k < v.len() && v[k].0 <= column
        invariant
            0 <= k <= v@.len(),
            *v == *old(v),
            all == drawn_views(v@),
            place_for(all, column, 0) == place_for(all, column, k as int),
        decreases v@.len() - k,
    {
        assert(all[k as int].0 == v@[k as int].0);
        k += 1;
    }
    if k < v.len() {
        assert(all[k as int].0 == v@[k as int].0);
    }
    let ghost run = (column, text@);
    v.insert(k, (column, text));
    assert(drawn_views(v@) =~= all.insert(k as int, run));
}

impl Editor {
    /// Draws candidates on the page: line, column and text. They take the place
    /// of those before.
    pub fn set_candidate(&mut self, runs: Vec<(usize, usize, String)>)
        requires
            old(self).wf(),
        ensures
            final(self).wf(),
            final(self)@ == (EditorView { candidate: run_views(runs@), ..old(self)@ }),
    {
        self.candidate = runs;
    }

    /// Whether there is a candidate on the page.
    pub fn has_candidate(&self) -> (r: bool)
        ensures
            r == (self@.candidate.len() > 0),
    {
        assert(self@.candidate.len() == self.candidate@.len());
        self.candidate.len() > 0
    }

    /// Whether marks that are written wrong are noted.
    pub fn notes(&self) -> (r: bool)
        ensures
            r == self@.settings.notes,
    {
        self.settings.notes
    }

    /// What is drawn on line `l`: column and text.
    pub fn drawn_on_line(&self, l: usize) -> (r: Vec<(usize, String)>)
        requires
            self.wf(),
        ensures
            drawn_views(r@) == self@.drawn_on(l as int),
    {
        let ghost runs = self@.candidate;
        let ghost few = candidates_on(runs, l as int, runs.len() as int);
        let mut r: Vec<(usize, String)> = Vec::new();
        let ghost mut all: Seq<(usize, Seq<char>)> = Seq::empty();
        let mut k: usize = 0;
        assert(drawn_views(r@) =~= Seq::empty());
        while k < self.candidate.len()
            invariant
                0 <= k <= self.candidate@.len(),
                runs == run_views(self.candidate@),
                all == candidates_on(runs, l as int, k as int),
                drawn_views(r@) == arranged(all, all.len() as int),
            decreases self.candidate@.len() - k,
        {
            assert(runs[k as int] == (
                self.candidate@[k as int].0,
                self.candidate@[k as int].1,
                self.candidate@[k as int].2@,
            ));
            if self.candidate[k].0 == l {
                let text: String = crate::text::copied(self.candidate[k].2.as_str());
                proof {
                    let ghost run = (self.candidate@[k as int].1, text@);
                    lemma_arranged_more(all, run);
                    all = all.push(run);
                }
                place(&mut r, self.candidate[k].1, text);
            }
            k += 1;
        }
        assert(all == few);
        let noted: bool = self.settings.notes && self.settings.render != Render::Off && l
            < self.current_buffer().line_count() && self.block_of(l) == Block::Prose;
        if noted {
            let line: Vec<char> = self.current_buffer().line_chars(l);
            let mut i: usize = 0;
            assert(all + notes_on(line@, 0) =~= all);
            let ghost first = all;
            while i < line.len()
                invariant
                    0 <= i <= line@.len(),
                    all == first + notes_on(line@, i as int),
                    drawn_views(r@) == arranged(all, all.len() as int),
                decreases line@.len() - i,
            {
                match find_right_mark(line[i]) {
                    Some(c) => {
                        if i > 0 && han(line[i - 1]) {
                            let text: String = crate::pairs::one(c);
                            proof {
                                let ghost run = ((i + 1) as usize, text@);
                                lemma_arranged_more(all, run);
                                assert(all.push(run) =~= first + notes_on(line@, i + 1));
                                all = all.push(run);
                            }
                            place(&mut r, i + 1, text);
                        }
                    },
                    None => {},
                }
                i += 1;
            }
        } else {
            assert(few + Seq::<(usize, Seq<char>)>::empty() =~= few);
        }
        r
    }

    /// The column that the cursor is at on its line, counted in characters.
    pub fn cursor_column(&self) -> (c: usize)
        requires
            self.wf(),
        ensures
            c == self@.cursor - line_start(self@.text(), self@.cursor_line()),
    {
        proof {
            lemma_line_around(self@.text(), self@.cursor);
        }
        let l: usize = self.cursor_line();
        let start: usize = rope_line_to_char(self.rope(), l);
        self.cursor - start
    }

    /// Line `l` without its break.
    pub fn line_text(&self, l: usize) -> (r: Option<String>)
        requires
            self.wf(),
        ensures
            match r {
                Some(s) => l < line_count(self@.text()) && s@ == line_body(self@.text(), l as int),
                None => l >= line_count(self@.text()),
            },
    {
        if l < self.current_buffer().line_count() {
            let line: Vec<char> = self.current_buffer().line_chars(l);
            Some(string_of(&line))
        } else {
            None
        }
    }
}

proof fn lemma_arranged_more(v: Seq<(usize, Seq<char>)>, run: (usize, Seq<char>))
    ensures
        arranged(v.push(run), v.len() as int + 1) == ({
            let rest = arranged(v, v.len() as int);
            rest.insert(place_for(rest, run.0, 0), run)
        }),
{
    lemma_arranged_prefix(v, run, v.len() as int);
}

proof fn lemma_arranged_prefix(v: Seq<(usize, Seq<char>)>, run: (usize, Seq<char>), k: int)
    requires
        k <= v.len(),
    ensures
        arranged(v.push(run), k) == arranged(v, k),
    decreases k,
{
    if k > 0 {
        lemma_arranged_prefix(v, run, k - 1);
        assert(v.push(run)[k - 1] == v[k - 1]);
    }
}

} // verus!
