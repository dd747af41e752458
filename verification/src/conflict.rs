//! Merge conflicts: what two branches wrote in one place.

use vstd::prelude::*;
use ropey::Rope;
use crate::buffer::{Buffer, BufferView, line_body, scratch};
use crate::editor::{Editor, EditorView};
use crate::rope::{rope_chars, rope_line_to_char, rope_slice};
use crate::say;
use crate::state::Render;
use crate::text::{lemma_line_starts, lemma_spliced, line_count, line_start, string_between};

verus! {

/// One side of a conflict.
#[derive(Debug, Clone, Copy, PartialEq, Eq, Structural)]
pub enum Side {
    Ours,
    Theirs,
}

/// What is kept of a conflict.
#[derive(Debug, Clone, Copy, PartialEq, Eq, Structural)]
pub enum Keep {
    Ours,
    Theirs,
    Both,
}

/// A conflict by the lines of its three markers.
#[derive(Debug, Clone, Copy, PartialEq, Eq, Structural)]
pub struct Conflict {
    pub head: usize,
    pub middle: usize,
    pub foot: usize,
}

/// Whether a line is a marker made of `c`: seven of it stand at its beginning.
pub open spec fn is_marker(line: Seq<char>, c: char) -> bool {
    line.len() >= 7 && forall|k: int| 0 <= k < 7 ==> line[k] == c
}

/// The first line at or after `l` that is a marker made of `c`, or how many
/// lines there are.
pub open spec fn marker_from(t: Seq<char>, c: char, l: int) -> int
    decreases line_count(t) - l,
{
    if l >= line_count(t) {
        line_count(t)
    } else if is_marker(line_body(t, l), c) {
        l
    } else {
        marker_from(t, c, l + 1)
    }
}

/// The conflict that begins on line `l`: its three markers stand there in order.
pub open spec fn conflict_at(t: Seq<char>, l: int) -> Option<Conflict> {
    let n = line_count(t);
    let middle = marker_from(t, '=', l + 1);
    let foot = marker_from(t, '>', middle + 1);
    if 0 <= l < n && is_marker(line_body(t, l), '<') && middle < n && foot < n {
        Some(Conflict { head: l as usize, middle: middle as usize, foot: foot as usize })
    } else {
        None
    }
}

/// The conflicts from line `l` on.
pub open spec fn conflicts_from(t: Seq<char>, l: int) -> Seq<Conflict>
    decreases line_count(t) - l,
{
    if l >= line_count(t) {
        Seq::empty()
    } else {
        match conflict_at(t, l) {
            Some(c) => if l <= c.foot < line_count(t) {
                seq![c] + conflicts_from(t, c.foot + 1)
            } else {
                Seq::empty()
            },
            None => conflicts_from(t, l + 1),
        }
    }
}

/// The first conflict at or after `k` that line `l` belongs to, or how many
/// there are.
pub open spec fn conflict_over(v: Seq<Conflict>, l: int, k: int) -> int
    decreases v.len() - k,
{
    if k >= v.len() {
        v.len() as int
    } else if v[k].head <= l <= v[k].foot {
        k
    } else {
        conflict_over(v, l, k + 1)
    }
}

/// The first conflict at or after `k` that begins after line `l`, or how many
/// there are.
pub open spec fn conflict_after(v: Seq<Conflict>, l: int, k: int) -> int
    decreases v.len() - k,
{
    if k >= v.len() {
        v.len() as int
    } else if v[k].head > l {
        k
    } else {
        conflict_after(v, l, k + 1)
    }
}

/// The last conflict before `k` that begins before line `l`; -1 where there is
/// none.
pub open spec fn conflict_before(v: Seq<Conflict>, l: int, k: int) -> int
    decreases k,
{
    if k <= 0 {
        -1
    } else if v[k - 1].head < l {
        k - 1
    } else {
        conflict_before(v, l, k - 1)
    }
}

impl Conflict {
    /// The side that line `l` is on; none for a marker.
    pub open spec fn side_of(self, l: int) -> Option<Side> {
        if self.head < l < self.middle {
            Some(Side::Ours)
        } else if self.middle < l < self.foot {
            Some(Side::Theirs)
        } else {
            None
        }
    }

    /// The three markers stand in the text, in order.
    pub open spec fn stands_in(self, t: Seq<char>) -> bool {
        self.head < self.middle < self.foot < line_count(t)
    }

    /// What our side wrote.
    pub open spec fn ours(self, t: Seq<char>) -> Seq<char> {
        t.subrange(line_start(t, self.head + 1), line_start(t, self.middle as int))
    }

    /// What their side wrote.
    pub open spec fn theirs(self, t: Seq<char>) -> Seq<char> {
        t.subrange(line_start(t, self.middle + 1), line_start(t, self.foot as int))
    }

    /// What is kept.
    pub open spec fn kept(self, t: Seq<char>, keep: Keep) -> Seq<char> {
        match keep {
            Keep::Ours => self.ours(t),
            Keep::Theirs => self.theirs(t),
            Keep::Both => self.ours(t) + self.theirs(t),
        }
    }
}

/// What stands after a marker and the space behind it.
pub open spec fn label(line: Seq<char>) -> Seq<char> {
    if line.len() > 7 && line[7] == ' ' {
        line.skip(8)
    } else if line.len() >= 7 {
        line.skip(7)
    } else {
        Seq::empty()
    }
}

/// The listing of the first `k` conflicts: where each is, and the branches.
pub open spec fn listing(name: Seq<char>, t: Seq<char>, v: Seq<Conflict>, k: int) -> Seq<char>
    decreases k,
{
    if k <= 0 {
        Seq::empty()
    } else {
        let c = v[k - 1];
        listing(name, t, v, k - 1) + say::conflict_line_text(
            name,
            (c.head + 1) as nat,
            label(line_body(t, c.head as int)),
            label(line_body(t, c.foot as int)),
        )
    }
}

impl EditorView {
    /// The conflicts in the text on the page.
    pub open spec fn conflicts(self) -> Seq<Conflict> {
        conflicts_from(self.text(), 0)
    }

    /// The conflict that the cursor is in.
    pub open spec fn conflict_here(self) -> Option<Conflict> {
        let k = conflict_over(self.conflicts(), self.cursor_line(), 0);
        if k < self.conflicts().len() {
            Some(self.conflicts()[k])
        } else {
            None
        }
    }

    /// At the next conflict, or the one before; said where there is none.
    #[verifier::opaque]
    pub open spec fn at_conflict(self, forward: bool) -> EditorView {
        let v = self.conflicts();
        let k = if forward {
            conflict_after(v, self.cursor_line(), 0)
        } else {
            conflict_before(v, self.cursor_line(), v.len() as int)
        };
        if 0 <= k < v.len() {
            self.at_line(v[k].head + 1)
        } else if forward {
            self.saying(say::no_conflict_after_text())
        } else {
            self.saying(say::no_conflict_before_text())
        }
    }

    /// With the conflict at the cursor settled: what is kept stands in its
    /// place.
    #[verifier::opaque]
    pub open spec fn keeping_side(self, keep: Keep) -> EditorView {
        match self.conflict_here() {
            Some(c) => {
                let t = self.text();
                let a = line_start(t, c.head as int);
                let b = line_start(t, c.foot + 1);
                if self.buffer().readonly {
                    self.saying(say::readonly_text())
                } else {
                    EditorView {
                        cursor: a,
                        anchor: a,
                        extend: false,
                        ..self.announcing().writing(a, b, c.kept(t, keep))
                    }.aiming_here()
                }
            },
            None => self.saying(say::not_in_conflict_text()),
        }
    }

    /// With the conflicts listed in a buffer of their own; said where there are
    /// none.
    #[verifier::opaque]
    pub open spec fn listing_conflicts(self) -> EditorView {
        let v = self.conflicts();
        if v.len() == 0 {
            self.saying(say::no_conflicts_text())
        } else {
            self.adding(
                BufferView {
                    text: listing(
                        self.buffer().display_name(),
                        self.text(),
                        v,
                        v.len() as int,
                    ),
                    ..scratch()
                },
            )
        }
    }

    /// The columns of line `l` that the page does not draw: where the markup is
    /// read, the marker of a conflict and the space behind it.
    pub open spec fn hidden_on(self, l: int) -> Seq<(usize, usize)> {
        let line = line_body(self.text(), l);
        let k = conflict_over(self.conflicts(), l, 0);
        if self.settings.render == Render::Full && l < line_count(self.text()) && k
            < self.conflicts().len() && self.conflicts()[k].side_of(l) is None {
            seq![
                (
                    0usize,
                    if line.len() > 7 && line[7] == ' ' {
                        8usize
                    } else {
                        7usize
                    },
                ),
            ]
        } else {
            Seq::empty()
        }
    }
}

/// A conflict stands in the text it was found in.
pub proof fn lemma_conflict_at(t: Seq<char>, l: int)
    requires
        0 <= l,
        line_count(t) <= usize::MAX,
    ensures
        conflict_at(t, l) matches Some(c) ==> c.stands_in(t) && c.head == l,
{
    lemma_marker_from(t, '=', l + 1);
    lemma_marker_from(t, '>', marker_from(t, '=', l + 1) + 1);
}

proof fn lemma_marker_from(t: Seq<char>, c: char, l: int)
    ensures
        marker_from(t, c, l) == line_count(t) || l <= marker_from(t, c, l) < line_count(t),
    decreases line_count(t) - l,
{
    if l < line_count(t) && !is_marker(line_body(t, l), c) {
        lemma_marker_from(t, c, l + 1);
    }
}

/// Whether a line is a marker made of `c`.
fn marks(line: &Vec<char>, c: char) -> (r: bool)
    ensures
        r == is_marker(line@, c),
{
    if line.len() < 7 {
        return false;
    }
    let mut i: usize = 0;
    while i < 7
        invariant
            0 <= i <= 7 <= line@.len(),
            forall|k: int| 0 <= k < i ==> line@[k] == c,
        decreases 7 - i,
    {
        if line[i] != c {
            return false;
        }
        i += 1;
    }
    true
}

impl Buffer {
    /// The first line at or after `l` that is a marker made of `c`.
    fn find_marker(&self, c: char, l: usize) -> (r: usize)
        requires
            l <= line_count(self@.text),
        ensures
            r == marker_from(self@.text, c, l as int),
            l <= r <= line_count(self@.text),
    {
        let n: usize = self.line_count();
        let mut k: usize = l;
        while k < n
            invariant
                l <= k <= n,
                n == line_count(self@.text),
                marker_from(self@.text, c, l as int) == marker_from(self@.text, c, k as int),
            decreases n - k,
        {
            let line: Vec<char> = self.line_chars(k);
            if marks(&line, c) {
                return k;
            }
            k += 1;
        }
        k
    }

    /// The conflicts in the text.
    pub fn find_conflicts(&self) -> (v: Vec<Conflict>)
        ensures
            v@ == conflicts_from(self@.text, 0),
            forall|k: int| 0 <= k < v@.len() ==> (#[trigger] v@[k]).stands_in(self@.text),
    {
        let n: usize = self.line_count();
        let ghost t = self@.text;
        let mut v: Vec<Conflict> = Vec::new();
        let mut l: usize = 0;
        assert(v@ + conflicts_from(t, 0) =~= conflicts_from(t, 0));
        while l < n
            invariant
                0 <= l <= n,
                n == line_count(t),
                t == self@.text,
                v@ + conflicts_from(t, l as int) == conflicts_from(t, 0),
                forall|k: int| 0 <= k < v@.len() ==> (#[trigger] v@[k]).stands_in(t),
            decreases n - l,
        {
            let line: Vec<char> = self.line_chars(l);
            let ghost before = v@;
            let head: bool = marks(&line, '<');
            let middle: usize = self.find_marker('=', l + 1);
            let foot: usize = if middle < n {
                self.find_marker('>', middle + 1)
            } else {
                n
            };
            proof {
                lemma_conflict_at(t, l as int);
            }
            if head && middle < n && foot < n {
                let c: Conflict = Conflict { head: l, middle, foot };
                v.push(c);
                assert(before + conflicts_from(t, l as int) =~= v@ + conflicts_from(t, foot + 1));
                l = foot + 1;
            } else {
                l += 1;
            }
        }
        assert(v@ + Seq::<Conflict>::empty() =~= v@);
        v
    }
}

impl Editor {
    /// The conflicts in the text on the page.
    pub fn conflicts(&self) -> (v: Vec<Conflict>)
        requires
            self.wf(),
        ensures
            v@ == self@.conflicts(),
    {
        self.current_buffer().find_conflicts()
    }

    /// The conflict that line `l` belongs to.
    pub(crate) fn find_conflict_over(&self, l: usize) -> (r: Option<Conflict>)
        requires
            self.wf(),
        ensures
            match r {
                Some(c) => c.stands_in(self@.text()) && c.head <= l <= c.foot && conflict_over(
                    self@.conflicts(),
                    l as int,
                    0,
                ) < self@.conflicts().len() && self@.conflicts()[conflict_over(
                    self@.conflicts(),
                    l as int,
                    0,
                )] == c,
                None => conflict_over(self@.conflicts(), l as int, 0) >= self@.conflicts().len(),
            },
    {
        let v: Vec<Conflict> = self.current_buffer().find_conflicts();
        let mut k: usize = 0;
        while k < v.len()
            invariant
                0 <= k <= v@.len(),
                v@ == self@.conflicts(),
                forall|i: int| 0 <= i < v@.len() ==> (#[trigger] v@[i]).stands_in(self@.text()),
                conflict_over(v@, l as int, 0) == conflict_over(v@, l as int, k as int),
            decreases v@.len() - k,
        {
            let c: Conflict = v[k];
            if c.head <= l && l <= c.foot {
                assert(v@[k as int].stands_in(self@.text()));
                return Some(c);
            }
            k += 1;
        }
        None
    }

    /// `]c` and `[c`: goes to the next conflict, or the one before.
    pub fn go_to_conflict(&mut self, forward: bool)
        requires
            old(self).wf(),
        ensures
            final(self).wf(),
            final(self)@ == old(self)@.at_conflict(forward),
    {
        proof {
            reveal(EditorView::at_conflict);
        }
        let v: Vec<Conflict> = self.current_buffer().find_conflicts();
        let l: usize = self.cursor_line();
        if forward {
            let mut k: usize = 0;
            while k < v.len() && v[k].head <= l
                invariant
                    0 <= k <= v@.len(),
                    conflict_after(v@, l as int, 0) == conflict_after(v@, l as int, k as int),
                decreases v@.len() - k,
            {
                k += 1;
            }
            if k < v.len() {
                assert(v@[k as int].stands_in(self@.text()));
                let n: usize = self.current_buffer().line_count();
                self.goto_line(v[k].head + 1);
            } else {
                self.say(say::no_conflict_after());
            }
        } else {
            let mut k: usize = v.len();
            while k > 0 && v[k - 1].head >= l
                invariant
                    0 <= k <= v@.len(),
                    conflict_before(v@, l as int, v@.len() as int) == conflict_before(
                        v@,
                        l as int,
                        k as int,
                    ),
                decreases k,
            {
                k -= 1;
            }
            if k > 0 {
                assert(v@[k - 1].stands_in(self@.text()));
                let n: usize = self.current_buffer().line_count();
                self.goto_line(v[k - 1].head + 1);
            } else {
                self.say(say::no_conflict_before());
            }
        }
    }

    /// Settles the conflict at the cursor.
    pub fn keep_side(&mut self, keep: Keep)
        requires
            old(self).wf(),
        ensures
            final(self).wf(),
            final(self)@ == old(self)@.keeping_side(keep),
    {
        proof {
            reveal(EditorView::keeping_side);
        }
        let l: usize = self.cursor_line();
        match self.find_conflict_over(l) {
            Some(c) => {
                if self.refuse_readonly() {
                    return;
                }
                let rope: &Rope = self.rope();
                let ghost t = rope_chars(*rope);
                proof {
                    lemma_line_starts(t, c.head as int, c.head + 1);
                    lemma_line_starts(t, c.head + 1, c.middle as int);
                    lemma_line_starts(t, c.middle as int, c.middle + 1);
                    lemma_line_starts(t, c.middle + 1, c.foot as int);
                    lemma_line_starts(t, c.foot as int, c.foot + 1);
                }
                let _lines: usize = self.current_buffer().line_count();
                let a: usize = rope_line_to_char(rope, c.head);
                let b: usize = rope_line_to_char(rope, c.foot + 1);
                let mut kept: String = String::new();
                if keep != Keep::Theirs {
                    let from: usize = rope_line_to_char(rope, c.head + 1);
                    let to: usize = rope_line_to_char(rope, c.middle);
                    kept.push_str(rope_slice(rope, from, to).as_str());
                    assert(kept@ =~= c.ours(t));
                }
                if keep != Keep::Ours {
                    let from: usize = rope_line_to_char(rope, c.middle + 1);
                    let to: usize = rope_line_to_char(rope, c.foot);
                    kept.push_str(rope_slice(rope, from, to).as_str());
                }
                assert(kept@ =~= c.kept(t, keep));
                self.snapshot();
                proof {
                    lemma_spliced(t, a as int, b as int, kept@);
                }
                let _ = self.overwrite(a, b, kept.as_str());
                self.cursor = a;
                self.anchor = a;
                self.extend = false;
                self.refresh_goal_column();
            },
            None => self.say(say::not_in_conflict()),
        }
    }

    /// Lists the conflicts in a buffer of their own.
    pub fn list_conflicts(&mut self)
        requires
            old(self).wf(),
        ensures
            final(self).wf(),
            final(self)@ == old(self)@.listing_conflicts(),
    {
        proof {
            reveal(EditorView::listing_conflicts);
        }
        let v: Vec<Conflict> = self.current_buffer().find_conflicts();
        if v.len() == 0 {
            self.say(say::no_conflicts());
            return;
        }
        let name: String = self.current_buffer().display_name();
        let ghost t = self@.text();
        let mut out: String = String::new();
        let mut k: usize = 0;
        assert(out@ =~= Seq::empty());
        while k < v.len()
            invariant
                0 <= k <= v@.len(),
                self.wf(),
                t == self@.text(),
                name@ == self@.buffer().display_name(),
                forall|i: int| 0 <= i < v@.len() ==> (#[trigger] v@[i]).stands_in(t),
                out@ == listing(name@, t, v@, k as int),
            decreases v@.len() - k,
        {
            let c: Conflict = v[k];
            assert(v@[k as int].stands_in(t));
            let head: Vec<char> = self.current_buffer().line_chars(c.head);
            let foot: Vec<char> = self.current_buffer().line_chars(c.foot);
            let ours: String = find_label(&head);
            let theirs: String = find_label(&foot);
            out.push_str(
                say::conflict_line(name.as_str(), c.head + 1, ours.as_str(), theirs.as_str()).as_str(),
            );
            k += 1;
        }
        let b: Buffer = Buffer::from_text(out.as_str());
        self.add_buffer(b);
    }

    /// The columns of line `l` that the page does not draw.
    pub fn hidden_on_line(&self, l: usize) -> (r: Vec<(usize, usize)>)
        requires
            self.wf(),
        ensures
            r@ == self@.hidden_on(l as int),
    {
        let mut r: Vec<(usize, usize)> = Vec::new();
        if self.settings.render != Render::Full || l >= self.current_buffer().line_count() {
            return r;
        }
        match self.find_conflict_over(l) {
            Some(c) => {
                if l == c.head || l == c.middle || l == c.foot {
                    let line: Vec<char> = self.current_buffer().line_chars(l);
                    r.push(
                        (
                            0,
                            if line.len() > 7 && line[7] == ' ' {
                                8
                            } else {
                                7
                            },
                        ),
                    );
                    assert(r@ =~= self@.hidden_on(l as int));
                }
            },
            None => {},
        }
        r
    }
}

/// What stands after a marker and the space behind it.
fn find_label(line: &Vec<char>) -> (s: String)
    ensures
        s@ == label(line@),
{
    let n: usize = line.len();
    let from: usize = if n > 7 && line[7] == ' ' {
        8
    } else if n >= 7 {
        7
    } else {
        n
    };
    let s: String = string_between(line, from, n);
    assert(s@ =~= line@.subrange(from as int, n as int));
    s
}

} // verus!
