//! Brackets and quotes: finding a pair, and putting one round a text.

use vstd::prelude::*;
use ropey::Rope;
use crate::editor::{Editor, EditorView, most};
use crate::grapheme::{find_prev_grapheme, prev_grapheme};
use crate::rope::{rope_char, rope_chars, rope_len};
use crate::say;
use crate::text::{lemma_spliced, spliced};

verus! {

/// How many pairs there are.
pub const PAIR_COUNT: usize = 14;

/// A pair, its opening half first.
pub open spec fn pair_at(k: int) -> (char, char) {
    if k == 0 {
        ('「', '」')
    } else if k == 1 {
        ('『', '』')
    } else if k == 2 {
        ('（', '）')
    } else if k == 3 {
        ('(', ')')
    } else if k == 4 {
        ('《', '》')
    } else if k == 5 {
        ('〈', '〉')
    } else if k == 6 {
        ('【', '】')
    } else if k == 7 {
        ('[', ']')
    } else if k == 8 {
        ('{', '}')
    } else if k == 9 {
        ('“', '”')
    } else if k == 10 {
        ('‘', '’')
    } else if k == 11 {
        ('<', '>')
    } else if k == 12 {
        ('"', '"')
    } else {
        ('\'', '\'')
    }
}

/// The first pair at or after `k` that `c` is a half of, or how many there are.
pub open spec fn pair_from(c: char, k: int) -> int
    decreases PAIR_COUNT - k,
{
    if k >= PAIR_COUNT {
        PAIR_COUNT as int
    } else if pair_at(k).0 == c || pair_at(k).1 == c {
        k
    } else {
        pair_from(c, k + 1)
    }
}

/// The last opening half before `i` that is not closed before `i`; `depth` says
/// how many were closed on the way.
pub open spec fn open_before(t: Seq<char>, p: (char, char), i: int, depth: int) -> Option<int>
    decreases i,
{
    if i <= 0 {
        None
    } else if t[i - 1] == p.0 {
        if depth <= 0 {
            Some(i - 1)
        } else {
            open_before(t, p, i - 1, depth - 1)
        }
    } else if t[i - 1] == p.1 {
        open_before(t, p, i - 1, depth + 1)
    } else {
        open_before(t, p, i - 1, depth)
    }
}

/// The first closing half at or after `i` that was not opened after `i`;
/// `depth` says how many were opened on the way.
pub open spec fn close_after(t: Seq<char>, p: (char, char), i: int, depth: int) -> Option<int>
    decreases t.len() - i,
{
    if i >= t.len() {
        None
    } else if t[i] == p.1 {
        if depth <= 0 {
            Some(i)
        } else {
            close_after(t, p, i + 1, depth - 1)
        }
    } else if t[i] == p.0 {
        close_after(t, p, i + 1, depth + 1)
    } else {
        close_after(t, p, i + 1, depth)
    }
}

/// The halves of the innermost pair round `at`.
pub open spec fn pair_around(t: Seq<char>, p: (char, char), at: int) -> Option<(int, int)> {
    let open = if at < t.len() && t[at] == p.0 {
        Some(at)
    } else {
        open_before(t, p, at, 0)
    };
    match open {
        None => None,
        Some(a) => match close_after(t, p, a + 1, 0) {
            None => None,
            Some(b) => Some((a, b)),
        },
    }
}

/// The innermost of the first `n` pairs round `at`.
pub open spec fn innermost(t: Seq<char>, at: int, n: int) -> Option<(int, int)>
    decreases n,
{
    if n <= 0 {
        None
    } else {
        match (innermost(t, at, n - 1), pair_around(t, pair_at(n - 1), at)) {
            (Some(best), Some(here)) => if here.0 > best.0 {
                Some(here)
            } else {
                Some(best)
            },
            (Some(best), None) => Some(best),
            (None, here) => here,
        }
    }
}

impl EditorView {
    /// At the other half of the bracket under the cursor.
    #[verifier::opaque]
    pub open spec fn at_match(self) -> EditorView {
        let t = self.text();
        if self.cursor >= t.len() || pair_from(t[self.cursor], 0) >= PAIR_COUNT {
            self.saying(say::no_bracket_here_text())
        } else {
            match pair_around(t, pair_at(pair_from(t[self.cursor], 0)), self.cursor) {
                Some((a, b)) => self.going(
                    if self.cursor == a {
                        b
                    } else {
                        a
                    },
                ).aiming_here(),
                None => self.saying(say::no_bracket_here_text()),
            }
        }
    }

    /// The pair that `c` names, round the cursor.
    pub open spec fn pair_here(self, c: char) -> Option<(int, int)> {
        if pair_from(c, 0) >= PAIR_COUNT {
            None
        } else {
            pair_around(self.text(), pair_at(pair_from(c, 0)), self.cursor)
        }
    }

    /// With the pair that `c` names selected, or what it holds.
    #[verifier::opaque]
    pub open spec fn selecting_pair(self, c: char, inside: bool) -> EditorView {
        match self.pair_here(c) {
            None => self.saying(say::no_pair_text(c)),
            Some((a, b)) => if !inside {
                EditorView { anchor: a, cursor: b, ..self }.aiming_here()
            } else if b == a + 1 {
                self.saying(say::no_pair_text(c))
            } else {
                EditorView {
                    anchor: a + 1,
                    cursor: most(prev_grapheme(self.text(), b), a + 1),
                    ..self
                }.aiming_here()
            },
        }
    }

    /// With the pair that `c` names put round the selection.
    #[verifier::opaque]
    pub open spec fn surrounding(self, c: char) -> EditorView {
        let k = pair_from(c, 0);
        let (a, b) = (self.selection_start(), self.selection_end());
        if k >= PAIR_COUNT {
            self.saying(say::no_pair_text(c))
        } else if self.buffer().readonly {
            self.saying(say::readonly_text())
        } else {
            let (o, e) = pair_at(k);
            EditorView {
                anchor: a,
                cursor: b + 1,
                extend: false,
                ..self.announcing().writing(b, b, seq![e]).writing(a, a, seq![o])
            }
        }
    }

    /// With the halves at `a` and `b` replaced.
    pub open spec fn rewriting_pair(self, a: int, b: int, o: Seq<char>, e: Seq<char>) -> EditorView {
        self.announcing().writing(b, b + 1, e).writing(a, a + 1, o).clamped()
    }

    /// Without the innermost pair round the cursor.
    #[verifier::opaque]
    pub open spec fn unsurrounding(self) -> EditorView {
        match innermost(self.text(), self.cursor, PAIR_COUNT as int) {
            None => self.saying(say::no_bracket_here_text()),
            Some((a, b)) => if self.buffer().readonly {
                self.saying(say::readonly_text())
            } else {
                self.rewriting_pair(a, b, Seq::empty(), Seq::empty())
            },
        }
    }

    /// With the pair that `from` names, round the cursor, replaced by the one
    /// that `to` names.
    #[verifier::opaque]
    pub open spec fn resurrounding(self, from: char, to: char) -> EditorView {
        match self.pair_here(from) {
            None => self.saying(say::no_pair_text(from)),
            Some((a, b)) => if pair_from(to, 0) >= PAIR_COUNT {
                self.saying(say::no_pair_text(to))
            } else if self.buffer().readonly {
                self.saying(say::readonly_text())
            } else {
                let (o, e) = pair_at(pair_from(to, 0));
                self.rewriting_pair(a, b, seq![o], seq![e])
            },
        }
    }
}

/// A pair, its opening half first.
fn pair(k: usize) -> (p: (char, char))
    ensures
        p == pair_at(k as int),
{
    if k == 0 {
        ('「', '」')
    } else if k == 1 {
        ('『', '』')
    } else if k == 2 {
        ('（', '）')
    } else if k == 3 {
        ('(', ')')
    } else if k == 4 {
        ('《', '》')
    } else if k == 5 {
        ('〈', '〉')
    } else if k == 6 {
        ('【', '】')
    } else if k == 7 {
        ('[', ']')
    } else if k == 8 {
        ('{', '}')
    } else if k == 9 {
        ('“', '”')
    } else if k == 10 {
        ('‘', '’')
    } else if k == 11 {
        ('<', '>')
    } else if k == 12 {
        ('"', '"')
    } else {
        ('\'', '\'')
    }
}

/// The first pair that `c` is a half of, or how many there are.
fn find_pair(c: char) -> (k: usize)
    ensures
        k == pair_from(c, 0),
        k <= PAIR_COUNT,
{
    let mut k: usize = 0;
    while k < PAIR_COUNT
        invariant
            0 <= k <= PAIR_COUNT,
            pair_from(c, 0) == pair_from(c, k as int),
        decreases PAIR_COUNT - k,
    {
        let p: (char, char) = pair(k);
        if p.0 == c || p.1 == c {
            return k;
        }
        k += 1;
    }
    k
}

/// The last opening half before `i` that is not closed before `i`.
fn find_open(rope: &Rope, p: (char, char), at: usize) -> (r: Option<usize>)
    requires
        at <= rope_chars(*rope).len(),
    ensures
        match r {
            Some(a) => open_before(rope_chars(*rope), p, at as int, 0) == Some(a as int) && a < at,
            None => open_before(rope_chars(*rope), p, at as int, 0) is None,
        },
{
    let ghost t = rope_chars(*rope);
    let mut i: usize = at;
    let mut depth: usize = 0;
    while i > 0
        invariant
            i <= at <= t.len(),
            depth <= at - i,
            t == rope_chars(*rope),
            open_before(t, p, at as int, 0) == open_before(t, p, i as int, depth as int),
        decreases i,
    {
        let c: char = rope_char(rope, i - 1);
        if c == p.0 {
            if depth == 0 {
                return Some(i - 1);
            }
            depth -= 1;
        } else if c == p.1 {
            depth += 1;
        }
        i -= 1;
    }
    None
}

/// The first closing half at or after `from` that was not opened after it.
fn find_close(rope: &Rope, p: (char, char), from: usize) -> (r: Option<usize>)
    requires
        from <= rope_chars(*rope).len(),
    ensures
        match r {
            Some(b) => close_after(rope_chars(*rope), p, from as int, 0) == Some(b as int) && from
                <= b < rope_chars(*rope).len(),
            None => close_after(rope_chars(*rope), p, from as int, 0) is None,
        },
{
    let ghost t = rope_chars(*rope);
    let n: usize = rope_len(rope);
    let mut i: usize = from;
    let mut depth: usize = 0;
    while i < n
        invariant
            from <= i <= n,
            n == t.len(),
            depth <= i - from,
            t == rope_chars(*rope),
            close_after(t, p, from as int, 0) == close_after(t, p, i as int, depth as int),
        decreases n - i,
    {
        let c: char = rope_char(rope, i);
        if c == p.1 {
            if depth == 0 {
                return Some(i);
            }
            depth -= 1;
        } else if c == p.0 {
            depth += 1;
        }
        i += 1;
    }
    None
}

/// The halves of the innermost pair round `at`.
fn find_around(rope: &Rope, p: (char, char), at: usize) -> (r: Option<(usize, usize)>)
    requires
        at <= rope_chars(*rope).len(),
    ensures
        match r {
            Some((a, b)) => pair_around(rope_chars(*rope), p, at as int) == Some(
                (a as int, b as int),
            ) && a < b < rope_chars(*rope).len(),
            None => pair_around(rope_chars(*rope), p, at as int) is None,
        },
{
    let n: usize = rope_len(rope);
    let open: Option<usize> = if at < n && rope_char(rope, at) == p.0 {
        Some(at)
    } else {
        find_open(rope, p, at)
    };
    match open {
        None => None,
        Some(a) => match find_close(rope, p, a + 1) {
            None => None,
            Some(b) => Some((a, b)),
        },
    }
}

/// The innermost pair round `at`.
fn find_innermost(rope: &Rope, at: usize) -> (r: Option<(usize, usize)>)
    requires
        at <= rope_chars(*rope).len(),
    ensures
        match r {
            Some((a, b)) => innermost(rope_chars(*rope), at as int, PAIR_COUNT as int) == Some(
                (a as int, b as int),
            ) && a < b < rope_chars(*rope).len(),
            None => innermost(rope_chars(*rope), at as int, PAIR_COUNT as int) is None,
        },
{
    let mut best: Option<(usize, usize)> = None;
    let mut k: usize = 0;
    while k < PAIR_COUNT
        invariant
            0 <= k <= PAIR_COUNT,
            at <= rope_chars(*rope).len(),
            match best {
                Some((a, b)) => innermost(rope_chars(*rope), at as int, k as int) == Some(
                    (a as int, b as int),
                ) && a < b < rope_chars(*rope).len(),
                None => innermost(rope_chars(*rope), at as int, k as int) is None,
            },
        decreases PAIR_COUNT - k,
    {
        let here: Option<(usize, usize)> = find_around(rope, pair(k), at);
        best = match (best, here) {
            (Some(b), Some(h)) => if h.0 > b.0 {
                Some(h)
            } else {
                Some(b)
            },
            (Some(b), None) => Some(b),
            (None, h) => h,
        };
        k += 1;
    }
    best
}

/// One character as a string.
pub(crate) fn one(c: char) -> (s: String)
    ensures
        s@ == seq![c],
{
    let mut s: String = String::new();
    s.push(c);
    assert(s@ =~= seq![c]);
    s
}

impl Editor {
    /// `mm`: goes to the other half of the bracket under the cursor.
    pub fn match_bracket(&mut self)
        requires
            old(self).wf(),
        ensures
            final(self).wf(),
            final(self)@ == old(self)@.at_match(),
    {
        proof {
            reveal(EditorView::at_match);
        }
        let rope: &Rope = self.rope();
        let n: usize = rope_len(rope);
        let at: usize = self.cursor;
        if at >= n {
            self.status = say::no_bracket_here();
            return;
        }
        let k: usize = find_pair(rope_char(rope, at));
        if k >= PAIR_COUNT {
            self.status = say::no_bracket_here();
            return;
        }
        match find_around(rope, pair(k), at) {
            Some((a, b)) => {
                self.go_aiming(
                    if at == a {
                        b
                    } else {
                        a
                    },
                );
            },
            None => {
                self.status = say::no_bracket_here();
            },
        }
    }

    /// The pair that `c` names, round the cursor.
    fn find_pair_here(&self, c: char) -> (r: Option<(usize, usize)>)
        requires
            self.wf(),
        ensures
            match r {
                Some((a, b)) => self@.pair_here(c) == Some((a as int, b as int)) && a < b
                    < self@.text().len(),
                None => self@.pair_here(c) is None,
            },
    {
        let k: usize = find_pair(c);
        if k >= PAIR_COUNT {
            None
        } else {
            find_around(self.rope(), pair(k), self.cursor)
        }
    }

    /// `mi` and `ma`: selects what a pair holds, or the pair.
    pub fn select_pair(&mut self, c: char, inside: bool)
        requires
            old(self).wf(),
        ensures
            final(self).wf(),
            final(self)@ == old(self)@.selecting_pair(c, inside),
    {
        proof {
            reveal(EditorView::selecting_pair);
        }
        match self.find_pair_here(c) {
            None => {
                self.status = say::no_pair(c);
            },
            Some((a, b)) => {
                if !inside {
                    self.anchor = a;
                    self.cursor = b;
                    self.refresh_goal_column();
                } else if b == a + 1 {
                    self.status = say::no_pair(c);
                } else {
                    let back: usize = find_prev_grapheme(self.rope(), b);
                    self.anchor = a + 1;
                    self.cursor = if back >= a + 1 {
                        back
                    } else {
                        a + 1
                    };
                    self.refresh_goal_column();
                }
            },
        }
    }

    /// `ms`: puts a pair round the selection.
    pub fn surround(&mut self, c: char)
        requires
            old(self).wf(),
        ensures
            final(self).wf(),
            final(self)@ == old(self)@.surrounding(c),
    {
        proof {
            reveal(EditorView::surrounding);
        }
        let k: usize = find_pair(c);
        if k >= PAIR_COUNT {
            self.status = say::no_pair(c);
            return;
        }
        if self.refuse_readonly() {
            return;
        }
        let (a, b) = self.selection();
        let p: (char, char) = pair(k);
        let ghost t = self@.text();
        self.snapshot();
        proof {
            lemma_spliced(t, b as int, b as int, seq![p.1]);
            lemma_spliced(spliced(t, b as int, b as int, seq![p.1]), a as int, a as int, seq![p.0]);
        }
        let _ = self.overwrite(b, b, one(p.1).as_str());
        let _ = self.overwrite(a, a, one(p.0).as_str());
        self.anchor = a;
        self.cursor = b + 1;
        self.extend = false;
    }

    /// Replaces the halves at `a` and `b`.
    fn rewrite_pair(&mut self, a: usize, b: usize, o: &str, e: &str)
        requires
            old(self).wf(),
            !old(self)@.buffer().readonly,
            a < b < old(self)@.text().len(),
        ensures
            final(self).wf(),
            final(self)@ == old(self)@.rewriting_pair(a as int, b as int, o@, e@),
    {
        let ghost t = self@.text();
        let _: usize = self.current_buffer().char_count();
        self.snapshot();
        proof {
            lemma_spliced(t, b as int, b + 1, e@);
        }
        let _ = self.overwrite(b, b + 1, e);
        let _ = self.overwrite(a, a + 1, o);
        self.clamp_cursor();
    }

    /// `md`: takes off the innermost pair round the cursor.
    pub fn unsurround(&mut self)
        requires
            old(self).wf(),
        ensures
            final(self).wf(),
            final(self)@ == old(self)@.unsurrounding(),
    {
        proof {
            reveal(EditorView::unsurrounding);
        }
        match find_innermost(self.rope(), self.cursor) {
            None => {
                self.status = say::no_bracket_here();
            },
            Some((a, b)) => {
                if self.refuse_readonly() {
                    return;
                }
                proof {
                    reveal_strlit("");
                    assert(""@ =~= Seq::empty());
                }
                self.rewrite_pair(a, b, "", "");
            },
        }
    }

    /// `mr`: replaces a pair round the cursor by another.
    pub fn resurround(&mut self, from: char, to: char)
        requires
            old(self).wf(),
        ensures
            final(self).wf(),
            final(self)@ == old(self)@.resurrounding(from, to),
    {
        proof {
            reveal(EditorView::resurrounding);
        }
        match self.find_pair_here(from) {
            None => {
                self.status = say::no_pair(from);
            },
            Some((a, b)) => {
                let k: usize = find_pair(to);
                if k >= PAIR_COUNT {
                    self.status = say::no_pair(to);
                    return;
                }
                if self.refuse_readonly() {
                    return;
                }
                let p: (char, char) = pair(k);
                self.rewrite_pair(a, b, one(p.0).as_str(), one(p.1).as_str());
            },
        }
    }
}

} // verus!
