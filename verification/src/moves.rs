//! Moving the cursor.

use vstd::prelude::*;
use ropey::Rope;
use crate::editor::{columns_between, Editor, EditorView, least, Mode, most};
use crate::grapheme::{find_next_grapheme, find_prev_grapheme, next_grapheme, prev_grapheme};
use crate::motion::{last_line, line_end};
use crate::rope::{rope_char, rope_char_to_line, rope_chars, rope_len, rope_line_to_char};
use crate::say;
use crate::state::MemoryView;
use crate::text::{
    is_space, last_line as last_line_of, lemma_line_around, lemma_line_of_monotone,
    lemma_line_start, line_count, line_end as line_end_of, line_start, space,
};
use crate::units::{find_unit_end, find_unit_start, Unit, unit_end, unit_start};
use crate::width::char_columns;

verus! {

/// A way to move.
#[derive(Debug, Clone, Copy, PartialEq, Eq, Structural)]
pub enum Motion {
    Left,
    Right,
    /// So many lines up or down.
    Up(usize),
    Down(usize),
    /// To the end of the unit, selecting it.
    Forth(Unit),
    /// To the beginning of the unit, selecting it.
    Back(Unit),
    LineStart,
    /// To the last character of the line.
    LineEnd,
    /// To the first character of the line that is not white space.
    LineText,
}

/// The first position at or after `i`, before `stop`, that is not white space;
/// else `stop`.
pub open spec fn text_from(t: Seq<char>, i: int, stop: int) -> int
    decreases stop - i,
{
    if i < stop && is_space(t[i]) {
        text_from(t, i + 1, stop)
    } else {
        i
    }
}

/// The last position from `i` up to `stop` whose column on the line from
/// `start` is not beyond `goal`.
pub open spec fn landing(t: Seq<char>, start: int, i: int, stop: int, goal: int) -> int
    decreases stop - i,
{
    if i >= stop {
        i
    } else if columns_between(t, start, i + 1) > goal {
        i
    } else {
        landing(t, start, i + 1, stop, goal)
    }
}

/// The last place to stand on a line that begins at `start` and ends at `end`:
/// its last character, and while typing its end.
pub open spec fn last_place(t: Seq<char>, start: int, end: int, typing: bool) -> int {
    if typing {
        end
    } else {
        most(prev_grapheme(t, end), start)
    }
}

/// The `n`th place of `c` after `i` and before `stop`.
pub open spec fn nth_char(t: Seq<char>, c: char, i: int, stop: int, n: int) -> Option<int>
    decreases stop - i,
{
    if i >= stop {
        None
    } else if t[i] == c {
        if n <= 1 {
            Some(i)
        } else {
            nth_char(t, c, i + 1, stop, n - 1)
        }
    } else {
        nth_char(t, c, i + 1, stop, n)
    }
}

impl EditorView {
    /// With the cursor at `to`, and the selection grown or dropped.
    pub open spec fn going(self, to: int) -> EditorView {
        EditorView {
            cursor: to,
            anchor: if self.extend {
                self.anchor
            } else {
                to
            },
            ..self
        }
    }

    /// With `from..=to` selected, or the selection grown to `to`.
    pub open spec fn spanning(self, from: int, to: int) -> EditorView {
        EditorView {
            cursor: to,
            anchor: if self.extend {
                self.anchor
            } else {
                from
            },
            ..self
        }.aiming_here()
    }

    /// The place on line `l` that the goal column leads to.
    pub open spec fn place_on(self, l: int) -> int {
        let t = self.text();
        let start = line_start(t, l);
        let stop = last_place(t, start, line_end_of(t, start), self.mode == Mode::Insert);
        landing(t, start, start, stop, self.goal_column)
    }

    /// With the unit selected from the cursor to its end; standing on its last
    /// character, the next one.
    pub open spec fn taking(self, u: Unit) -> EditorView {
        let t = self.text();
        let end = unit_end(u, t, self.cursor);
        if next_grapheme(t, self.cursor) >= end && end < t.len() {
            self.spanning(end, most(prev_grapheme(t, unit_end(u, t, end)), end))
        } else {
            self.spanning(self.cursor, most(prev_grapheme(t, end), self.cursor))
        }
    }

    /// One step of a motion.
    #[verifier::opaque]
    pub open spec fn stepping(self, m: Motion) -> EditorView {
        let t = self.text();
        let l = self.cursor_line();
        let start = line_start(t, l);
        let end = line_end_of(t, start);
        match m {
            Motion::Left => self.going(prev_grapheme(t, self.cursor)).aiming_here(),
            Motion::Right => self.going(next_grapheme(t, self.cursor)).aiming_here(),
            Motion::Up(n) => self.going(self.place_on(most(l - n, 0))),
            Motion::Down(n) => self.going(
                self.place_on(if l >= last_line_of(t) { l } else { least(l + n, last_line_of(t)) }),
            ),
            Motion::Forth(u) => self.taking(u),
            Motion::Back(u) => self.spanning(self.cursor, unit_start(u, t, self.cursor)),
            Motion::LineStart => self.going(start).aiming_here(),
            Motion::LineEnd => self.going(
                last_place(t, start, end, self.mode == Mode::Insert),
            ).aiming_here(),
            Motion::LineText => self.going(text_from(t, start, end)).aiming_here(),
        }
    }

    /// At the first text of line `n`, counted from one; of the last line where
    /// there are fewer.
    #[verifier::opaque]
    pub open spec fn at_line(self, n: int) -> EditorView {
        let t = self.text();
        let start = line_start(t, least(most(n - 1, 0), last_line_of(t)));
        self.going(text_from(t, start, line_end_of(t, start))).aiming_here()
    }

    /// Selected up to the `n`th `c` on the line; said where there is none.
    #[verifier::opaque]
    pub open spec fn finding(self, c: char, n: int) -> EditorView {
        let t = self.text();
        let asked = EditorView { memory: MemoryView { found: Some(c), ..self.memory }, ..self };
        match nth_char(t, c, self.cursor + 1, line_end_of(t, self.cursor), n) {
            Some(at) => asked.spanning(self.cursor, at),
            None => asked.saying(say::not_on_line_text(c)),
        }
    }
}

/// The first position at or after `i`, before `stop`, that is not white space.
pub(crate) fn find_text(rope: &Rope, i: usize, stop: usize) -> (r: usize)
    requires
        i <= stop <= rope_chars(*rope).len(),
    ensures
        r == text_from(rope_chars(*rope), i as int, stop as int),
        i <= r <= stop,
{
    let mut k: usize = i;
    while k < stop && space(rope_char(rope, k))
        invariant
            i <= k <= stop <= rope_chars(*rope).len(),
            text_from(rope_chars(*rope), i as int, stop as int) == text_from(
                rope_chars(*rope),
                k as int,
                stop as int,
            ),
        decreases stop - k,
    {
        k += 1;
    }
    k
}

/// The last place to stand on a line.
fn find_last_place(rope: &Rope, start: usize, end: usize, typing: bool) -> (r: usize)
    requires
        start <= end <= rope_chars(*rope).len(),
    ensures
        r == last_place(rope_chars(*rope), start as int, end as int, typing),
        start <= r <= end,
{
    if typing {
        end
    } else {
        let back: usize = find_prev_grapheme(rope, end);
        if back >= start {
            back
        } else {
            start
        }
    }
}

impl Editor {
    /// Puts the cursor at `to`; the selection grows or is dropped.
    pub(crate) fn go(&mut self, to: usize)
        requires
            old(self).wf(),
            to <= old(self)@.text().len(),
        ensures
            final(self).wf(),
            final(self)@ == old(self)@.going(to as int),
    {
        self.cursor = to;
        if !self.extend {
            self.anchor = to;
        }
    }

    /// Puts the cursor at `to` and aims for its column.
    pub(crate) fn go_aiming(&mut self, to: usize)
        requires
            old(self).wf(),
            to <= old(self)@.text().len(),
        ensures
            final(self).wf(),
            final(self)@ == old(self)@.going(to as int).aiming_here(),
    {
        self.go(to);
        self.refresh_goal_column();
    }

    /// Selects `from..=to`, or grows the selection to `to`.
    pub(crate) fn span(&mut self, from: usize, to: usize)
        requires
            old(self).wf(),
            from <= old(self)@.text().len(),
            to <= old(self)@.text().len(),
        ensures
            final(self).wf(),
            final(self)@ == old(self)@.spanning(from as int, to as int),
    {
        self.cursor = to;
        if !self.extend {
            self.anchor = from;
        }
        self.refresh_goal_column();
    }

    /// The place on line `l` that the goal column leads to.
    fn find_place_on(&self, l: usize) -> (r: usize)
        requires
            self.wf(),
            l < line_count(self@.text()),
        ensures
            r == self@.place_on(l as int),
            r <= self@.text().len(),
    {
        let rope: &Rope = self.rope();
        let ghost t = rope_chars(*rope);
        proof {
            lemma_line_start(t, l as int);
        }
        let start: usize = rope_line_to_char(rope, l);
        let end: usize = line_end(rope, start);
        let stop: usize = find_last_place(rope, start, end, self.mode == Mode::Insert);
        let mut i: usize = start;
        let mut col: usize = 0;
        while i < stop
            invariant
                start <= i <= stop <= t.len(),
                t == rope_chars(*rope),
                col == columns_between(t, start as int, i as int),
                t == self@.text(),
                self@.place_on(l as int) == landing(
                    t,
                    start as int,
                    i as int,
                    stop as int,
                    self.goal_column as int,
                ),
            decreases stop - i,
        {
            let w: usize = match char_columns(rope_char(rope, i)) {
                Some(w) => w,
                None => 0,
            };
            let next: usize = col.saturating_add(w);
            assert(next == columns_between(t, start as int, i + 1));
            if next > self.goal_column {
                return i;
            }
            col = next;
            i += 1;
        }
        i
    }

    /// Selects the unit from the cursor to its end, or the next one.
    fn take_unit(&mut self, u: Unit)
        requires
            old(self).wf(),
        ensures
            final(self).wf(),
            final(self)@ == old(self)@.taking(u),
    {
        let rope: &Rope = self.rope();
        let n: usize = rope_len(rope);
        let end: usize = find_unit_end(u, rope, self.cursor);
        if find_next_grapheme(rope, self.cursor) >= end && end < n {
            let far: usize = find_unit_end(u, rope, end);
            let back: usize = find_prev_grapheme(rope, far);
            self.span(
                end,
                if back >= end {
                    back
                } else {
                    end
                },
            );
        } else {
            let back: usize = find_prev_grapheme(rope, end);
            let from: usize = self.cursor;
            self.span(
                from,
                if back >= from {
                    back
                } else {
                    from
                },
            );
        }
    }

    /// One step of a motion.
    pub fn step(&mut self, m: Motion)
        requires
            old(self).wf(),
        ensures
            final(self).wf(),
            final(self)@ == old(self)@.stepping(m),
    {
        proof {
            reveal(EditorView::stepping);
        }
        let rope: &Rope = self.rope();
        let ghost t = rope_chars(*rope);
        proof {
            lemma_line_around(t, self@.cursor);
        }
        let l: usize = rope_char_to_line(rope, self.cursor);
        let start: usize = rope_line_to_char(rope, l);
        let end: usize = line_end(rope, start);
        let last: usize = last_line(rope);
        match m {
            Motion::Left => {
                let to: usize = find_prev_grapheme(rope, self.cursor);
                self.go_aiming(to);
            },
            Motion::Right => {
                let to: usize = find_next_grapheme(rope, self.cursor);
                self.go_aiming(to);
            },
            Motion::Up(n) => {
                let to: usize = self.find_place_on(
                    if l >= n {
                        l - n
                    } else {
                        0
                    },
                );
                self.go(to);
            },
            Motion::Down(n) => {
                let to: usize = self.find_place_on(
                    if l >= last {
                        l
                    } else if n <= last - l {
                        l + n
                    } else {
                        last
                    },
                );
                self.go(to);
            },
            Motion::Forth(u) => {
                self.take_unit(u);
            },
            Motion::Back(u) => {
                let to: usize = find_unit_start(u, rope, self.cursor);
                let from: usize = self.cursor;
                self.span(from, to);
            },
            Motion::LineStart => {
                self.go_aiming(start);
            },
            Motion::LineEnd => {
                let to: usize = find_last_place(rope, start, end, self.mode == Mode::Insert);
                self.go_aiming(to);
            },
            Motion::LineText => {
                let to: usize = find_text(rope, start, end);
                self.go_aiming(to);
            },
        }
    }

    /// Goes to the first text of line `n`, counted from one.
    pub fn goto_line(&mut self, n: usize)
        requires
            old(self).wf(),
        ensures
            final(self).wf(),
            final(self)@ == old(self)@.at_line(n as int),
    {
        proof {
            reveal(EditorView::at_line);
        }
        let rope: &Rope = self.rope();
        let ghost t = rope_chars(*rope);
        let last: usize = last_line(rope);
        let want: usize = if n >= 1 {
            n - 1
        } else {
            0
        };
        let l: usize = if want <= last {
            want
        } else {
            last
        };
        proof {
            lemma_line_of_monotone(t, 0, t.len() as int);
            lemma_line_start(t, l as int);
        }
        let start: usize = rope_line_to_char(rope, l);
        let end: usize = line_end(rope, start);
        let to: usize = find_text(rope, start, end);
        self.go_aiming(to);
    }

    /// Selects up to the `n`th `c` on the line.
    pub fn find_char(&mut self, c: char, n: usize)
        requires
            old(self).wf(),
        ensures
            final(self).wf(),
            final(self)@ == old(self)@.finding(c, n as int),
    {
        proof {
            reveal(EditorView::finding);
        }
        let rope: &Rope = self.rope();
        let ghost t = rope_chars(*rope);
        let from: usize = self.cursor;
        let stop: usize = line_end(rope, from);
        let ghost want = nth_char(t, c, from + 1, stop as int, n as int);
        self.memory.found = Some(c);
        let mut i: usize = from;
        let mut left: usize = n;
        let mut found: bool = false;
        let rope: &Rope = self.rope();
        while !found && i < stop && i + 1 < stop
            invariant
                from <= i <= stop <= t.len(),
                t == rope_chars(*rope),
                stop <= usize::MAX,
                found ==> want == Some(i as int) && i < stop,
                !found ==> want == nth_char(t, c, i + 1, stop as int, left as int),
            decreases stop - i,
        {
            i += 1;
            if rope_char(rope, i) == c {
                if left <= 1 {
                    found = true;
                } else {
                    left -= 1;
                }
            }
        }
        if found {
            self.span(from, i);
        } else {
            self.status = say::not_on_line(c);
        }
    }
}

} // verus!
