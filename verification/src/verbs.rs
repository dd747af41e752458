//! Counts, repetition, and the verbs that work on a selection.

use vstd::prelude::*;
use ropey::Rope;
use crate::buffer::{BufferView, PointView};
use crate::editor::{Editor, EditorView, Mode, least, lemma_buffer_update, most};
use crate::grapheme::{
    breaks_alone, cut_graphemes, find_prev_grapheme, graphemes, lemma_next_grapheme,
    lemma_prev_grapheme, next_grapheme, prev_grapheme,
};
use crate::motion::{last_line, line_end};
use crate::number::{
    digit, is_digit, padded_decimal, padded_decimal_of, parse, parsed, signed_decimal,
    signed_decimal_of,
};
use crate::rope::{
    rope_char, rope_char_to_line, rope_chars, rope_len, rope_line, rope_line_to_char, rope_lines,
    rope_slice,
};
use crate::repeats::input_views;
use crate::say;
use crate::state::MemoryView;
use crate::text::{
    char_count, chars_of, last_line as last_line_of, lemma_line_around, lemma_line_end,
    lemma_line_of_concat, lemma_line_of_monotone, lemma_line_start, lemma_line_starts,
    lemma_same_line, lemma_splice_keeps_lines, lemma_spliced, line_count, line_end as line_end_of,
    line_of, line_start, line_text, spliced, views,
};
use crate::width::{is_wide, wide};

verus! {

/// The ceiling on a count that writes.
pub const WRITING_MAX: usize = 10_000;

/// Whether a step left the ends of the selection and the length of the text as
/// they were.
pub open spec fn stood_still(before: EditorView, after: EditorView) -> bool {
    after.cursor == before.cursor && after.anchor == before.anchor && after.text().len()
        == before.text().len()
}

impl EditorView {
    /// With announcements belonging to a running command, or not.
    pub open spec fn grouping(self, on: bool) -> EditorView {
        self.with_buffer(BufferView { grouped: on, ..self.buffer() })
    }

    /// `step` run up to `n` times, as long as it moves something.
    pub open spec fn running(self, step: spec_fn(EditorView) -> EditorView, n: int) -> EditorView
        decreases n,
    {
        if n <= 0 {
            self
        } else {
            let next = step(self);
            if stood_still(self, next) {
                next
            } else {
                next.running(step, n - 1)
            }
        }
    }

    /// `step` as one command with a count: the first run announces its edit,
    /// and the others are part of it.
    #[verifier::opaque]
    pub open spec fn counted(self, step: spec_fn(EditorView) -> EditorView, n: int) -> EditorView {
        if n <= 0 {
            self
        } else {
            let first = step(self);
            if stood_still(self, first) {
                first
            } else {
                first.grouping(true).running(step, n - 1).grouping(first.buffer().grouped)
            }
        }
    }

    /// As [`EditorView::counted`], with the count cut down to the ceiling.
    #[verifier::opaque]
    pub open spec fn counted_writing(
        self,
        step: spec_fn(EditorView) -> EditorView,
        n: int,
    ) -> EditorView {
        let done = self.counted(step, least(n, WRITING_MAX as int));
        if n > WRITING_MAX {
            done.saying(say::writing_ceiling_text(WRITING_MAX as nat))
        } else {
            done
        }
    }
}

/// Whether these edits are edits of a text: each within it, and each changing
/// something.
pub open spec fn are_edits(t: Seq<char>, edits: Seq<(int, int, Seq<char>)>) -> bool
    decreases edits.len(),
{
    if edits.len() == 0 {
        true
    } else {
        let (a, b, s) = edits[0];
        &&& 0 <= a <= b <= t.len()
        &&& a < b || s.len() > 0
        &&& are_edits(spliced(t, a, b, s), edits.skip(1))
    }
}

impl EditorView {
    /// With these edits made, one after the other.
    pub open spec fn writing_all(self, edits: Seq<(int, int, Seq<char>)>) -> EditorView
        decreases edits.len(),
    {
        if edits.len() == 0 {
            self
        } else {
            let (a, b, s) = edits[0];
            self.writing(a, b, s).writing_all(edits.skip(1))
        }
    }
}

/// Whether `w` is `v` after the buffer on the page announced an edit and was
/// edited, in one edit or in several, whatever else was done.
pub open spec fn is_announced_edit(v: EditorView, w: EditorView) -> bool {
    &&& w.active == v.active
    &&& exists|edits: Seq<(int, int, Seq<char>)>|
        edits.len() > 0 && #[trigger] are_edits(v.text(), edits) && w.buffers
            == v.announcing().writing_all(edits).buffers
}

/// Whether `w` is one undo after `v`: undoing gives the text and the cursor of
/// `v`, with the points that were there, and redoing gives the text of `w`.
pub open spec fn is_one_undo_point(v: EditorView, w: EditorView) -> bool {
    &&& w.undone().text() == v.text()
    &&& w.undone().cursor == v.cursor
    &&& w.undone().buffer().past == v.buffer().past
    &&& w.undone().redone().text() == w.text()
}

/// Edits leave one point at most: where they were announced.
proof fn lemma_writing_all(v: EditorView, edits: Seq<(int, int, Seq<char>)>)
    requires
        0 <= v.active < v.buffers.len(),
        !v.buffer().readonly,
        are_edits(v.text(), edits),
    ensures
        ({
            let b = v.buffer();
            let w = v.writing_all(edits);
            &&& w.active == v.active
            &&& w.buffers.len() == v.buffers.len()
            &&& w.buffer().readonly == b.readonly
            &&& w.buffer().grouped == b.grouped
            &&& edits.len() > 0 ==> w.buffer().announced is None
            &&& edits.len() == 0 || b.announced is None ==> w.buffer().announced == b.announced
                && w.buffer().past == b.past
            &&& edits.len() > 0 ==> w.buffer().past == match b.announced {
                Some(at) => b.past.push(PointView { text: v.text(), at }),
                None => b.past,
            }
        }),
    decreases edits.len(),
{
    if edits.len() > 0 {
        let (a, b, s) = edits[0];
        lemma_writing_all(v.writing(a, b, s), edits.skip(1));
    }
}

/// What an announced edit does to the history: in a group it leaves no point.
pub proof fn lemma_announced_edit(v: EditorView, w: EditorView)
    requires
        v.wf(),
        !v.buffer().readonly,
        is_announced_edit(v, w),
    ensures
        !w.buffer().readonly,
        w.buffer().grouped == v.buffer().grouped,
        w.buffer().announced is None,
        v.buffer().grouped && v.buffer().announced is None ==> w.buffer().past
            == v.buffer().past,
        !v.buffer().grouped ==> w.buffer().past == v.buffer().past.push(
            PointView { text: v.text(), at: v.cursor },
        ),
{
    let edits = choose|edits: Seq<(int, int, Seq<char>)>|
        edits.len() > 0 && #[trigger] are_edits(v.text(), edits) && w.buffers
            == v.announcing().writing_all(edits).buffers;
    assert(v.announcing().text() == v.text());
    lemma_writing_all(v.announcing(), edits);
    assert(w.buffer() == v.announcing().writing_all(edits).buffer());
}

/// The last point being that of `v` is what makes one undo of it.
pub proof fn lemma_one_undo_point(v: EditorView, w: EditorView)
    requires
        v.wf(),
        0 <= w.active < w.buffers.len(),
        !w.buffer().readonly,
        w.buffer().past == v.buffer().past.push(PointView { text: v.text(), at: v.cursor }),
    ensures
        is_one_undo_point(v, w),
{
    reveal(EditorView::undone);
    reveal(EditorView::redone);
    assert(w.buffer().past.drop_last() =~= v.buffer().past);
    assert(w.undone().buffer().future.last().text == w.text());
}

impl Editor {
    /// Begins a typing session, unless the buffer is locked.
    pub fn enter_insert(&mut self)
        requires
            old(self).wf(),
        ensures
            final(self).wf(),
            final(self)@ == old(self)@.inserting(),
    {
        if self.refuse_readonly() {
            return;
        }
        self.extend = false;
        self.memory.typed.clear();
        self.mode = Mode::Insert;
        assert(input_views(self.memory.typed@) =~= Seq::empty());
        assert(self@ =~= old(self)@.inserting());
    }

    /// Takes the count that was typed; one where none was.
    pub fn take_count(&mut self) -> (n: usize)
        requires
            old(self).wf(),
        ensures
            final(self).wf(),
            n == old(self)@.count_or_one(),
            n >= 1,
            final(self)@ == (EditorView { count: None, ..old(self)@ }),
    {
        let typed: Option<usize> = self.count;
        self.count = None;
        match typed {
            Some(n) => if n >= 1 {
                n
            } else {
                1
            },
            None => 1,
        }
    }

    /// Runs `action` up to `n` times, as long as it moves something, as one
    /// command. Where every run is an announced edit, one undo takes all of them
    /// back, and redoing brings them again.
    pub fn repeat<F: Fn(&mut Editor)>(&mut self, n: usize, action: F)
        requires
            old(self).wf(),
            forall|x: &mut Editor| (*x).wf() ==> #[trigger] call_requires(action, (x,)),
            forall|x: &mut Editor|
                #![trigger call_ensures(action, (x,), ())]
                (*x).wf() && call_ensures(action, (x,), ()) ==> (*final(x)).wf(),
        ensures
            final(self).wf(),
            forall|step: spec_fn(EditorView) -> EditorView|
                #![trigger old(self)@.counted(step, n as int)]
                (forall|x: &mut Editor|
                    #![trigger call_ensures(action, (x,), ())]
                    (*x).wf() && call_ensures(action, (x,), ()) ==> (*final(x))@ == step((*x)@))
                    ==> final(self)@ == old(self)@.counted(step, n as int),
            n >= 1 && !old(self)@.buffer().readonly && !old(self)@.buffer().grouped && (forall|
                x: &mut Editor,
            |
                #![trigger call_ensures(action, (x,), ())]
                (*x).wf() && !(*x)@.buffer().readonly && call_ensures(action, (x,), ())
                    ==> is_announced_edit((*x)@, (*final(x))@)) ==> is_one_undo_point(
                old(self)@,
                final(self)@,
            ),
    {
        proof {
            reveal(EditorView::counted);
        }
        let ghost edits = !old(self)@.buffer().readonly && !old(self)@.buffer().grouped && (forall|
            x: &mut Editor,
        |
            #![trigger call_ensures(action, (x,), ())]
            (*x).wf() && !(*x)@.buffer().readonly && call_ensures(action, (x,), ())
                ==> is_announced_edit((*x)@, (*final(x))@));
        let mut group: Option<bool> = None;
        let mut i: usize = 0;
        let mut going: bool = true;
        while going && i < n
            invariant
                0 <= i <= n,
                self.wf(),
                forall|x: &mut Editor| (*x).wf() ==> #[trigger] call_requires(action, (x,)),
                forall|x: &mut Editor|
                    #![trigger call_ensures(action, (x,), ())]
                    (*x).wf() && call_ensures(action, (x,), ()) ==> (*final(x)).wf(),
                i == 0 ==> going && group is None && *self == *old(self),
                going && i > 0 ==> group is Some,
                forall|step: spec_fn(EditorView) -> EditorView|
                    #![trigger old(self)@.counted(step, n as int)]
                    (forall|x: &mut Editor|
                        #![trigger call_ensures(action, (x,), ())]
                        (*x).wf() && call_ensures(action, (x,), ()) ==> (*final(x))@ == step(
                            (*x)@,
                        )) ==> (match group {
                        Some(was) => old(self)@.counted(step, n as int) == (if going {
                            self@.running(step, n - i)
                        } else {
                            self@
                        }).grouping(was),
                        None => going || old(self)@.counted(step, n as int) == self@,
                    }),
                edits ==> (forall|x: &mut Editor|
                    #![trigger call_ensures(action, (x,), ())]
                    (*x).wf() && !(*x)@.buffer().readonly && call_ensures(action, (x,), ())
                        ==> is_announced_edit((*x)@, (*final(x))@)),
                edits ==> !old(self)@.buffer().readonly && !old(self)@.buffer().grouped,
                edits && i > 0 ==> {
                    let b = self@.buffer();
                    &&& !b.readonly
                    &&& b.announced is None
                    &&& b.past == old(self)@.buffer().past.push(
                        PointView { text: old(self)@.text(), at: old(self)@.cursor },
                    )
                    &&& b.grouped == (group is Some)
                    &&& group is None ==> !going
                },
            decreases n - i,
        {
            proof {
                reveal(EditorView::counted);
            }
            let before: usize = self.cursor;
            let anchor: usize = self.anchor;
            let revision: usize = self.current_buffer().char_count();
            let ghost was = self@;
            action(self);
            proof {
                if !was.buffer().readonly && is_announced_edit(was, self@) {
                    lemma_announced_edit(was, self@);
                }
            }
            let now: usize = self.current_buffer().char_count();
            i += 1;
            if self.cursor == before && self.anchor == anchor && now == revision {
                going = false;
            } else {
                if group.is_none() {
                    let k: usize = self.active;
                    let ghost ran = self@;
                    let ghost bs = self.buffers@;
                    let old_group: bool = self.buffers[k].begin_undo_group();
                    group = Some(old_group);
                    proof {
                        lemma_buffer_update(bs, self.buffers@, k as int);
                        assert(self@ =~= ran.grouping(true));
                    }
                }
            }
        }
        match group {
            Some(was) => {
                let k: usize = self.active;
                let ghost ran = self@;
                let ghost bs = self.buffers@;
                self.buffers[k].end_undo_group(was);
                proof {
                    lemma_buffer_update(bs, self.buffers@, k as int);
                    assert(self@ =~= ran.grouping(was));
                }
            },
            None => {},
        }
        proof {
            let (before, after) = (old(self)@.buffer(), self@.buffer());
            let point = PointView { text: old(self)@.text(), at: old(self)@.cursor };
            if !after.readonly && after.past == before.past.push(point) {
                lemma_one_undo_point(old(self)@, self@);
            }
        }
    }

    /// [`Editor::repeat`] for an action that writes: the count is cut down to
    /// the ceiling, and that is said.
    pub fn repeat_writing<F: Fn(&mut Editor)>(&mut self, n: usize, action: F)
        requires
            old(self).wf(),
            forall|x: &mut Editor| (*x).wf() ==> #[trigger] call_requires(action, (x,)),
            forall|x: &mut Editor|
                #![trigger call_ensures(action, (x,), ())]
                (*x).wf() && call_ensures(action, (x,), ()) ==> (*final(x)).wf(),
        ensures
            final(self).wf(),
            forall|step: spec_fn(EditorView) -> EditorView|
                #![trigger old(self)@.counted_writing(step, n as int)]
                (forall|x: &mut Editor|
                    #![trigger call_ensures(action, (x,), ())]
                    (*x).wf() && call_ensures(action, (x,), ()) ==> (*final(x))@ == step((*x)@))
                    ==> final(self)@ == old(self)@.counted_writing(step, n as int),
            n >= 1 && !old(self)@.buffer().readonly && !old(self)@.buffer().grouped && (forall|
                x: &mut Editor,
            |
                #![trigger call_ensures(action, (x,), ())]
                (*x).wf() && !(*x)@.buffer().readonly && call_ensures(action, (x,), ())
                    ==> is_announced_edit((*x)@, (*final(x))@)) ==> is_one_undo_point(
                old(self)@,
                final(self)@,
            ),
    {
        proof {
            reveal(EditorView::counted_writing);
        }
        self.repeat(
            if n <= WRITING_MAX {
                n
            } else {
                WRITING_MAX
            },
            action,
        );
        if n > WRITING_MAX {
            let ghost ran = self@;
            self.status = say::writing_ceiling(WRITING_MAX);
            proof {
                reveal(EditorView::undone);
                reveal(EditorView::redone);
                assert(is_one_undo_point(old(self)@, ran) ==> is_one_undo_point(
                    old(self)@,
                    self@,
                ));
            }
        }
    }
}

impl EditorView {
    /// In a typing session, unless the buffer is locked.
    pub open spec fn inserting(self) -> EditorView {
        if self.buffer().readonly {
            self.saying(say::readonly_text())
        } else {
            EditorView {
                extend: false,
                memory: MemoryView { typed: Seq::empty(), ..self.memory },
                mode: Mode::Insert,
                ..self
            }
        }
    }

    /// The count that was typed; one where none was.
    pub open spec fn count_or_one(self) -> int {
        match self.count {
            Some(n) => most(n, 1),
            None => 1,
        }
    }
}

// ---- Selecting ------------------------------------------------------------

impl EditorView {
    /// With the whole text selected.
    #[verifier::opaque]
    pub open spec fn selecting_all(self) -> EditorView {
        EditorView {
            anchor: 0,
            cursor: prev_grapheme(self.text(), self.text().len() as int),
            goal_column: 0,
            ..self
        }
    }

    /// The first line that the selection touches.
    pub open spec fn first_selected_line(self) -> int {
        line_of(self.text(), self.selection_start())
    }

    /// The last line that the selection touches.
    pub open spec fn last_selected_line(self) -> int {
        line_of(self.text(), most(self.selection_end() - 1, self.selection_start()))
    }

    /// With whole lines selected: those that the selection touches.
    #[verifier::opaque]
    pub open spec fn selecting_lines(self) -> EditorView {
        let head = line_start(self.text(), self.first_selected_line());
        let tail = line_start(self.text(), self.last_selected_line() + 1);
        EditorView {
            anchor: head,
            cursor: most(prev_grapheme(self.text(), tail), head),
            ..self
        }
    }

    /// With the cursor at the other end of the selection.
    #[verifier::opaque]
    pub open spec fn flipped(self) -> EditorView {
        EditorView { anchor: self.cursor, cursor: self.anchor, ..self }.aiming_here()
    }
}

/// Whether `a..b` begins where a line begins and ends behind a break, or where
/// the text does.
pub open spec fn are_whole_lines(t: Seq<char>, a: int, b: int) -> bool {
    &&& 0 <= a <= b <= t.len()
    &&& a == 0 || t[a - 1] == '\n'
    &&& b == t.len() || (b > 0 && t[b - 1] == '\n')
}

/// Whether `a..b`, grown to `to_a..to_b`, was grown by no line more than it
/// touched: no break stands between the beginnings, and none between the last
/// character of the one and that of the other.
pub open spec fn no_more_lines(t: Seq<char>, to_a: int, a: int, b: int, to_b: int) -> bool {
    &&& forall|k: int| to_a <= k < a ==> t[k] != '\n'
    &&& a < b ==> forall|k: int| b - 1 <= k < to_b - 1 ==> t[k] != '\n'
}

/// What holds of a selection that was grown to whole lines, where the last
/// grapheme of them ends where they end.
proof fn lemma_whole_lines(v: EditorView, w: EditorView)
    requires
        v.wf(),
        w == v.selecting_lines(),
        ({
            let tail = line_start(v.text(), v.last_selected_line() + 1);
            tail > 0 && tail == line_start(v.text(), line_of(v.text(), tail - 1) + 1)
                ==> next_grapheme(v.text(), prev_grapheme(v.text(), tail)) == tail
        }),
    ensures
        w.selection_start() == line_start(v.text(), v.first_selected_line()),
        w.selection_end() == line_start(v.text(), v.last_selected_line() + 1),
        w.selection_start() <= v.selection_start(),
        v.selection_end() <= w.selection_end(),
        w.selecting_lines() == w,
        are_whole_lines(v.text(), w.selection_start(), w.selection_end()),
        no_more_lines(
            v.text(),
            w.selection_start(),
            v.selection_start(),
            v.selection_end(),
            w.selection_end(),
        ),
{
    reveal(EditorView::selecting_lines);
    let t = v.text();
    let (first, last) = (v.first_selected_line(), v.last_selected_line());
    let (head, tail) = (line_start(t, first), line_start(t, last + 1));
    let at = most(v.selection_end() - 1, v.selection_start());
    lemma_next_grapheme(t, most(v.anchor, v.cursor));
    lemma_line_around(t, v.selection_start());
    lemma_line_around(t, at);
    lemma_line_of_monotone(t, v.selection_start(), at);
    lemma_line_start(t, first);
    lemma_line_start(t, last + 1);
    lemma_prev_grapheme(t, tail);
    if tail > head {
        // The last character is on the last line, and its grapheme begins there.
        lemma_line_around(t, tail - 1);
        lemma_line_of_monotone(t, head, tail - 1);
        if line_of(t, tail - 1) > last {
            lemma_line_start(t, line_of(t, tail - 1));
        }
        assert(line_of(t, tail - 1) == last);
        lemma_line_starts(t, first, last);
        assert(w.cursor == prev_grapheme(t, tail));
    } else {
        lemma_line_starts(t, first, last + 1);
        assert(head == t.len());
    }
    assert(w.text() == t);
    lemma_next_grapheme(t, w.cursor);
    assert(w.selection_end() == tail);
    assert(w.first_selected_line() == first);
    assert(w.last_selected_line() == last);
    assert(w.selecting_lines() =~= w);
    if head > 0 {
        assert(line_of(t, head - 1) < first);
    }
    if tail < t.len() {
        assert(line_of(t, tail - 1) < last + 1);
    }
    assert forall|k: int| head <= k < v.selection_start() implies t[k] != '\n' by {
        lemma_line_of_monotone(t, head, k);
        lemma_line_of_monotone(t, k + 1, v.selection_start());
    }
    assert forall|k: int| at <= k < tail - 1 implies t[k] != '\n' by {
        lemma_line_of_monotone(t, at, k);
        assert(line_of(t, k + 1) < last + 1);
    }
}

impl Editor {
    /// `%`: selects the whole text.
    pub fn select_all(&mut self)
        requires
            old(self).wf(),
        ensures
            final(self).wf(),
            final(self)@ == old(self)@.selecting_all(),
            final(self)@.selection_start() == 0,
            final(self)@.selection_end() == old(self)@.text().len(),
            final(self)@.text() == old(self)@.text(),
    {
        proof {
            reveal(EditorView::selecting_all);
        }
        let rope: &Rope = self.rope();
        let n: usize = rope_len(rope);
        let last: usize = find_prev_grapheme(rope, n);
        proof {
            let t = self@.text();
            if n > 0 {
                lemma_line_around(t, n - 1);
                lemma_line_start(t, line_of(t, n - 1) + 1);
            }
        }
        self.anchor = 0;
        self.cursor = last;
        self.goal_column = 0;
    }

    /// The first and the last line that the selection touches.
    pub(crate) fn selected_lines(&self) -> (r: (usize, usize))
        requires
            self.wf(),
        ensures
            r.0 == self@.first_selected_line(),
            r.1 == self@.last_selected_line(),
            r.0 <= r.1 < line_count(self@.text()),
    {
        let (start, end) = self.selection();
        let rope: &Rope = self.rope();
        let last: usize = if end > start {
            end - 1
        } else {
            start
        };
        proof {
            lemma_line_around(self@.text(), start as int);
            lemma_line_around(self@.text(), last as int);
            lemma_line_of_monotone(self@.text(), start as int, last as int);
        }
        (rope_char_to_line(rope, start), rope_char_to_line(rope, last))
    }

    /// `X`: grows the selection to whole lines. It begins where the first of
    /// them begins and ends behind the break of the last, so it covers what it
    /// covered, and growing it again changes nothing.
    pub fn extend_to_line_bounds(&mut self)
        requires
            old(self).wf(),
        ensures
            final(self).wf(),
            final(self)@ == old(self)@.selecting_lines(),
            final(self)@.selection_start() == line_start(
                old(self)@.text(),
                old(self)@.first_selected_line(),
            ),
            final(self)@.selection_end() == line_start(
                old(self)@.text(),
                old(self)@.last_selected_line() + 1,
            ),
            final(self)@.selection_start() <= old(self)@.selection_start(),
            old(self)@.selection_end() <= final(self)@.selection_end(),
            final(self)@.selecting_lines() == final(self)@,
            final(self)@.text() == old(self)@.text(),
            are_whole_lines(
                old(self)@.text(),
                final(self)@.selection_start(),
                final(self)@.selection_end(),
            ),
            no_more_lines(
                old(self)@.text(),
                final(self)@.selection_start(),
                old(self)@.selection_start(),
                old(self)@.selection_end(),
                final(self)@.selection_end(),
            ),
    {
        proof {
            reveal(EditorView::selecting_lines);
        }
        let (first, last) = self.selected_lines();
        let rope: &Rope = self.rope();
        let ghost t = rope_chars(*rope);
        proof {
            lemma_line_start(t, first as int);
            lemma_line_start(t, last + 1);
        }
        let head: usize = rope_line_to_char(rope, first);
        let lines: usize = rope_lines(rope);
        let tail: usize = if last + 1 < lines {
            rope_line_to_char(rope, last + 1)
        } else {
            rope_len(rope)
        };
        let back: usize = find_prev_grapheme(rope, tail);
        self.anchor = head;
        self.cursor = if back >= head {
            back
        } else {
            head
        };
        proof {
            lemma_whole_lines(old(self)@, self@);
        }
    }

    /// `A-;`: puts the cursor at the other end of the selection.
    pub fn flip_selection(&mut self)
        requires
            old(self).wf(),
        ensures
            final(self).wf(),
            final(self)@ == old(self)@.flipped(),
    {
        proof {
            reveal(EditorView::flipped);
        }
        let at: usize = self.anchor;
        self.anchor = self.cursor;
        self.cursor = at;
        self.refresh_goal_column();
    }
}

// ---- Joining lines --------------------------------------------------------

/// Whether `c` is the indentation that joining swallows.
pub open spec fn is_indentation(c: char) -> bool {
    c == ' ' || c == '\t' || c == '\u{3000}'
}

/// The first position at or after `i` that is not indentation.
pub open spec fn after_indentation(t: Seq<char>, i: int) -> int
    decreases t.len() - i,
{
    if i < t.len() && is_indentation(t[i]) {
        after_indentation(t, i + 1)
    } else {
        i
    }
}

/// What stands between two lines that were joined at `end..next`: a space,
/// but nothing between two full-width characters or at an end of the text.
pub open spec fn glue(t: Seq<char>, end: int, next: int) -> Seq<char> {
    if end <= 0 || next >= t.len() || (wide(t[end - 1]) && wide(t[next])) {
        Seq::empty()
    } else {
        seq![' ']
    }
}

impl EditorView {
    /// With the line below put behind the first line of the selection.
    #[verifier::opaque]
    pub open spec fn joining(self) -> EditorView {
        let t = self.text();
        let start = self.selection_start();
        if self.buffer().readonly {
            self.saying(say::readonly_text())
        } else if line_of(t, start) >= last_line_of(t) {
            self
        } else {
            let end = line_end_of(t, start);
            let next = after_indentation(t, end + 1);
            EditorView {
                cursor: end,
                anchor: end,
                ..self.announcing().writing(end, next, glue(t, end, next))
            }.clamped()
        }
    }
}

/// A line before the last one ends in a break.
proof fn lemma_break_follows(t: Seq<char>, i: int)
    requires
        0 <= i <= t.len(),
        line_of(t, i) < last_line_of(t),
    ensures
        i <= line_end_of(t, i) < t.len(),
{
    lemma_line_end(t, i);
    if line_end_of(t, i) == t.len() {
        lemma_same_line(t, i, t.len() as int);
    }
}

impl Editor {
    /// `J`: puts the line below behind the first line of the selection.
    pub fn join_lines(&mut self)
        requires
            old(self).wf(),
        ensures
            final(self).wf(),
            final(self)@ == old(self)@.joining(),
    {
        proof {
            reveal(EditorView::joining);
        }
        if self.refuse_readonly() {
            return;
        }
        let (start, _) = self.selection();
        let rope: &Rope = self.rope();
        let ghost t = rope_chars(*rope);
        let line: usize = rope_char_to_line(rope, start);
        if line >= last_line(rope) {
            return;
        }
        let end: usize = line_end(rope, start);
        proof {
            lemma_break_follows(t, start as int);
        }
        let mut next: usize = end + 1;
        let len: usize = rope_len(rope);
        while next < len && (rope_char(rope, next) == ' ' || rope_char(rope, next) == '\t'
            || rope_char(rope, next) == '\u{3000}')
            invariant
                end + 1 <= next <= len,
                t == rope_chars(*rope),
                len == t.len(),
                after_indentation(t, end + 1) == after_indentation(t, next as int),
            decreases len - next,
        {
            next += 1;
        }
        let glued: bool = if end == 0 || next >= len {
            true
        } else {
            is_wide(rope_char(rope, end - 1)) && is_wide(rope_char(rope, next))
        };
        proof {
            reveal_strlit("");
            reveal_strlit(" ");
            assert(""@ =~= Seq::empty());
            assert(" "@ =~= seq![' ']);
        }
        let between: &str = if glued {
            ""
        } else {
            " "
        };
        self.snapshot();
        if !self.overwrite(end, next, between) {
            return;
        }
        self.cursor = end;
        self.anchor = end;
        self.clamp_cursor();
        assert(self@ =~= old(self)@.joining());
    }
}

// ---- Writing over the selection -------------------------------------------

/// The characters of `s`, each turned into what `g` gives.
pub open spec fn mapped(s: Seq<char>, g: spec_fn(char) -> Seq<char>) -> Seq<char>
    decreases s.len(),
{
    if s.len() == 0 {
        Seq::empty()
    } else {
        mapped(s.drop_last(), g) + g(s.last())
    }
}

/// A grapheme written over with `c`; a line ending stays.
pub open spec fn written_over(had: Seq<char>, c: char) -> Seq<char> {
    if had.len() > 0 && (had[0] == '\n' || had[0] == '\r') {
        had
    } else {
        seq![c]
    }
}

/// The pieces, each written over with `c`.
pub open spec fn all_written_over(pieces: Seq<Seq<char>>, c: char) -> Seq<char>
    decreases pieces.len(),
{
    if pieces.len() == 0 {
        Seq::empty()
    } else {
        all_written_over(pieces.drop_last(), c) + written_over(pieces.last(), c)
    }
}

/// Writing over keeps the line breaks.
proof fn lemma_written_over_keeps_breaks(pieces: Seq<Seq<char>>, c: char)
    requires
        c != '\n',
        forall|k: int| 0 <= k < pieces.len() ==> breaks_alone(#[trigger] pieces[k]),
    ensures
        line_of(all_written_over(pieces, c), all_written_over(pieces, c).len() as int) == line_of(
            pieces.flatten_alt(),
            pieces.flatten_alt().len() as int,
        ),
    decreases pieces.len(),
{
    if pieces.len() > 0 {
        let rest = pieces.drop_last();
        let had = pieces.last();
        let put = written_over(had, c);
        lemma_written_over_keeps_breaks(rest, c);
        lemma_line_of_concat(all_written_over(rest, c), put, put.len() as int);
        lemma_line_of_concat(rest.flatten_alt(), had, had.len() as int);
        assert(breaks_alone(had));
        if put != had {
            assert forall|k: int| 0 <= k < had.len() implies had[k] != '\n' by {
                if had[k] == '\n' {
                    assert(had.contains('\n'));
                }
            }
            lemma_same_line(had, 0, had.len() as int);
            lemma_same_line(put, 0, put.len() as int);
        }
    }
}

/// A splice that puts in as many breaks as it takes out keeps the lines.
proof fn lemma_splice_as_many_breaks(t: Seq<char>, a: int, b: int, s: Seq<char>)
    requires
        0 <= a <= b <= t.len(),
        line_of(s, s.len() as int) == line_of(t.subrange(a, b), b - a),
    ensures
        line_count(spliced(t, a, b, s)) == line_count(t),
{
    let head = t.take(a);
    let mid = t.subrange(a, b);
    let tail = t.skip(b);
    assert(t =~= head + mid + tail);
    lemma_line_of_concat(head + mid, tail, tail.len() as int);
    lemma_line_of_concat(head, mid, mid.len() as int);
    lemma_line_of_concat(head + s, tail, tail.len() as int);
    lemma_line_of_concat(head, s, s.len() as int);
}

/// `b` moved back to `a` over line endings.
pub open spec fn before_line_ends(t: Seq<char>, a: int, b: int) -> int
    decreases b - a,
{
    if b > a && (t[b - 1] == '\n' || t[b - 1] == '\r') {
        before_line_ends(t, a, b - 1)
    } else {
        b
    }
}

impl EditorView {
    /// What is selected.
    pub open spec fn selected(self) -> Seq<char> {
        self.text().subrange(self.selection_start(), self.selection_end())
    }

    /// With `a..b` selected, the cursor on its last grapheme.
    pub open spec fn selecting(self, a: int, b: int) -> EditorView {
        EditorView {
            anchor: a,
            cursor: most(prev_grapheme(self.text(), least(b, self.text().len() as int)), a),
            ..self
        }
    }

    /// With `s` written over `a..b`, and selected up to `to`; the locked buffer
    /// refuses.
    pub open spec fn writing_over(self, a: int, b: int, s: Seq<char>, to: int) -> EditorView {
        let done = self.announcing().writing(a, b, s);
        if self.buffer().readonly {
            done
        } else {
            done.selecting(a, to)
        }
    }

    /// With every selected character turned into what `g` gives, and selected.
    #[verifier::opaque]
    pub open spec fn mapping(self, g: spec_fn(char) -> Seq<char>) -> EditorView {
        let (a, b) = (self.selection_start(), self.selection_end());
        let s = mapped(self.selected(), g);
        if a >= b {
            self
        } else {
            self.writing_over(a, b, s, a + s.len())
        }
    }

    /// With every selected grapheme written over with `c`, and what was written
    /// selected.
    #[verifier::opaque]
    pub open spec fn replacing_chars(self, c: char) -> EditorView {
        let (a, b) = (self.selection_start(), self.selection_end());
        let s = all_written_over(graphemes(self.selected()), c);
        if a >= b {
            self
        } else {
            self.writing_over(a, b, s, a + s.len()).clamped()
        }
    }

    /// With the selection replaced by `s`. One character is written over every
    /// grapheme of it; a line ending after it is not part of it.
    #[verifier::opaque]
    pub open spec fn replacing_with(self, s: Seq<char>) -> EditorView {
        let a = self.selection_start();
        let b = before_line_ends(self.text(), a, self.selection_end());
        if s.len() == 0 {
            self
        } else if s.len() == 1 {
            self.replacing_chars(s[0])
        } else if a >= b {
            self
        } else {
            self.writing_over(a, b, s, a + s.len()).clamped()
        }
    }
}

impl Editor {
    /// Selects `a..b`, the cursor on its last grapheme.
    pub(crate) fn select_range(&mut self, a: usize, b: usize)
        requires
            old(self)@.sound(),
            a <= old(self)@.text().len(),
        ensures
            final(self).wf(),
            final(self)@ == old(self)@.selecting(a as int, b as int),
    {
        let rope: &Rope = self.rope();
        let n: usize = rope_len(rope);
        let to: usize = if b <= n {
            b
        } else {
            n
        };
        let back: usize = find_prev_grapheme(rope, to);
        self.anchor = a;
        self.cursor = if back >= a {
            back
        } else {
            a
        };
    }

    /// Writes `s` over `a..b` and selects it up to `to`; says so where the
    /// buffer is locked.
    pub(crate) fn write_over(&mut self, a: usize, b: usize, s: &str, to: usize) -> (done: bool)
        requires
            old(self).wf(),
            a <= b <= old(self)@.text().len(),
        ensures
            final(self).wf(),
            final(self)@ == old(self)@.writing_over(a as int, b as int, s@, to as int),
            done == !old(self)@.buffer().readonly,
            final(self)@.text().len() <= usize::MAX,
    {
        self.snapshot();
        proof {
            lemma_spliced(self@.text(), a as int, b as int, s@);
        }
        if !self.overwrite(a, b, s) {
            return false;
        }
        self.select_range(a, to);
        true
    }

    /// Turns every selected character into what `f` gives.
    pub fn map_selection<F: Fn(char) -> String>(&mut self, f: F)
        requires
            old(self).wf(),
            forall|c: char| #[trigger] call_requires(f, (c,)),
        ensures
            final(self).wf(),
            forall|g: spec_fn(char) -> Seq<char>|
                #![trigger old(self)@.mapping(g)]
                (forall|c: char, s: String| #[trigger] call_ensures(f, (c,), s) ==> s@ == g(c))
                    ==> final(self)@ == old(self)@.mapping(g),
    {
        proof {
            reveal(EditorView::mapping);
        }
        let (start, end) = self.selection();
        if start >= end {
            return;
        }
        let slice: String = rope_slice(self.rope(), start, end);
        let had: Vec<char> = chars_of(slice.as_str());
        let mut text: String = String::new();
        let mut i: usize = 0;
        assert(had@.take(0) =~= Seq::empty());
        assert(text@ =~= Seq::empty());
        while i < had.len()
            invariant
                0 <= i <= had@.len(),
                forall|c: char| #[trigger] call_requires(f, (c,)),
                forall|g: spec_fn(char) -> Seq<char>|
                    #![trigger mapped(had@.take(i as int), g)]
                    (forall|c: char, s: String| #[trigger]
                        call_ensures(f, (c,), s) ==> s@ == g(c)) ==> text@ == mapped(
                        had@.take(i as int),
                        g,
                    ),
            decreases had@.len() - i,
        {
            let ghost before = text@;
            let s: String = f(had[i]);
            text.push_str(s.as_str());
            proof {
                assert(had@.take(i + 1).drop_last() =~= had@.take(i as int));
                assert forall|g: spec_fn(char) -> Seq<char>|
                    #![trigger mapped(had@.take(i + 1), g)]
                    (forall|c: char, s: String| #[trigger]
                        call_ensures(f, (c,), s) ==> s@ == g(c)) implies text@ == mapped(
                    had@.take(i + 1),
                    g,
                ) by {
                    assert(before == mapped(had@.take(i as int), g));
                }
            }
            i += 1;
        }
        assert(had@.take(had@.len() as int) =~= had@);
        let n: usize = char_count(text.as_str());
        let to: usize = start.saturating_add(n);
        let ghost now = self@;
        let _ = self.write_over(start, end, text.as_str(), to);
        proof {
            lemma_spliced(now.text(), start as int, end as int, text@);
            assert(now.writing_over(start as int, end as int, text@, to as int)
                == now.writing_over(start as int, end as int, text@, start + n));
            assert forall|g: spec_fn(char) -> Seq<char>|
                #![trigger old(self)@.mapping(g)]
                (forall|c: char, s: String| #[trigger]
                    call_ensures(f, (c,), s) ==> s@ == g(c)) implies self@ == old(self)@.mapping(
                g,
            ) by {
                assert(text@ == mapped(had@, g));
                assert(had@ == old(self)@.selected());
            }
        }
    }

    /// `r`: writes `c` over every selected grapheme, one for one, and what was
    /// written is selected; line endings stay, so the text keeps its lines.
    pub fn replace_chars(&mut self, c: char)
        requires
            old(self).wf(),
        ensures
            final(self).wf(),
            final(self)@ == old(self)@.replacing_chars(c),
            c != '\n' ==> line_count(final(self)@.text()) == line_count(old(self)@.text()),
    {
        proof {
            reveal(EditorView::replacing_chars);
        }
        let (start, end) = self.selection();
        if start >= end {
            return;
        }
        let slice: String = rope_slice(self.rope(), start, end);
        let pieces: Vec<String> = cut_graphemes(slice.as_str());
        let ghost all = views(pieces@);
        let mut text: String = String::new();
        let mut i: usize = 0;
        assert(all.take(0) =~= Seq::empty());
        assert(text@ =~= Seq::empty());
        while i < pieces.len()
            invariant
                0 <= i <= pieces@.len(),
                all == views(pieces@),
                text@ == all_written_over(all.take(i as int), c),
            decreases pieces@.len() - i,
        {
            let had: &str = pieces[i].as_str();
            let ghost before = text@;
            if had.unicode_len() > 0 && (had.get_char(0) == '\n' || had.get_char(0) == '\r') {
                text.push_str(had);
            } else {
                text.push(c);
            }
            proof {
                assert(all.take(i + 1).drop_last() =~= all.take(i as int));
                assert(all.take(i + 1).last() == pieces@[i as int]@);
                assert(text@ =~= before + written_over(pieces@[i as int]@, c));
            }
            i += 1;
        }
        assert(all.take(pieces@.len() as int) =~= all);
        proof {
            if c != '\n' {
                all.lemma_flatten_and_flatten_alt_are_equivalent();
                lemma_written_over_keeps_breaks(all, c);
                lemma_splice_as_many_breaks(self@.text(), start as int, end as int, text@);
            }
        }
        let n: usize = char_count(text.as_str());
        let to: usize = start.saturating_add(n);
        let ghost now = self@;
        let done: bool = self.write_over(start, end, text.as_str(), to);
        proof {
            lemma_spliced(now.text(), start as int, end as int, text@);
            assert(now.writing_over(start as int, end as int, text@, to as int)
                == now.writing_over(start as int, end as int, text@, start + n));
        }
        if !done {
            assert(self@ =~= self@.clamped());
            return;
        }
        self.clamp_cursor();
    }

    /// Replaces the selection by `text`, as an input method gives it.
    pub fn replace_str(&mut self, text: &str)
        requires
            old(self).wf(),
        ensures
            final(self).wf(),
            final(self)@ == old(self)@.replacing_with(text@),
    {
        proof {
            reveal(EditorView::replacing_with);
        }
        let n: usize = char_count(text);
        if n == 0 {
            return;
        }
        if n == 1 {
            self.replace_chars(text.get_char(0));
            return;
        }
        let (start, selected) = self.selection();
        let mut end: usize = selected;
        let rope: &Rope = self.rope();
        while end > start && (rope_char(rope, end - 1) == '\n' || rope_char(rope, end - 1) == '\r')
            invariant
                start <= end <= selected <= rope_chars(*rope).len(),
                before_line_ends(rope_chars(*rope), start as int, selected as int)
                    == before_line_ends(rope_chars(*rope), start as int, end as int),
            decreases end,
        {
            end -= 1;
        }
        if start >= end {
            return;
        }
        let to: usize = start.saturating_add(n);
        proof {
            lemma_spliced(self@.text(), start as int, end as int, text@);
        }
        let ghost now = self@;
        let done: bool = self.write_over(start, end, text, to);
        assert(now.writing_over(start as int, end as int, text@, to as int) == now.writing_over(
            start as int,
            end as int,
            text@,
            start + n,
        ));
        if !done {
            assert(self@ =~= self@.clamped());
            return;
        }
        self.clamp_cursor();
    }
}

// ---- The register, indentation, numbers -----------------------------------

/// `n` spaces.
pub open spec fn spaces(n: int) -> Seq<char> {
    Seq::new(if n > 0 { n as nat } else { 0 }, |i: int| ' ')
}

/// How many spaces stand at `i`, counted up to `limit`.
pub open spec fn spaces_at(t: Seq<char>, i: int, limit: int) -> int
    decreases limit,
{
    if limit > 0 && i < t.len() && t[i] == ' ' {
        1 + spaces_at(t, i + 1, limit - 1)
    } else {
        0
    }
}

impl EditorView {
    /// With the selection replaced by what the register holds.
    #[verifier::opaque]
    pub open spec fn replacing_with_register(self) -> EditorView {
        let s = self.recalled();
        let asked = self.asking_for_none();
        let (a, b) = (self.selection_start(), self.selection_end());
        if s.len() == 0 {
            asked.saying(
                match self.registers.asked {
                    Some(c) => say::register_empty_text(c),
                    None => say::nothing_yanked_text(),
                },
            )
        } else if self.buffer().readonly {
            asked.saying(say::readonly_text())
        } else {
            EditorView {
                anchor: a,
                cursor: a + s.len(),
                ..asked.announcing().writing(a, b, s)
            }.clamped()
        }
    }

    /// With line `l` one level further in, or out.
    pub open spec fn indenting_line(self, add: bool, l: int) -> EditorView {
        let at = line_start(self.text(), l);
        let n = spaces_at(self.text(), at, self.settings.indent_width as int);
        if add {
            self.writing(at, at, spaces(self.settings.indent_width as int))
        } else if n > 0 {
            self.writing(at, at + n, Seq::empty())
        } else {
            self
        }
    }

    /// With the lines from `first` to `last` one level further in, or out.
    pub open spec fn indenting_lines(self, add: bool, first: int, last: int) -> EditorView
        decreases last - first + 1,
    {
        if last < first {
            self
        } else {
            self.indenting_line(add, last).indenting_lines(add, first, last - 1)
        }
    }

    /// With every line that the selection touches one level further in, or out.
    #[verifier::opaque]
    pub open spec fn indenting(self, add: bool) -> EditorView {
        self.announcing().indenting_lines(
            add,
            self.first_selected_line(),
            self.last_selected_line(),
        ).clamped()
    }
}

pub proof fn lemma_spaces_at(t: Seq<char>, i: int, limit: int)
    requires
        0 <= i <= t.len(),
        0 <= limit,
    ensures
        0 <= spaces_at(t, i, limit) <= limit,
        i + spaces_at(t, i, limit) <= t.len(),
        forall|k: int| i <= k < i + spaces_at(t, i, limit) ==> t[k] == ' ',
    decreases limit,
{
    if limit > 0 && i < t.len() && t[i] == ' ' {
        lemma_spaces_at(t, i + 1, limit - 1);
    }
}

impl Editor {
    /// `R`: replaces the selection by what the register holds.
    pub fn replace_with_register(&mut self)
        requires
            old(self).wf(),
        ensures
            final(self).wf(),
            final(self)@ == old(self)@.replacing_with_register(),
    {
        proof {
            reveal(EditorView::replacing_with_register);
        }
        let named: Option<char> = self.registers.asked;
        let text: String = self.recall();
        let n: usize = char_count(text.as_str());
        if n == 0 {
            self.status = match named {
                Some(name) => say::register_empty(name),
                None => say::nothing_yanked(),
            };
            return;
        }
        let (start, end) = self.selection();
        self.snapshot();
        proof {
            lemma_spliced(self@.text(), start as int, end as int, text@);
        }
        if !self.overwrite(start, end, text.as_str()) {
            assert(self@.buffers =~= old(self)@.buffers);
            return;
        }
        self.anchor = start;
        self.cursor = start + n;
        self.clamp_cursor();
        assert(self@ =~= old(self)@.replacing_with_register());
    }

    /// Puts line `l` one level further in, or out.
    fn indent_line(&mut self, add: bool, pad: &str, l: usize)
        requires
            old(self)@.sound(),
            pad@ == spaces(old(self)@.settings.indent_width as int),
            l < line_count(old(self)@.text()),
        ensures
            final(self)@.sound(),
            final(self)@ == old(self)@.indenting_line(add, l as int),
            line_count(final(self)@.text()) == line_count(old(self)@.text()),
            final(self)@.settings.indent_width == old(self)@.settings.indent_width,
    {
        let rope: &Rope = self.rope();
        let ghost t = rope_chars(*rope);
        proof {
            lemma_line_start(t, l as int);
        }
        let at: usize = rope_line_to_char(rope, l);
        if add {
            proof {
                lemma_splice_keeps_lines(t, at as int, at as int, pad@);
            }
            let _ = self.overwrite(at, at, pad);
        } else {
            let len: usize = rope_len(rope);
            let mut n: usize = 0;
            while n < self.settings.indent_width && n < len - at && rope_char(rope, at + n) == ' '
                invariant
                    self@.sound(),
                    at <= len,
                    len == t.len(),
                    t == rope_chars(*rope),
                    0 <= n <= self.settings.indent_width,
                    at + n <= len,
                    spaces_at(t, at as int, self.settings.indent_width as int) == n + spaces_at(
                        t,
                        at + n,
                        self.settings.indent_width - n,
                    ),
                decreases self.settings.indent_width - n,
            {
                n += 1;
            }
            proof {
                reveal_strlit("");
                assert(""@ =~= Seq::empty());
                lemma_spaces_at(t, at as int, self.settings.indent_width as int);
                lemma_splice_keeps_lines(t, at as int, at + n, Seq::empty());
            }
            if n > 0 {
                let _ = self.overwrite(at, at + n, "");
            }
        }
    }

    /// `>` and `<`: puts every line that the selection touches one level
    /// further in, or out.
    pub fn indent(&mut self, add: bool)
        requires
            old(self).wf(),
        ensures
            final(self).wf(),
            final(self)@ == old(self)@.indenting(add),
    {
        proof {
            reveal(EditorView::indenting);
        }
        let (first, last) = self.selected_lines();
        let mut pad: String = String::new();
        let mut w: usize = 0;
        assert(pad@ =~= spaces(0));
        while w < self.settings.indent_width
            invariant
                0 <= w <= self.settings.indent_width,
                pad@ == spaces(w as int),
            decreases self.settings.indent_width - w,
        {
            pad.push(' ');
            w += 1;
            assert(pad@ =~= spaces(w as int));
        }
        self.snapshot();
        let lines: usize = self.current_buffer().line_count();
        let mut left: usize = last - first + 1;
        while left > 0
            invariant
                0 <= left <= last - first + 1,
                first <= last < lines,
                self@.sound(),
                lines == line_count(self@.text()),
                pad@ == spaces(self@.settings.indent_width as int),
                old(self)@.announcing().indenting_lines(add, first as int, last as int)
                    == self@.indenting_lines(add, first as int, first + left - 1),
            decreases left,
        {
            self.indent_line(add, pad.as_str(), first + (left - 1));
            left -= 1;
        }
        self.clamp_cursor();
    }
}

// ---- Numbers --------------------------------------------------------------

/// The first digit at or after `i`, or the end of the line.
pub open spec fn digit_from(line: Seq<char>, i: int) -> int
    decreases line.len() - i,
{
    if i >= line.len() {
        line.len() as int
    } else if is_digit(line[i]) {
        i
    } else {
        digit_from(line, i + 1)
    }
}

/// Where the digits before `i` begin.
pub open spec fn digits_before(line: Seq<char>, i: int) -> int
    decreases i,
{
    if i > 0 && is_digit(line[i - 1]) {
        digits_before(line, i - 1)
    } else {
        i
    }
}

/// Where the digits from `i` on end.
pub open spec fn digits_after(line: Seq<char>, i: int) -> int
    decreases line.len() - i,
{
    if i < line.len() && is_digit(line[i]) {
        digits_after(line, i + 1)
    } else {
        i
    }
}

/// A number on a line: where its digits begin, where they end, and what it is
/// worth with the `-` before it.
pub struct Written {
    pub first: int,
    pub end: int,
    pub value: i64,
}

impl Written {
    /// Where the number begins, the `-` before it being part of it.
    pub open spec fn start(self, line: Seq<char>) -> int {
        if self.first > 0 && line[self.first - 1] == '-' {
            self.first - 1
        } else {
            self.first
        }
    }

    /// Whether the digits were filled up with zeros.
    pub open spec fn padded(self, line: Seq<char>) -> bool {
        line[self.first] == '0' && self.end - self.first > 1
    }
}

/// The number at `col`, or the next one along the line; none where there is no
/// digit, or where it is too large.
pub open spec fn number_at(line: Seq<char>, col: int) -> Option<Written> {
    let d = digit_from(line, col);
    if d >= line.len() {
        None
    } else {
        let first = digits_before(line, d);
        let end = digits_after(line, first);
        let start = if first > 0 && line[first - 1] == '-' {
            first - 1
        } else {
            first
        };
        match parsed(line.subrange(start, end)) {
            Some(value) => Some(Written { first, end, value }),
            None => None,
        }
    }
}

/// The sum, kept within an `i64`.
pub open spec fn stepped(value: i64, delta: i64) -> int {
    if value + delta > i64::MAX {
        i64::MAX as int
    } else if value + delta < i64::MIN {
        i64::MIN as int
    } else {
        value + delta
    }
}

impl EditorView {
    /// The line the cursor is on.
    pub open spec fn cursor_line(self) -> int {
        line_of(self.text(), self.cursor)
    }

    /// The number at the cursor, or the next one along its line.
    pub open spec fn number_here(self) -> Option<Written> {
        number_at(
            line_text(self.text(), self.cursor_line()),
            self.cursor - line_start(self.text(), self.cursor_line()),
        )
    }

    /// Whether the number at the cursor can be stepped: one that was filled up
    /// with zeros must not become the least of all.
    pub open spec fn can_bump(self, delta: i64) -> bool {
        match self.number_here() {
            Some(n) => n.padded(line_text(self.text(), self.cursor_line())) ==> stepped(
                n.value,
                delta,
            ) != i64::MIN,
            None => true,
        }
    }

    /// With `delta` put to the number at the cursor, or the next one along its
    /// line. A number that was filled up with zeros stays filled up.
    #[verifier::opaque]
    pub open spec fn bumping(self, delta: i64) -> EditorView {
        let line = line_text(self.text(), self.cursor_line());
        let base = line_start(self.text(), self.cursor_line());
        if self.buffer().readonly {
            self.saying(say::readonly_text())
        } else {
            match self.number_here() {
                None => self,
                Some(n) => {
                    let next = stepped(n.value, delta);
                    let s = if n.padded(line) {
                        padded_decimal(next, n.end - n.first)
                    } else {
                        signed_decimal(next)
                    };
                    let at = base + n.start(line);
                    EditorView {
                        cursor: at,
                        anchor: at,
                        ..self.announcing().writing(at, base + n.end, s)
                    }.clamped()
                },
            }
        }
    }
}

/// A number that was found: where its line begins, and on the line where it
/// begins, where its digits begin, and where they end.
struct Number {
    base: usize,
    start: usize,
    first: usize,
    end: usize,
    value: i64,
    padded: bool,
}

/// The sum, kept within an `i64`.
fn step_value(value: i64, delta: i64) -> (next: i64)
    ensures
        next == stepped(value, delta),
{
    match value.checked_add(delta) {
        Some(next) => next,
        None => if delta > 0 {
            i64::MAX
        } else {
            i64::MIN
        },
    }
}

impl Editor {
    /// The number at the cursor, or the next one along its line.
    fn find_number(&self) -> (r: Option<Number>)
        requires
            self.wf(),
        ensures
            match r {
                Some(n) => {
                    let line = line_text(self@.text(), self@.cursor_line());
                    &&& self@.number_here() == Some(
                        Written { first: n.first as int, end: n.end as int, value: n.value },
                    )
                    &&& n.base == line_start(self@.text(), self@.cursor_line())
                    &&& n.start == self@.number_here()->0.start(line)
                    &&& n.padded == self@.number_here()->0.padded(line)
                    &&& n.start <= n.first <= n.end
                    &&& n.base + n.end <= self@.text().len() <= usize::MAX
                },
                None => self@.number_here() is None,
            },
    {
        let rope: &Rope = self.rope();
        let ghost t = rope_chars(*rope);
        proof {
            lemma_line_around(t, self@.cursor);
        }
        let l: usize = rope_char_to_line(rope, self.cursor);
        let base: usize = rope_line_to_char(rope, l);
        let text: String = rope_line(rope, l);
        let line: Vec<char> = chars_of(text.as_str());
        let ghost c = line@;
        let col: usize = self.cursor - base;
        let mut d: usize = col;
        while d < line.len() && !digit(line[d])
            invariant
                col <= d <= c.len(),
                c == line@,
                digit_from(c, col as int) == digit_from(c, d as int),
            decreases c.len() - d,
        {
            d += 1;
        }
        if d >= line.len() {
            return None;
        }
        let mut first: usize = d;
        while first > 0 && digit(line[first - 1])
            invariant
                0 <= first <= d < c.len(),
                c == line@,
                digits_before(c, d as int) == digits_before(c, first as int),
                forall|k: int| first <= k <= d ==> is_digit(#[trigger] c[k]),
            decreases first,
        {
            first -= 1;
        }
        let mut end: usize = first;
        while end < line.len() && digit(line[end])
            invariant
                0 <= first <= end <= c.len(),
                c == line@,
                digits_after(c, first as int) == digits_after(c, end as int),
                forall|k: int| first <= k < end ==> is_digit(#[trigger] c[k]),
            decreases c.len() - end,
        {
            end += 1;
        }
        let start: usize = if first > 0 && line[first - 1] == '-' {
            first - 1
        } else {
            first
        };
        proof {
            lemma_line_start(t, l + 1);
        }
        let value: i64 = match parse(&line, start, end) {
            Some(value) => value,
            None => return None,
        };
        Some(Number { base, start, first, end, value, padded: line[first] == '0' && end - first > 1 })
    }

    /// Whether the number at the cursor can be stepped.
    pub fn can_bump_number(&self, delta: i64) -> (r: bool)
        requires
            self.wf(),
        ensures
            r == self@.can_bump(delta),
    {
        match self.find_number() {
            Some(n) => !n.padded || step_value(n.value, delta) != i64::MIN,
            None => true,
        }
    }

    /// `C-a` and `C-x`: puts `delta` to the number at the cursor, or the next
    /// one along its line.
    pub fn bump_number(&mut self, delta: i64)
        requires
            old(self).wf(),
            old(self)@.buffer().readonly || old(self)@.can_bump(delta),
        ensures
            final(self).wf(),
            final(self)@ == old(self)@.bumping(delta),
    {
        proof {
            reveal(EditorView::bumping);
        }
        if self.refuse_readonly() {
            return;
        }
        let n: Number = match self.find_number() {
            Some(n) => n,
            None => return ,
        };
        let next: i64 = step_value(n.value, delta);
        let s: String = if n.padded {
            padded_decimal_of(next, n.end - n.first)
        } else {
            signed_decimal_of(next)
        };
        self.snapshot();
        proof {
            lemma_spliced(self@.text(), n.base + n.start, n.base + n.end, s@);
        }
        if !self.overwrite(n.base + n.start, n.base + n.end, s.as_str()) {
            return;
        }
        self.cursor = n.base + n.start;
        self.anchor = n.base + n.start;
        self.clamp_cursor();
        assert(self@ =~= old(self)@.bumping(delta));
    }
}

} // verus!
