//! Doing what a key says.

use vstd::prelude::*;
use ropey::Rope;
use crate::case::Case;
use crate::editor::{Editor, EditorView, least, Mode, most};
use crate::grapheme::{find_next_grapheme, find_prev_grapheme, next_grapheme, prev_grapheme};
use crate::keymap::{Act, Hint, Pending};
use crate::motion::{last_line, line_end};
use crate::moves::Motion;
use crate::rope::{rope_char_to_line, rope_chars, rope_line_to_char};
use crate::say;
use crate::state::RequestsView;
use crate::text::{
    last_line as last_line_of, lemma_line_around, lemma_line_start, line_end as line_end_of,
    line_of, line_start,
};

verus! {

/// What a hint says.
pub open spec fn hint_text(hint: Hint) -> Seq<char> {
    match hint {
        Hint::LineStart => say::hint_line_start_text(),
        Hint::LineEnd => say::hint_line_end_text(),
        Hint::LineText => say::hint_line_text_text(),
        Hint::Macro => say::hint_macro_text(),
        Hint::Sentence => say::hint_sentence_text(),
        Hint::Redo => say::hint_redo_text(),
        Hint::Comment => say::hint_comment_text(),
        Hint::Case => say::hint_case_text(),
        Hint::Definition => say::hint_definition_text(),
    }
}

/// What a hint says.
fn say_hint(hint: Hint) -> (s: String)
    ensures
        s@ == hint_text(hint),
{
    match hint {
        Hint::LineStart => say::hint_line_start(),
        Hint::LineEnd => say::hint_line_end(),
        Hint::LineText => say::hint_line_text(),
        Hint::Macro => say::hint_macro(),
        Hint::Sentence => say::hint_sentence(),
        Hint::Redo => say::hint_redo(),
        Hint::Comment => say::hint_comment(),
        Hint::Case => say::hint_case(),
        Hint::Definition => say::hint_definition(),
    }
}

impl EditorView {
    /// With the count used up.
    pub open spec fn uncounted(self) -> EditorView {
        EditorView { count: None, ..self }
    }

    /// A motion, as often as the count says.
    #[verifier::opaque]
    pub open spec fn moving(self, m: Motion) -> EditorView {
        self.uncounted().counted(|v: EditorView| v.stepping(m), self.count_or_one())
    }

    /// How many lines half a page has, or a whole one.
    pub open spec fn page_step(self, half: bool) -> int {
        let n = self.settings.page_lines as int;
        most(
            if half {
                n / 2
            } else {
                n
            },
            1,
        )
    }

    /// Pages down or up.
    #[verifier::opaque]
    pub open spec fn paging(self, half: bool, down: bool) -> EditorView {
        let n = self.page_step(half) as usize;
        self.moving(
            if down {
                Motion::Down(n)
            } else {
                Motion::Up(n)
            },
        )
    }

    /// At the line that the count says; else at the first, or the last.
    #[verifier::opaque]
    pub open spec fn at_counted_line(self, last: bool) -> EditorView {
        let v = self.uncounted();
        match self.count {
            Some(n) => v.at_line(n),
            None => if last {
                v.at_line(last_line_of(self.text()) + 1)
            } else {
                v.going(0).aiming_here()
            },
        }
    }

    /// With the line of the cursor selected with its break; where whole lines
    /// are selected, with the next one too.
    #[verifier::opaque]
    pub open spec fn selecting_line(self) -> EditorView {
        let t = self.text();
        let l = self.cursor_line();
        let whole = self.anchor < self.cursor && self.anchor == line_start(
            t,
            line_of(t, self.anchor),
        ) && next_grapheme(t, self.cursor) == line_start(t, l + 1) && l < last_line_of(t);
        if whole {
            EditorView {
                cursor: most(prev_grapheme(t, line_start(t, l + 2)), line_start(t, l + 1)),
                ..self
            }
        } else {
            EditorView {
                anchor: line_start(t, l),
                cursor: most(prev_grapheme(t, line_start(t, l + 1)), line_start(t, l)),
                ..self
            }
        }
    }

    /// With the next buffer on the page, or the one before; round the ends.
    #[verifier::opaque]
    pub open spec fn turning(self, forward: bool) -> EditorView {
        let n = self.buffers.len() as int;
        if n == 1 {
            self
        } else if forward {
            self.showing_buffer(
                if self.active + 1 < n {
                    self.active + 1
                } else {
                    0
                },
            )
        } else {
            self.showing_buffer(
                if self.active > 0 {
                    self.active - 1
                } else {
                    n - 1
                },
            )
        }
    }

    /// With the number at the cursor stepped by the count.
    #[verifier::opaque]
    pub open spec fn bumping_by_count(self, up: bool) -> EditorView {
        let n = least(self.count_or_one(), i64::MAX as int);
        let delta = (if up {
            n
        } else {
            -n
        }) as i64;
        let v = self.uncounted();
        if v.buffer().readonly || v.can_bump(delta) {
            v.bumping(delta)
        } else {
            v.saying(say::cannot_step_text())
        }
    }

    /// With what is selected for the clipboard of the system, and in the
    /// register.
    #[verifier::opaque]
    pub open spec fn handing_over(self) -> EditorView {
        EditorView {
            requests: RequestsView { clipboard: Some(self.selected()), ..self.requests },
            ..self.yanking()
        }
    }

    /// A typed pattern or command is waited for.
    #[verifier::opaque]
    pub open spec fn asking(self, mode: Mode) -> EditorView {
        EditorView { mode, prompt: self.prompt.cleared(), ..self.uncounted() }
    }

    /// The character looked for last, again.
    #[verifier::opaque]
    pub open spec fn finding_again(self) -> EditorView {
        match self.memory.found {
            Some(c) => self.uncounted().finding(c, self.count_or_one()),
            None => self.uncounted().saying(say::nothing_searched_text()),
        }
    }

    /// With nothing waited for, no count, and motions moving.
    #[verifier::opaque]
    pub open spec fn escaping(self) -> EditorView {
        EditorView { extend: false, pending: Pending::Idle, ..self.uncounted().asking_for_none() }
    }

    /// What an act does.
    pub open spec fn doing(self, act: Act) -> EditorView {
        let n = self.count_or_one();
        let v = self.uncounted();
        match act {
            Act::Nothing => v,
            Act::Move(m) => self.moving(m),
            Act::HalfPage(down) => self.paging(true, down),
            Act::WholePage(down) => self.paging(false, down),
            Act::ToFirst => self.at_counted_line(false),
            Act::ToLast => self.at_counted_line(true),
            Act::Insert => v.inserting_at(v.selection_start()),
            Act::Append => v.inserting_at(v.selection_end()),
            Act::InsertText => v.inserting_at(
                crate::moves::text_from(
                    v.text(),
                    line_start(v.text(), v.cursor_line()),
                    line_end_of(v.text(), line_start(v.text(), v.cursor_line())),
                ),
            ),
            Act::AppendEnd => v.inserting_at(line_end_of(v.text(), v.cursor)),
            Act::Open(below) => v.opening(below),
            Act::Change(keep) => v.reaching(n).changing(keep),
            Act::Delete(keep) => v.reaching(n).removing(keep),
            Act::Yank => v.reaching(n).yanking(),
            Act::Paste(after) => v.counted_writing(|w: EditorView| w.pasting(after), n),
            Act::SelectLine => v.counted(|w: EditorView| w.selecting_line(), n),
            Act::SelectLines => v.selecting_lines(),
            Act::SelectAll => v.selecting_all(),
            Act::Flip => v.flipped(),
            Act::Extend => EditorView { extend: !v.extend, ..v },
            Act::Indent(add) => v.counted_writing(|w: EditorView| w.indenting(add), n),
            Act::Casing(case) => v.casing(case),
            Act::ReplaceRegister => v.replacing_with_register(),
            Act::Bump(up) => self.bumping_by_count(up),
            Act::Undo => v.undone(),
            Act::Redo => v.redone(),
            Act::Join => v.counted_writing(|w: EditorView| w.joining(), n),
            Act::Wait(p) => EditorView { pending: p, ..self },
            Act::FindAgain => self.finding_again(),
            Act::Again(forward) => v.looking_again(forward),
            Act::AskPattern => self.asking(Mode::Search),
            Act::AskCommand => self.asking(Mode::Command),
            Act::Record => EditorView { repeats: v.repeats.toggling(), ..v },
            Act::Replay => self,
            Act::Dot => self,
            Act::Escape => self.escaping(),
            Act::MatchBracket => v.at_match(),
            Act::Unsurround => v.unsurrounding(),
            Act::Turn(forward) => v.turning(forward),
            Act::ClipboardYank => v.handing_over(),
            Act::ClipboardPaste(after) => EditorView {
                requests: RequestsView { clipboard_read: Some(after), ..v.requests },
                ..v
            },
            Act::AskReading => self.asking_reading(),
            Act::PickBuffer => self.choosing_buffer(),
            Act::Comment(block) => v.commenting(block),
            Act::Keep(keep) => v.keeping_side(keep),
            Act::Conflict(forward) => v.at_conflict(forward),
            Act::Hint(hint) => v.saying(hint_text(hint)),
        }
    }
}

impl Editor {
    /// Moves as often as the count says.
    fn move_counted(&mut self, m: Motion)
        requires
            old(self).wf(),
        ensures
            final(self).wf(),
            final(self)@ == old(self)@.moving(m),
    {
        proof {
            reveal(EditorView::moving);
        }
        let n: usize = self.take_count();
        let ghost v = self@;
        let f = |e: &mut Editor|
            requires
                (*e).wf(),
            ensures
                (*final(e)).wf(),
                (*final(e))@ == (*old(e))@.stepping(m),
        {
            e.step(m);
        };
        self.repeat(n, f);
        assert(self@ == v.counted(|w: EditorView| w.stepping(m), n as int));
    }

    /// Pages down or up.
    fn page(&mut self, half: bool, down: bool)
        requires
            old(self).wf(),
        ensures
            final(self).wf(),
            final(self)@ == old(self)@.paging(half, down),
    {
        proof {
            reveal(EditorView::paging);
        }
        let lines: usize = self.settings.page_lines;
        let some: usize = if half {
            lines / 2
        } else {
            lines
        };
        let n: usize = if some >= 1 {
            some
        } else {
            1
        };
        self.move_counted(
            if down {
                Motion::Down(n)
            } else {
                Motion::Up(n)
            },
        );
    }

    /// Goes to the line that the count says; else to the first, or the last.
    fn go_counted_line(&mut self, last: bool)
        requires
            old(self).wf(),
        ensures
            final(self).wf(),
            final(self)@ == old(self)@.at_counted_line(last),
    {
        proof {
            reveal(EditorView::at_counted_line);
        }
        let count: Option<usize> = self.count;
        self.count = None;
        match count {
            Some(n) => {
                self.goto_line(n);
            },
            None => {
                if last {
                    let _lines: usize = self.current_buffer().line_count();
                    let l: usize = last_line(self.rope());
                    self.goto_line(l + 1);
                } else {
                    self.go_aiming(0);
                }
            },
        }
    }

    /// `x`: selects the line of the cursor, or one more.
    pub fn select_line(&mut self)
        requires
            old(self).wf(),
        ensures
            final(self).wf(),
            final(self)@ == old(self)@.selecting_line(),
    {
        proof {
            reveal(EditorView::selecting_line);
        }
        let rope: &Rope = self.rope();
        let ghost t = rope_chars(*rope);
        let _lines: usize = self.current_buffer().line_count();
        proof {
            lemma_line_around(t, self@.cursor);
            lemma_line_around(t, self@.anchor);
        }
        let l: usize = rope_char_to_line(rope, self.cursor);
        let la: usize = rope_char_to_line(rope, self.anchor);
        proof {
            lemma_line_start(t, l as int);
            lemma_line_start(t, l + 1);
            lemma_line_start(t, l + 2);
        }
        let start: usize = rope_line_to_char(rope, l);
        let next: usize = rope_line_to_char(rope, l + 1);
        let last: usize = last_line(rope);
        if self.anchor < self.cursor && self.anchor == rope_line_to_char(rope, la)
            && find_next_grapheme(rope, self.cursor) == next && l < last {
            let far: usize = rope_line_to_char(rope, l + 2);
            let back: usize = find_prev_grapheme(rope, far);
            self.cursor = if back >= next {
                back
            } else {
                next
            };
        } else {
            let back: usize = find_prev_grapheme(rope, next);
            self.anchor = start;
            self.cursor = if back >= start {
                back
            } else {
                start
            };
        }
    }

    /// `gn` and `gp`: puts the next buffer on the page, or the one before.
    pub fn turn_buffer(&mut self, forward: bool)
        requires
            old(self).wf(),
        ensures
            final(self).wf(),
            final(self)@ == old(self)@.turning(forward),
    {
        proof {
            reveal(EditorView::turning);
        }
        let n: usize = self.buffers.len();
        let i: usize = self.active;
        if n == 1 {
            return;
        }
        if forward {
            self.show_buffer(
                if i < n - 1 {
                    i + 1
                } else {
                    0
                },
            );
        } else {
            self.show_buffer(
                if i > 0 {
                    i - 1
                } else {
                    n - 1
                },
            );
        }
    }

    /// Steps the number at the cursor by the count.
    fn bump_by_count(&mut self, up: bool)
        requires
            old(self).wf(),
        ensures
            final(self).wf(),
            final(self)@ == old(self)@.bumping_by_count(up),
    {
        proof {
            reveal(EditorView::bumping_by_count);
        }
        let count: usize = self.take_count();
        let wide: u64 = count as u64;
        let n: i64 = if wide <= 0x7fff_ffff_ffff_ffff {
            wide as i64
        } else {
            i64::MAX
        };
        let delta: i64 = if up {
            n
        } else {
            -n
        };
        if self.current_buffer().is_readonly() || self.can_bump_number(delta) {
            self.bump_number(delta);
        } else {
            self.status = say::cannot_step();
        }
    }

    /// Hands what is selected to the clipboard of the system.
    pub fn hand_over(&mut self)
        requires
            old(self).wf(),
        ensures
            final(self).wf(),
            final(self)@ == old(self)@.handing_over(),
    {
        proof {
            reveal(EditorView::handing_over);
            reveal(EditorView::yanking);
        }
        let s: String = self.selected_text();
        self.yank();
        self.requests.clipboard = Some(s);
    }

    /// Waits for a typed pattern or command.
    pub fn ask(&mut self, mode: Mode)
        requires
            old(self).wf(),
        ensures
            final(self).wf(),
            final(self)@ == old(self)@.asking(mode),
    {
        proof {
            reveal(EditorView::asking);
        }
        self.count = None;
        self.mode = mode;
        self.prompt.clear();
    }

    /// Puts in what the register holds as often as the count says.
    fn paste_counted(&mut self, n: usize, after: bool)
        requires
            old(self).wf(),
        ensures
            final(self).wf(),
            final(self)@ == old(self)@.counted_writing(|w: EditorView| w.pasting(after), n as int),
    {
        proof {
            reveal(EditorView::counted_writing);
            reveal(EditorView::pasting);
        }
        let ghost v = self@;
        let f = |e: &mut Editor|
            requires
                (*e).wf(),
            ensures
                (*final(e)).wf(),
                (*final(e))@ == (*old(e))@.pasting(after),
        {
            e.paste(after);
        };
        self.repeat_writing(n, f);
        assert(self@ == v.counted_writing(|w: EditorView| w.pasting(after), n as int));
    }

    /// Indents as often as the count says.
    fn indent_counted(&mut self, n: usize, add: bool)
        requires
            old(self).wf(),
        ensures
            final(self).wf(),
            final(self)@ == old(self)@.counted_writing(|w: EditorView| w.indenting(add), n as int),
    {
        proof {
            reveal(EditorView::counted_writing);
            reveal(EditorView::indenting);
        }
        let ghost v = self@;
        let f = |e: &mut Editor|
            requires
                (*e).wf(),
            ensures
                (*final(e)).wf(),
                (*final(e))@ == (*old(e))@.indenting(add),
        {
            e.indent(add);
        };
        self.repeat_writing(n, f);
        assert(self@ == v.counted_writing(|w: EditorView| w.indenting(add), n as int));
    }

    /// Joins as often as the count says.
    fn join_counted(&mut self, n: usize)
        requires
            old(self).wf(),
        ensures
            final(self).wf(),
            final(self)@ == old(self)@.counted_writing(|w: EditorView| w.joining(), n as int),
    {
        proof {
            reveal(EditorView::counted_writing);
            reveal(EditorView::joining);
        }
        let ghost v = self@;
        let f = |e: &mut Editor|
            requires
                (*e).wf(),
            ensures
                (*final(e)).wf(),
                (*final(e))@ == (*old(e))@.joining(),
        {
            e.join_lines();
        };
        self.repeat_writing(n, f);
        assert(self@ == v.counted_writing(|w: EditorView| w.joining(), n as int));
    }

    /// Selects as many lines as the count says.
    fn select_lines_counted(&mut self, n: usize)
        requires
            old(self).wf(),
        ensures
            final(self).wf(),
            final(self)@ == old(self)@.counted(|w: EditorView| w.selecting_line(), n as int),
    {
        proof {
            reveal(EditorView::counted);
            reveal(EditorView::selecting_line);
        }
        let ghost v = self@;
        let f = |e: &mut Editor|
            requires
                (*e).wf(),
            ensures
                (*final(e)).wf(),
                (*final(e))@ == (*old(e))@.selecting_line(),
        {
            e.select_line();
        };
        self.repeat(n, f);
        assert(self@ == v.counted(|w: EditorView| w.selecting_line(), n as int));
    }

    /// Looks again for the character looked for last.
    fn find_again(&mut self)
        requires
            old(self).wf(),
        ensures
            final(self).wf(),
            final(self)@ == old(self)@.finding_again(),
    {
        proof {
            reveal(EditorView::finding_again);
        }
        let n: usize = self.take_count();
        match self.memory.found {
            Some(c) => {
                self.find_char(c, n);
            },
            None => {
                self.status = say::nothing_searched();
            },
        }
    }

    /// Lets go of what is waited for, the count, and the growing selection.
    pub fn escape(&mut self)
        requires
            old(self).wf(),
        ensures
            final(self).wf(),
            final(self)@ == old(self)@.escaping(),
    {
        proof {
            reveal(EditorView::escaping);
        }
        self.count = None;
        self.registers.asked = None;
        self.extend = false;
        self.pending = Pending::Idle;
    }

    /// Where the text of the cursor's line begins.
    fn find_line_text(&self) -> (r: usize)
        requires
            self.wf(),
        ensures
            r == crate::moves::text_from(
                self@.text(),
                line_start(self@.text(), self@.cursor_line()),
                line_end_of(self@.text(), line_start(self@.text(), self@.cursor_line())),
            ),
            r <= self@.text().len(),
    {
        let start: usize = self.cursor_line_start();
        let rope: &Rope = self.rope();
        let end: usize = line_end(rope, start);
        crate::moves::find_text(rope, start, end)
    }

    /// Forgets the count.
    pub(crate) fn drop_count(&mut self)
        requires
            old(self).wf(),
        ensures
            final(self).wf(),
            final(self)@ == old(self)@.uncounted(),
    {
        self.count = None;
    }

    /// Lets motions grow the selection, or move it.
    fn turn_extend(&mut self)
        requires
            old(self).wf(),
        ensures
            final(self).wf(),
            final(self)@ == (EditorView { extend: !old(self)@.extend, ..old(self)@ }),
    {
        self.extend = !self.extend;
    }

    /// Waits for what belongs to `p`.
    pub(crate) fn wait_for(&mut self, p: Pending)
        requires
            old(self).wf(),
        ensures
            final(self).wf(),
            final(self)@ == (EditorView { pending: p, ..old(self)@ }),
    {
        self.pending = p;
    }

    /// Begins the recording, or ends it.
    fn turn_recording(&mut self)
        requires
            old(self).wf(),
        ensures
            final(self).wf(),
            final(self)@ == (EditorView { repeats: old(self)@.repeats.toggling(), ..old(self)@ }),
    {
        self.repeats.toggle();
    }

    /// Asks for the clipboard of the system.
    fn ask_clipboard(&mut self, after: bool)
        requires
            old(self).wf(),
        ensures
            final(self).wf(),
            final(self)@ == (EditorView {
                requests: RequestsView { clipboard_read: Some(after), ..old(self)@.requests },
                ..old(self)@
            }),
    {
        self.requests.clipboard_read = Some(after);
    }

    /// Does what an act says.
    pub fn act(&mut self, act: Act)
        requires
            old(self).wf(),
        ensures
            final(self).wf(),
            final(self)@ == old(self)@.doing(act),
    {
        match act {
            Act::Nothing => {
                self.drop_count();
            },
            Act::Move(m) => self.move_counted(m),
            Act::HalfPage(down) => self.page(true, down),
            Act::WholePage(down) => self.page(false, down),
            Act::ToFirst => self.go_counted_line(false),
            Act::ToLast => self.go_counted_line(true),
            Act::Insert => {
                self.drop_count();
                let (a, _) = self.selection();
                self.insert_at(a);
            },
            Act::Append => {
                self.drop_count();
                let (_, b) = self.selection();
                self.insert_at(b);
            },
            Act::InsertText => {
                self.drop_count();
                let at: usize = self.find_line_text();
                self.insert_at(at);
            },
            Act::AppendEnd => {
                self.drop_count();
                let at: usize = line_end(self.rope(), self.cursor);
                self.insert_at(at);
            },
            Act::Open(below) => {
                self.drop_count();
                self.open_line(below);
            },
            Act::Change(keep) => {
                let n: usize = self.take_count();
                self.reach(n);
                self.change(keep);
            },
            Act::Delete(keep) => {
                let n: usize = self.take_count();
                self.reach(n);
                self.remove_selection(keep);
            },
            Act::Yank => {
                let n: usize = self.take_count();
                self.reach(n);
                self.yank();
            },
            Act::Paste(after) => {
                let n: usize = self.take_count();
                self.paste_counted(n, after);
            },
            Act::SelectLine => {
                let n: usize = self.take_count();
                self.select_lines_counted(n);
            },
            Act::SelectLines => {
                self.drop_count();
                self.extend_to_line_bounds();
            },
            Act::SelectAll => {
                self.drop_count();
                self.select_all();
            },
            Act::Flip => {
                self.drop_count();
                self.flip_selection();
            },
            Act::Extend => {
                self.drop_count();
                self.turn_extend();
            },
            Act::Indent(add) => {
                let n: usize = self.take_count();
                self.indent_counted(n, add);
            },
            Act::Casing(case) => {
                self.drop_count();
                self.change_case(case);
            },
            Act::ReplaceRegister => {
                self.drop_count();
                self.replace_with_register();
            },
            Act::Bump(up) => self.bump_by_count(up),
            Act::Undo => {
                self.drop_count();
                self.undo();
            },
            Act::Redo => {
                self.drop_count();
                self.redo();
            },
            Act::Join => {
                let n: usize = self.take_count();
                self.join_counted(n);
            },
            Act::Wait(p) => {
                self.wait_for(p);
            },
            Act::FindAgain => self.find_again(),
            Act::Again(forward) => {
                self.drop_count();
                self.look_again(forward);
            },
            Act::AskPattern => self.ask(Mode::Search),
            Act::AskCommand => self.ask(Mode::Command),
            Act::Record => {
                self.drop_count();
                self.turn_recording();
            },
            Act::Replay => {},
            Act::Dot => {},
            Act::Escape => self.escape(),
            Act::MatchBracket => {
                self.drop_count();
                self.match_bracket();
            },
            Act::Unsurround => {
                self.drop_count();
                self.unsurround();
            },
            Act::Turn(forward) => {
                self.drop_count();
                self.turn_buffer(forward);
            },
            Act::ClipboardYank => {
                self.drop_count();
                self.hand_over();
            },
            Act::ClipboardPaste(after) => {
                self.drop_count();
                self.ask_clipboard(after);
            },
            Act::AskReading => self.ask_reading(),
            Act::PickBuffer => self.open_buffer_picker(),
            Act::Comment(block) => {
                self.drop_count();
                self.toggle_comment(block);
            },
            Act::Keep(keep) => {
                self.drop_count();
                self.keep_side(keep);
            },
            Act::Conflict(forward) => {
                self.drop_count();
                self.go_to_conflict(forward);
            },
            Act::Hint(hint) => {
                self.drop_count();
                self.say(say_hint(hint));
            },
        }
    }
}

} // verus!
