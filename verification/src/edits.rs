//! Taking text out and putting it in.

use vstd::prelude::*;
use ropey::Rope;
use crate::editor::{Editor, EditorView, most};
use crate::grapheme::{find_next_grapheme, find_prev_grapheme, next_grapheme, prev_grapheme};
use crate::motion::line_end;
use crate::rope::{rope_char, rope_chars, rope_len, rope_line_to_char, rope_slice};
use crate::say;
use crate::text::{
    char_count, chars_of, lemma_line_around, lemma_line_start, lemma_spliced, line_count,
    line_end as line_end_of, line_start, string_between,
};
use crate::units::{find_unit_start, Unit, unit_start};

verus! {

/// The position `n` graphemes after `i`.
pub open spec fn graphemes_on(t: Seq<char>, i: int, n: int) -> int
    decreases n,
{
    if n <= 0 || i >= t.len() {
        i
    } else {
        graphemes_on(t, next_grapheme(t, i), n - 1)
    }
}

/// Whether a text is whole lines.
pub open spec fn is_lines(s: Seq<char>) -> bool {
    s.len() > 0 && s.last() == '\n'
}

impl EditorView {
    /// With the selection reaching over `n` graphemes, where it is the one
    /// under the cursor.
    #[verifier::opaque]
    pub open spec fn reaching(self, n: int) -> EditorView {
        if self.anchor == self.cursor && n > 1 {
            EditorView { cursor: graphemes_on(self.text(), self.cursor, n - 1), ..self }
        } else {
            self
        }
    }

    /// With what is selected in the register.
    #[verifier::opaque]
    pub open spec fn yanking(self) -> EditorView {
        if self.selection_start() >= self.selection_end() {
            self
        } else {
            EditorView { extend: false, ..self.keeping(self.selected()) }
        }
    }

    /// Without what is selected; it is in the register, or not.
    #[verifier::opaque]
    pub open spec fn removing(self, keep: bool) -> EditorView {
        let (a, b) = (self.selection_start(), self.selection_end());
        if self.buffer().readonly {
            self.saying(say::readonly_text())
        } else if a >= b {
            self
        } else {
            let kept = if keep {
                self.keeping(self.selected())
            } else {
                self
            };
            EditorView {
                cursor: a,
                anchor: a,
                extend: false,
                ..kept.announcing().writing(a, b, Seq::empty())
            }.clamped().aiming_here()
        }
    }

    /// Where a register is put: after the selection or before it, and whole
    /// lines after its lines or before them.
    pub open spec fn paste_at(self, s: Seq<char>, after: bool) -> int {
        if is_lines(s) {
            if after {
                line_start(self.text(), self.last_selected_line() + 1)
            } else {
                line_start(self.text(), self.first_selected_line())
            }
        } else if after {
            self.selection_end()
        } else {
            self.selection_start()
        }
    }

    /// With what the register holds put in and selected. Whole lines after a
    /// last line without a break begin with one.
    #[verifier::opaque]
    pub open spec fn pasting(self, after: bool) -> EditorView {
        let s = self.recalled();
        let asked = self.asking_for_none();
        let t = self.text();
        let at = self.paste_at(s, after);
        if s.len() == 0 {
            asked.saying(
                match self.registers.asked {
                    Some(c) => say::register_empty_text(c),
                    None => say::nothing_yanked_text(),
                },
            )
        } else if self.buffer().readonly {
            asked.saying(say::readonly_text())
        } else if is_lines(s) && at == t.len() && t.len() > 0 && t.last() != '\n' {
            asked.announcing().writing(at, at, seq!['\n'] + s.drop_last()).selecting(
                at + 1,
                at + s.len(),
            )
        } else {
            asked.announcing().writing(at, at, s).selecting(at, at + s.len())
        }
    }

    /// With `a..b` replaced by `s` and the cursor after it; the locked buffer
    /// refuses.
    #[verifier::opaque]
    pub open spec fn putting(self, a: int, b: int, s: Seq<char>) -> EditorView {
        let done = self.writing(a, b, s);
        if self.buffer().readonly {
            done
        } else {
            EditorView { cursor: a + s.len(), anchor: a + s.len(), ..done }.aiming_here()
        }
    }

    /// With `s` typed at the cursor.
    pub open spec fn typing(self, s: Seq<char>) -> EditorView {
        self.putting(self.cursor, self.cursor, s)
    }

    /// Without the grapheme before the cursor.
    #[verifier::opaque]
    pub open spec fn backspacing(self) -> EditorView {
        if self.cursor == 0 {
            self
        } else {
            self.putting(prev_grapheme(self.text(), self.cursor), self.cursor, Seq::empty())
        }
    }

    /// Without the grapheme after the cursor.
    #[verifier::opaque]
    pub open spec fn deleting(self) -> EditorView {
        if self.cursor >= self.text().len() {
            self
        } else {
            self.putting(self.cursor, next_grapheme(self.text(), self.cursor), Seq::empty())
        }
    }

    /// Without the word before the cursor, or the break at the beginning of a
    /// line.
    #[verifier::opaque]
    pub open spec fn taking_back_word(self) -> EditorView {
        let start = line_start(self.text(), self.cursor_line());
        if self.cursor == start {
            self.announcing().backspacing()
        } else {
            self.announcing().putting(
                most(unit_start(Unit::Word, self.text(), self.cursor), start),
                self.cursor,
                Seq::empty(),
            )
        }
    }

    /// Without what stands before the cursor on its line.
    #[verifier::opaque]
    pub open spec fn taking_back_line(self) -> EditorView {
        self.announcing().putting(
            line_start(self.text(), self.cursor_line()),
            self.cursor,
            Seq::empty(),
        )
    }

    /// Typing at `at`, unless the buffer is locked.
    #[verifier::opaque]
    pub open spec fn inserting_at(self, at: int) -> EditorView {
        if self.buffer().readonly {
            self.saying(say::readonly_text())
        } else {
            EditorView { cursor: at, anchor: at, ..self.announcing() }.inserting().aiming_here()
        }
    }

    /// Typing on a new line below, or above, unless the buffer is locked.
    #[verifier::opaque]
    pub open spec fn opening(self, below: bool) -> EditorView {
        let start = line_start(self.text(), self.cursor_line());
        let end = line_end_of(self.text(), self.cursor);
        if self.buffer().readonly {
            self.saying(say::readonly_text())
        } else if below {
            self.announcing().putting(end, end, seq!['\n']).inserting()
        } else {
            EditorView {
                cursor: start,
                anchor: start,
                ..self.announcing().writing(start, start, seq!['\n'])
            }.inserting().aiming_here()
        }
    }

    /// Typing in place of what is selected, unless the buffer is locked.
    #[verifier::opaque]
    pub open spec fn changing(self, keep: bool) -> EditorView {
        if self.buffer().readonly {
            self.saying(say::readonly_text())
        } else if self.selection_start() >= self.selection_end() {
            self.announcing().inserting()
        } else {
            self.removing(keep).inserting()
        }
    }

    /// With the selection replaced by text from outside.
    #[verifier::opaque]
    pub open spec fn pasting_over(self, s: Seq<char>) -> EditorView {
        self.announcing().putting(self.selection_start(), self.selection_end(), s)
    }
}

impl Editor {
    /// Lets the selection reach over `n` graphemes, where it is the one under
    /// the cursor.
    pub fn reach(&mut self, n: usize)
        requires
            old(self).wf(),
        ensures
            final(self).wf(),
            final(self)@ == old(self)@.reaching(n as int),
    {
        proof {
            reveal(EditorView::reaching);
        }
        if self.anchor != self.cursor || n <= 1 {
            return;
        }
        let rope: &Rope = self.rope();
        let ghost t = rope_chars(*rope);
        let len: usize = rope_len(rope);
        let mut i: usize = self.cursor;
        let mut left: usize = n - 1;
        while left > 0 && i < len
            invariant
                i <= len,
                len == t.len(),
                t == rope_chars(*rope),
                graphemes_on(t, self.cursor as int, n - 1) == graphemes_on(t, i as int, left as int),
            decreases left,
        {
            i = find_next_grapheme(rope, i);
            left -= 1;
        }
        self.cursor = i;
    }

    /// What is selected.
    pub fn selected_text(&self) -> (s: String)
        requires
            self.wf(),
        ensures
            s@ == self@.selected(),
    {
        let (a, b) = self.selection();
        rope_slice(self.rope(), a, b)
    }

    /// `y`: puts what is selected into the register.
    pub fn yank(&mut self)
        requires
            old(self).wf(),
        ensures
            final(self).wf(),
            final(self)@ == old(self)@.yanking(),
    {
        proof {
            reveal(EditorView::yanking);
        }
        let (a, b) = self.selection();
        if a >= b {
            return;
        }
        let s: String = self.selected_text();
        self.keep(s.as_str());
        self.extend = false;
    }

    /// Takes out what is selected.
    pub fn remove_selection(&mut self, keep: bool)
        requires
            old(self).wf(),
        ensures
            final(self).wf(),
            final(self)@ == old(self)@.removing(keep),
    {
        proof {
            reveal(EditorView::removing);
        }
        if self.refuse_readonly() {
            return;
        }
        let (a, b) = self.selection();
        if a >= b {
            return;
        }
        if keep {
            let s: String = self.selected_text();
            self.keep(s.as_str());
        }
        self.snapshot();
        proof {
            reveal_strlit("");
            assert(""@ =~= Seq::empty());
            lemma_spliced(self@.text(), a as int, b as int, Seq::empty());
        }
        let _ = self.overwrite(a, b, "");
        self.cursor = a;
        self.anchor = a;
        self.extend = false;
        self.clamp_cursor();
        self.refresh_goal_column();
    }

    /// `p` and `P`: puts in what the register holds.
    pub fn paste(&mut self, after: bool)
        requires
            old(self).wf(),
        ensures
            final(self).wf(),
            final(self)@ == old(self)@.pasting(after),
    {
        proof {
            reveal(EditorView::pasting);
        }
        let named: Option<char> = self.registers.asked;
        let (start, end) = self.selection();
        let (first, last) = self.selected_lines();
        let text: String = self.recall();
        let s: Vec<char> = chars_of(text.as_str());
        let n: usize = s.len();
        if n == 0 {
            self.status = match named {
                Some(name) => say::register_empty(name),
                None => say::nothing_yanked(),
            };
            return;
        }
        if self.refuse_readonly() {
            return;
        }
        let rope: &Rope = self.rope();
        let ghost t = rope_chars(*rope);
        let len: usize = rope_len(rope);
        let _lines: usize = self.current_buffer().line_count();
        proof {
            lemma_line_start(t, first as int);
            lemma_line_start(t, last + 1);
        }
        let whole: bool = s[n - 1] == '\n';
        let at: usize = if whole {
            if after {
                rope_line_to_char(rope, last + 1)
            } else {
                rope_line_to_char(rope, first)
            }
        } else if after {
            end
        } else {
            start
        };
        let breaks: bool = whole && at == len && len > 0 && rope_char(rope, len - 1) != '\n';
        self.snapshot();
        if breaks {
            let mut put: String = String::new();
            put.push('\n');
            let body: String = string_between(&s, 0, n - 1);
            put.push_str(body.as_str());
            proof {
                assert(body@ =~= s@.drop_last());
                assert(put@ =~= seq!['\n'] + s@.drop_last());
                lemma_spliced(t, at as int, at as int, put@);
            }
            let _ = self.overwrite(at, at, put.as_str());
            self.select_range(at + 1, at + n);
        } else {
            proof {
                lemma_spliced(t, at as int, at as int, text@);
            }
            let _ = self.overwrite(at, at, text.as_str());
            self.select_range(at, at + n);
        }
    }

    /// Replaces `a..b` by `s` and puts the cursor after it.
    pub(crate) fn put(&mut self, a: usize, b: usize, s: &str)
        requires
            old(self).wf(),
            a <= b <= old(self)@.text().len(),
        ensures
            final(self).wf(),
            final(self)@ == old(self)@.putting(a as int, b as int, s@),
    {
        proof {
            reveal(EditorView::putting);
        }
        let n: usize = char_count(s);
        proof {
            lemma_spliced(self@.text(), a as int, b as int, s@);
            if a == b && n == 0 {
                assert(s@ =~= Seq::empty());
            }
        }
        if !self.overwrite(a, b, s) {
            return;
        }
        self.cursor = a + n;
        self.anchor = a + n;
        self.refresh_goal_column();
    }

    /// Types `s` at the cursor.
    pub fn type_text(&mut self, s: &str)
        requires
            old(self).wf(),
        ensures
            final(self).wf(),
            final(self)@ == old(self)@.typing(s@),
    {
        let at: usize = self.cursor;
        self.put(at, at, s);
    }

    /// Takes out the grapheme before the cursor.
    pub fn backspace(&mut self)
        requires
            old(self).wf(),
        ensures
            final(self).wf(),
            final(self)@ == old(self)@.backspacing(),
    {
        proof {
            reveal(EditorView::backspacing);
        }
        let at: usize = self.cursor;
        if at == 0 {
            return;
        }
        let from: usize = find_prev_grapheme(self.rope(), at);
        proof {
            reveal_strlit("");
            assert(""@ =~= Seq::empty());
        }
        self.put(from, at, "");
    }

    /// Takes out the grapheme after the cursor.
    pub fn delete_next(&mut self)
        requires
            old(self).wf(),
        ensures
            final(self).wf(),
            final(self)@ == old(self)@.deleting(),
    {
        proof {
            reveal(EditorView::deleting);
        }
        let at: usize = self.cursor;
        let n: usize = self.current_buffer().char_count();
        if at >= n {
            return;
        }
        let to: usize = find_next_grapheme(self.rope(), at);
        proof {
            reveal_strlit("");
            assert(""@ =~= Seq::empty());
        }
        self.put(at, to, "");
    }

    /// Where the line of the cursor begins.
    pub(crate) fn cursor_line_start(&self) -> (r: usize)
        requires
            self.wf(),
        ensures
            r == line_start(self@.text(), self@.cursor_line()),
            r <= self@.cursor,
    {
        proof {
            lemma_line_around(self@.text(), self@.cursor);
        }
        let l: usize = self.cursor_line();
        rope_line_to_char(self.rope(), l)
    }

    /// `C-w` while typing: takes back a word.
    pub fn take_back_word(&mut self)
        requires
            old(self).wf(),
        ensures
            final(self).wf(),
            final(self)@ == old(self)@.taking_back_word(),
    {
        proof {
            reveal(EditorView::taking_back_word);
        }
        let start: usize = self.cursor_line_start();
        let at: usize = self.cursor;
        let from: usize = find_unit_start(Unit::Word, self.rope(), at);
        self.snapshot();
        if at == start {
            self.backspace();
        } else {
            proof {
                reveal_strlit("");
                assert(""@ =~= Seq::empty());
            }
            self.put(
                if from >= start {
                    from
                } else {
                    start
                },
                at,
                "",
            );
        }
    }

    /// `C-u` while typing: takes back the line.
    pub fn take_back_line(&mut self)
        requires
            old(self).wf(),
        ensures
            final(self).wf(),
            final(self)@ == old(self)@.taking_back_line(),
    {
        proof {
            reveal(EditorView::taking_back_line);
        }
        let start: usize = self.cursor_line_start();
        let at: usize = self.cursor;
        self.snapshot();
        proof {
            reveal_strlit("");
            assert(""@ =~= Seq::empty());
        }
        self.put(start, at, "");
    }

    /// Begins typing at `at`.
    pub fn insert_at(&mut self, at: usize)
        requires
            old(self).wf(),
            at <= old(self)@.text().len(),
        ensures
            final(self).wf(),
            final(self)@ == old(self)@.inserting_at(at as int),
    {
        proof {
            reveal(EditorView::inserting_at);
        }
        if self.refuse_readonly() {
            return;
        }
        self.snapshot();
        self.cursor = at;
        self.anchor = at;
        self.enter_insert();
        self.refresh_goal_column();
    }

    /// `o` and `O`: begins typing on a new line.
    pub fn open_line(&mut self, below: bool)
        requires
            old(self).wf(),
        ensures
            final(self).wf(),
            final(self)@ == old(self)@.opening(below),
    {
        proof {
            reveal(EditorView::opening);
        }
        if self.refuse_readonly() {
            return;
        }
        let start: usize = self.cursor_line_start();
        let end: usize = line_end(self.rope(), self.cursor);
        proof {
            reveal_strlit("\n");
            assert("\n"@ =~= seq!['\n']);
        }
        self.snapshot();
        if below {
            self.put(end, end, "\n");
            self.enter_insert();
        } else {
            proof {
                lemma_spliced(self@.text(), start as int, start as int, seq!['\n']);
            }
            let _ = self.overwrite(start, start, "\n");
            self.cursor = start;
            self.anchor = start;
            self.enter_insert();
            self.refresh_goal_column();
        }
    }

    /// `c`: types in place of what is selected.
    pub fn change(&mut self, keep: bool)
        requires
            old(self).wf(),
        ensures
            final(self).wf(),
            final(self)@ == old(self)@.changing(keep),
    {
        proof {
            reveal(EditorView::changing);
        }
        if self.refuse_readonly() {
            return;
        }
        let (a, b) = self.selection();
        if a >= b {
            self.snapshot();
        } else {
            self.remove_selection(keep);
        }
        self.enter_insert();
    }

    /// Replaces the selection by text from outside.
    pub fn paste_over(&mut self, s: &str)
        requires
            old(self).wf(),
        ensures
            final(self).wf(),
            final(self)@ == old(self)@.pasting_over(s@),
    {
        proof {
            reveal(EditorView::pasting_over);
        }
        let (a, b) = self.selection();
        self.snapshot();
        self.put(a, b, s);
    }
}

} // verus!
