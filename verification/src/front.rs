//! What a front end asks of the editor, and tells it.

use vstd::prelude::*;
use crate::editor::{Editor, EditorView, Key, least, Mode};
use crate::pairs::one;
use crate::repeats::{Input, input_views, InputView};
use crate::state::{MemoryView, RequestsView, Settings, shelf_views};
use crate::text::chars_of;

verus! {

/// A text without its line breaks.
pub open spec fn on_one_line(s: Seq<char>) -> Seq<char>
    decreases s.len(),
{
    if s.len() == 0 {
        Seq::empty()
    } else if s.last() == '\n' || s.last() == '\r' {
        on_one_line(s.drop_last())
    } else {
        on_one_line(s.drop_last()).push(s.last())
    }
}

/// A text without its line breaks.
pub fn put_on_one_line(s: &str) -> (r: String)
    ensures
        r@ == on_one_line(s@),
{
    let v: Vec<char> = chars_of(s);
    let mut r: String = String::new();
    let mut i: usize = 0;
    assert(r@ =~= on_one_line(v@.take(0)));
    while i < v.len()
        invariant
            0 <= i <= v@.len(),
            r@ == on_one_line(v@.take(i as int)),
        decreases v@.len() - i,
    {
        assert(v@.take(i + 1).drop_last() =~= v@.take(i as int));
        if v[i] != '\n' && v[i] != '\r' {
            r.push(v[i]);
        }
        i += 1;
    }
    assert(v@.take(v@.len() as int) =~= v@);
    r
}

/// The characters among inputs, in their order; other keys are left out.
pub open spec fn spelled(inputs: Seq<InputView>) -> Seq<char>
    decreases inputs.len(),
{
    if inputs.len() == 0 {
        Seq::empty()
    } else {
        spelled(inputs.drop_last()) + (match inputs.last() {
            InputView::Key(Key::Char(c)) => seq![c],
            InputView::Key(_) => Seq::empty(),
            InputView::Text(s) => s,
        })
    }
}

impl EditorView {
    /// What stands before the line at the foot of the page, where there is one.
    pub open spec fn prompt_mark(self) -> Option<Seq<char>> {
        match self.mode {
            Mode::Command => Some(seq![':']),
            Mode::Search => Some(seq!['/']),
            Mode::Ruby => Some(seq!['注']),
            _ => None,
        }
    }

    /// With text from outside: in place of the selection, at the cursor, or on
    /// the line at the foot of the page.
    pub open spec fn pasting_text(self, s: Seq<char>) -> EditorView {
        match self.mode {
            Mode::Normal => self.pasting_over(s),
            Mode::Insert => self.typing(s),
            _ => self.with_prompt(self.prompt.inserting(on_one_line(s))),
        }
    }

    /// With the cursor at `i`, or at the end of the text, and one thing
    /// selected.
    pub open spec fn pointing_at(self, i: int) -> EditorView {
        let at = least(i, self.text().len() as int);
        EditorView { cursor: at, anchor: at, extend: false, ..self }.aiming_here()
    }

    /// With the selection up to `i`.
    pub open spec fn dragging_to(self, i: int) -> EditorView {
        EditorView { cursor: least(i, self.text().len() as int), ..self }.aiming_here()
    }
}

impl Editor {
    /// How many buffers are open.
    pub fn buffer_count(&self) -> (n: usize)
        ensures
            n == self@.buffers.len(),
    {
        self.buffers.len()
    }

    /// Which buffer is on the page, counted from one, and how many are open.
    pub fn buffer_position(&self) -> (r: (usize, usize))
        requires
            self.wf(),
        ensures
            r.0 == self@.active + 1,
            r.1 == self@.buffers.len(),
    {
        assert(self@.buffers.len() == self.buffers@.len());
        let n: usize = self.buffers.len();
        (self.active + 1, n)
    }

    /// Shows the next buffer.
    pub fn next_buffer(&mut self)
        requires
            old(self).wf(),
        ensures
            final(self).wf(),
            final(self)@ == old(self)@.turning(true),
    {
        self.turn_buffer(true);
    }

    /// Shows the buffer before this one.
    pub fn prev_buffer(&mut self)
        requires
            old(self).wf(),
        ensures
            final(self).wf(),
            final(self)@ == old(self)@.turning(false),
    {
        self.turn_buffer(false);
    }

    /// What stands on the line at the foot of the page, and before it.
    pub fn prompt(&self) -> (r: Option<(String, String)>)
        ensures
            match r {
                Some((mark, line)) => self@.prompt_mark() == Some(mark@) && line@ == self@.prompt.line,
                None => self@.prompt_mark() is None,
            },
    {
        match self.mode {
            Mode::Command => Some((one(':'), self.prompt.text())),
            Mode::Search => Some((one('/'), self.prompt.text())),
            Mode::Ruby => Some((one('注'), self.prompt.text())),
            _ => None,
        }
    }

    /// Where the caret is on the line at the foot of the page.
    pub fn prompt_caret(&self) -> (i: usize)
        ensures
            i == self@.prompt.caret,
    {
        self.prompt.caret
    }

    /// What stands before the caret on the line at the foot of the page.
    pub fn prompt_before_caret(&self) -> (s: String)
        requires
            self.wf(),
        ensures
            s@ == self@.prompt.line.take(self@.prompt.caret),
    {
        let s: String = crate::text::string_between(&self.prompt.line, 0, self.prompt.caret);
        assert(s@ =~= self@.prompt.line.take(self@.prompt.caret));
        s
    }

    /// The count that is being typed.
    pub fn pending_count(&self) -> (n: Option<usize>)
        ensures
            n == self.count,
    {
        self.count
    }

    /// Whether motions grow the selection.
    pub fn is_extending(&self) -> (r: bool)
        ensures
            r == self@.extend,
    {
        self.extend
    }

    /// Whether more than what the cursor covers is selected.
    pub fn has_selection(&self) -> (r: bool)
        ensures
            r == (self@.anchor != self@.cursor),
    {
        self.anchor != self.cursor
    }

    /// The characters that the macro is made of.
    pub fn recorded_keys(&self) -> (s: String)
        ensures
            s@ == spelled(self@.repeats.recorded),
    {
        let ghost all = input_views(self.repeats.recorded@);
        let mut s: String = String::new();
        let mut i: usize = 0;
        assert(s@ =~= spelled(all.take(0)));
        while i < self.repeats.recorded.len()
            invariant
                0 <= i <= self.repeats.recorded@.len(),
                all == input_views(self.repeats.recorded@),
                s@ == spelled(all.take(i as int)),
            decreases self.repeats.recorded@.len() - i,
        {
            assert(all.take(i + 1).drop_last() =~= all.take(i as int));
            assert(all.take(i + 1).last() == self.repeats.recorded@[i as int]@);
            match &self.repeats.recorded[i] {
                Input::Key(Key::Char(c)) => {
                    let ghost before = s@;
                    s.push(*c);
                    assert(s@ =~= before + seq![*c]);
                },
                Input::Key(_) => {
                    assert(s@ =~= s@ + Seq::empty());
                },
                Input::Text(t) => s.push_str(t.as_str()),
            }
            i += 1;
        }
        assert(all.take(all.len() as int) =~= all);
        s
    }

    /// Puts `s` on the status line.
    pub fn set_status(&mut self, s: String)
        requires
            old(self).wf(),
        ensures
            final(self).wf(),
            final(self)@ == old(self)@.saying(s@),
    {
        self.status = s;
    }

    /// Takes text from outside.
    pub fn paste_text(&mut self, s: &str)
        requires
            old(self).wf(),
        ensures
            final(self).wf(),
            final(self)@ == old(self)@.pasting_text(s@),
    {
        match self.mode {
            Mode::Normal => self.paste_over(s),
            Mode::Insert => self.type_text(s),
            _ => {
                let line: String = put_on_one_line(s);
                self.prompt.insert(line.as_str());
            },
        }
    }

    /// The text for the clipboard of the system, once.
    pub fn take_clipboard_request(&mut self) -> (r: Option<String>)
        requires
            old(self).wf(),
        ensures
            final(self).wf(),
            match r {
                Some(s) => old(self)@.requests.clipboard == Some(s@),
                None => old(self)@.requests.clipboard is None,
            },
            final(self)@ == (EditorView {
                requests: RequestsView { clipboard: None, ..old(self)@.requests },
                ..old(self)@
            }),
    {
        let r: Option<String> = self.requests.clipboard.take();
        assert(self@ =~= (EditorView {
            requests: RequestsView { clipboard: None, ..old(self)@.requests },
            ..old(self)@
        }));
        r
    }

    /// Whether the clipboard of the system is asked for, once.
    pub fn take_clipboard_read(&mut self) -> (r: Option<bool>)
        requires
            old(self).wf(),
        ensures
            final(self).wf(),
            r == old(self)@.requests.clipboard_read,
            final(self)@ == (EditorView {
                requests: RequestsView { clipboard_read: None, ..old(self)@.requests },
                ..old(self)@
            }),
    {
        let r: Option<bool> = self.requests.clipboard_read;
        self.requests.clipboard_read = None;
        r
    }

    /// What the clipboard of the system holds: it is taken, and put after the
    /// selection or before it.
    pub fn provide_clipboard(&mut self, s: &str, after: bool)
        requires
            old(self).wf(),
        ensures
            final(self).wf(),
            final(self)@ == old(self)@.keeping(s@).pasting(after),
    {
        self.keep(s);
        self.paste(after);
    }

    /// Lets keys stand for others.
    pub fn set_key_aliases(&mut self, aliases: Vec<(char, String)>)
        requires
            old(self).wf(),
        ensures
            final(self).wf(),
            final(self)@ == (EditorView {
                memory: MemoryView { aliases: shelf_views(aliases@), ..old(self)@.memory },
                ..old(self)@
            }),
    {
        self.memory.aliases = aliases;
    }

    /// How much a page shows.
    pub fn set_page(&mut self, lines: usize, columns: usize)
        requires
            old(self).wf(),
        ensures
            final(self).wf(),
            final(self)@ == (EditorView {
                settings: Settings {
                    page_lines: lines,
                    page_columns: columns,
                    ..old(self)@.settings
                },
                ..old(self)@
            }),
    {
        self.settings.page_lines = lines;
        self.settings.page_columns = columns;
    }

    /// How much a level of indentation is.
    pub fn set_indent_width(&mut self, n: usize)
        requires
            old(self).wf(),
        ensures
            final(self).wf(),
            final(self)@ == (EditorView {
                settings: Settings { indent_width: n, ..old(self)@.settings },
                ..old(self)@
            }),
    {
        self.settings.indent_width = n;
    }

    /// Whether a pattern without a capital finds either case.
    pub fn set_smart_case(&mut self, on: bool)
        requires
            old(self).wf(),
        ensures
            final(self).wf(),
            final(self)@ == (EditorView {
                settings: Settings { smart_case: on, ..old(self)@.settings },
                ..old(self)@
            }),
    {
        self.settings.smart_case = on;
    }

    /// Puts the cursor at `i`, with nothing else selected.
    pub fn set_cursor(&mut self, i: usize)
        requires
            old(self).wf(),
        ensures
            final(self).wf(),
            final(self)@ == old(self)@.pointing_at(i as int),
    {
        let n: usize = self.current_buffer().char_count();
        let at: usize = if i <= n {
            i
        } else {
            n
        };
        self.cursor = at;
        self.anchor = at;
        self.extend = false;
        self.refresh_goal_column();
    }

    /// Points at a character.
    pub fn point_at(&mut self, i: usize)
        requires
            old(self).wf(),
        ensures
            final(self).wf(),
            final(self)@ == old(self)@.pointing_at(i as int),
    {
        self.set_cursor(i);
    }

    /// Draws the selection up to a character.
    pub fn drag_to(&mut self, i: usize)
        requires
            old(self).wf(),
        ensures
            final(self).wf(),
            final(self)@ == old(self)@.dragging_to(i as int),
    {
        let n: usize = self.current_buffer().char_count();
        self.cursor = if i <= n {
            i
        } else {
            n
        };
        self.refresh_goal_column();
    }
}

} // verus!
