//! The editor's state, and what every operation is made of.
//!
//! [`EditorView`] is the state as a value. An operation of the editor is a
//! function from one such value to the next, and each method says which.

use vstd::prelude::*;
use ropey::Rope;
use crate::buffer::{Buffer, BufferView, Refused, scratch};
use crate::grapheme::{find_next_grapheme, next_grapheme};
use crate::rope::{rope_char_to_line, rope_chars, rope_len, rope_line_to_char, rope_slice};
use crate::say;
use crate::state::{
    first_settings, Memory, MemoryView, no_requests, Panels, Places, PlacesView, Registers,
    RegistersView, Requests, RequestsView, Settings,
};
use crate::text::{chars_of, lemma_line_around, line_of, line_start};
use crate::keymap::Pending;
use crate::path::PathView;
use crate::prompt::{Prompt, PromptView};
use crate::repeats::{Repeats, RepeatsView};
use crate::wiki::{Wiki, WikiData};
use crate::width::{char_columns, columns};

verus! {

/// A key as it is pressed.
#[derive(Debug, Clone, Copy, PartialEq, Eq, Structural)]
pub enum Key {
    Char(char),
    Ctrl(char),
    Alt(char),
    Enter,
    Esc,
    Tab,
    BackTab,
    Backspace,
    Delete,
    Up,
    Down,
    Left,
    Right,
    Home,
    End,
    PageUp,
    PageDown,
}

/// A side of the page that a panel stands on.
#[derive(Debug, Clone, Copy, PartialEq, Eq, Structural)]
pub enum Side {
    Left,
    Right,
}

/// What a panel shows.
#[derive(Debug, Clone, Copy, PartialEq, Eq, Structural)]
pub enum Page {
    Outline,
    Buffers,
    Search,
    Wiki,
}

/// What keys mean at the moment.
#[derive(Debug, Clone, Copy, PartialEq, Eq, Structural)]
pub enum Mode {
    Normal,
    Insert,
    /// A command is typed.
    Command,
    /// A pattern is typed.
    Search,
    /// A reading is typed.
    Ruby,
    /// One of several is chosen.
    Picker,
}

/// The state of the editor.
pub struct Editor {
    pub buffers: Vec<Buffer>,
    pub active: usize,
    pub cursor: usize,
    /// The other end of the selection.
    pub anchor: usize,
    /// The column that vertical motions aim for.
    pub goal_column: usize,
    pub mode: Mode,
    /// Whether motions grow the selection.
    pub extend: bool,
    /// The count typed so far.
    pub count: Option<usize>,
    pub status: String,
    /// What the next key is waited for by.
    pub pending: Pending,
    pub registers: Registers,
    /// What is remembered of what was typed.
    pub memory: Memory,
    /// What was pressed, for doing it again.
    pub repeats: Repeats,
    /// The line at the foot of the page.
    pub prompt: Prompt,
    pub wiki: Wiki,
    pub places: Places,
    pub panels: Panels,
    /// What the cursor stands on explains itself by: a row, a note, a comment.
    pub detail: Option<String>,
    pub settings: Settings,
    pub requests: Requests,
    /// What is drawn on the page without being written: the line, the column,
    /// and the text.
    pub candidate: Vec<(usize, usize, String)>,
    /// Which of the things to choose from is chosen.
    pub chosen: usize,
}

/// The state of the editor as a value.
pub struct EditorView {
    pub buffers: Seq<BufferView>,
    pub active: int,
    pub cursor: int,
    pub anchor: int,
    pub goal_column: int,
    pub mode: Mode,
    pub extend: bool,
    pub count: Option<int>,
    pub status: Seq<char>,
    pub pending: Pending,
    pub registers: RegistersView,
    pub memory: MemoryView,
    pub repeats: RepeatsView,
    pub prompt: PromptView,
    pub wiki: WikiData,
    pub places: PlacesView,
    pub panels: Panels,
    pub detail: Option<Seq<char>>,
    pub settings: Settings,
    pub requests: RequestsView,
    pub candidate: Seq<(usize, usize, Seq<char>)>,
    pub chosen: int,
}

/// What buffers hold.
pub open spec fn buffer_views(v: Seq<Buffer>) -> Seq<BufferView> {
    v.map_values(|b: Buffer| b@)
}

/// What runs of drawn text hold.
pub open spec fn run_views(v: Seq<(usize, usize, String)>) -> Seq<(usize, usize, Seq<char>)> {
    v.map_values(|r: (usize, usize, String)| (r.0, r.1, r.2@))
}

impl View for Editor {
    type V = EditorView;

    open spec fn view(&self) -> EditorView {
        EditorView {
            buffers: buffer_views(self.buffers@),
            active: self.active as int,
            cursor: self.cursor as int,
            anchor: self.anchor as int,
            goal_column: self.goal_column as int,
            mode: self.mode,
            extend: self.extend,
            count: match self.count {
                Some(n) => Some(n as int),
                None => None,
            },
            status: self.status@,
            pending: self.pending,
            registers: self.registers@,
            memory: self.memory@,
            repeats: self.repeats@,
            prompt: self.prompt@,
            wiki: self.wiki@,
            places: self.places@,
            panels: self.panels,
            detail: match self.detail {
                Some(s) => Some(s@),
                None => None,
            },
            settings: self.settings,
            requests: self.requests@,
            candidate: run_views(self.candidate@),
            chosen: self.chosen as int,
        }
    }
}

/// The lesser of two numbers.
pub open spec fn least(a: int, b: int) -> int {
    if a <= b {
        a
    } else {
        b
    }
}

/// The greater of two numbers.
pub open spec fn most(a: int, b: int) -> int {
    if a <= b {
        b
    } else {
        a
    }
}

/// How many columns a character takes in a line; a control character none.
pub open spec fn cell(c: char) -> int {
    match columns(c) {
        Some(w) => w as int,
        None => 0,
    }
}

/// The columns from position `a` up to `i`, as far as a `usize` counts them.
pub open spec fn columns_between(t: Seq<char>, a: int, i: int) -> int
    decreases i - a,
{
    if i <= a {
        0
    } else {
        least(columns_between(t, a, i - 1) + cell(t[i - 1]), usize::MAX as int)
    }
}

/// The column that position `i` is at on its line.
pub open spec fn visual_column(t: Seq<char>, i: int) -> int {
    columns_between(t, line_start(t, line_of(t, i)), i)
}

impl EditorView {
    /// The buffer on the page.
    pub open spec fn buffer(self) -> BufferView {
        self.buffers[self.active]
    }

    /// The text on the page.
    pub open spec fn text(self) -> Seq<char> {
        self.buffer().text
    }

    /// There is a buffer on the page, what was read of each belongs to it, the
    /// names of the wiki stand for entries, and the caret is on its line.
    pub open spec fn sound(self) -> bool {
        &&& 0 <= self.active < self.buffers.len()
        &&& forall|k: int| 0 <= k < self.buffers.len() ==> (#[trigger] self.buffers[k]).wf()
        &&& self.wiki.wf()
        &&& self.prompt.wf()
    }

    /// The state is sound, and both ends of the selection are in the text.
    pub open spec fn wf(self) -> bool {
        &&& self.sound()
        &&& 0 <= self.cursor <= self.text().len()
        &&& 0 <= self.anchor <= self.text().len()
    }

    /// With another buffer on the page.
    pub open spec fn with_buffer(self, b: BufferView) -> EditorView {
        EditorView { buffers: self.buffers.update(self.active, b), ..self }
    }

    /// With `s` on the status line.
    pub open spec fn saying(self, s: Seq<char>) -> EditorView {
        EditorView { status: s, ..self }
    }

    /// Where the selection begins.
    pub open spec fn selection_start(self) -> int {
        least(self.anchor, self.cursor)
    }

    /// Where the selection ends: after the grapheme at its further end.
    pub open spec fn selection_end(self) -> int {
        next_grapheme(self.text(), most(self.anchor, self.cursor))
    }

    /// With both ends of the selection inside the text.
    pub open spec fn clamped(self) -> EditorView {
        EditorView {
            cursor: least(self.cursor, self.text().len() as int),
            anchor: least(self.anchor, self.text().len() as int),
            ..self
        }
    }

    /// An edit of the buffer on the page is coming.
    pub open spec fn announcing(self) -> EditorView {
        self.with_buffer(self.buffer().announcing(self.cursor))
    }

    /// `a..b` has become `s`, or the locked buffer has refused.
    pub open spec fn writing(self, a: int, b: int, s: Seq<char>) -> EditorView {
        if self.buffer().readonly {
            self.saying(say::readonly_text())
        } else {
            self.with_buffer(self.buffer().edited(a, b, s))
        }
    }

    /// With buffer `i` on the page, the cursor where it was left there.
    pub open spec fn showing_buffer(self, i: int) -> EditorView {
        let left = EditorView {
            buffers: self.buffers.update(
                self.active,
                BufferView { place: self.cursor, ..self.buffer() },
            ),
            active: i,
            ..self
        };
        let at = least(left.buffer().place, left.text().len() as int);
        EditorView { cursor: at, anchor: at, extend: false, ..left }
    }

    /// With the cursor's own column as the one to aim for.
    pub open spec fn aiming_here(self) -> EditorView {
        EditorView { goal_column: visual_column(self.text(), self.cursor), ..self }
    }
}

/// Replacing one buffer replaces what it holds.
pub proof fn lemma_buffer_update(v: Seq<Buffer>, w: Seq<Buffer>, i: int)
    requires
        0 <= i < v.len(),
        w.len() == v.len(),
        forall|k: int| 0 <= k < v.len() && k != i ==> w[k] == v[k],
    ensures
        buffer_views(w) == buffer_views(v).update(i, w[i]@),
{
    assert(buffer_views(w) =~= buffer_views(v).update(i, w[i]@));
}

impl Editor {
    /// The invariant of the state.
    pub open spec fn wf(&self) -> bool {
        self@.wf()
    }

    /// An editor with one empty buffer.
    pub fn new() -> (ed: Editor)
        ensures
            ed.wf(),
            ed@ == (EditorView {
                buffers: seq![scratch()],
                active: 0,
                cursor: 0,
                anchor: 0,
                goal_column: 0,
                mode: Mode::Normal,
                extend: false,
                count: None,
                status: Seq::empty(),
                pending: Pending::Idle,
                registers: (RegistersView {
                    ring: Seq::empty(),
                    shelf: Seq::empty(),
                    asked: None,
                }),
                memory: (MemoryView {
                    typed: Seq::empty(),
                    found: None,
                    pattern: None,
                    aliases: Seq::empty(),
                }),
                repeats: (RepeatsView {
                    watch: Seq::empty(),
                    buffer: 0,
                    revision: 0,
                    change: Seq::empty(),
                    recording: None,
                    recorded: Seq::empty(),
                }),
                prompt: (PromptView {
                    line: Seq::empty(),
                    caret: 0,
                    commands: Seq::empty(),
                    patterns: Seq::empty(),
                    at: None,
                }),
                wiki: (WikiData {
                    entries: Seq::empty(),
                    by_name: Seq::empty(),
                    sources: Seq::empty(),
                }),
                places: (PlacesView {
                    data_dir: None,
                    root: (PathView { absolute: false, parts: Seq::empty() }),
                }),
                panels: (Panels { left: None, right: None, focus: None }),
                detail: None,
                settings: first_settings(),
                requests: no_requests(),
                candidate: Seq::empty(),
                chosen: 0,
            }),
    {
        let mut buffers: Vec<Buffer> = Vec::new();
        buffers.push(Buffer::new());
        let ed: Editor = Editor {
            buffers,
            active: 0,
            cursor: 0,
            anchor: 0,
            goal_column: 0,
            mode: Mode::Normal,
            extend: false,
            count: None,
            status: String::new(),
            pending: Pending::Idle,
            registers: Registers::new(),
            memory: Memory::new(),
            repeats: Repeats::new(),
            prompt: Prompt::new(),
            wiki: Wiki::new(),
            places: Places::new(),
            panels: Panels { left: None, right: None, focus: None },
            detail: None,
            settings: Settings::new(),
            requests: Requests::new(),
            candidate: Vec::new(),
            chosen: 0,
        };
        proof {
            assert(buffer_views(ed.buffers@) =~= seq![scratch()]);
            assert(ed.status@ =~= Seq::empty());
            assert(run_views(ed.candidate@) =~= Seq::empty());
        }
        ed
    }

    /// The buffer on the page.
    pub fn current_buffer(&self) -> (b: &Buffer)
        requires
            self.wf(),
        ensures
            b@ == self@.buffer(),
            *b == self.buffers@[self.active as int],
    {
        &self.buffers[self.active]
    }

    /// The buffer on the page, to be changed.
    pub fn current_buffer_mut(&mut self) -> (b: &mut Buffer)
        requires
            old(self)@.sound(),
        ensures
            (*b)@ == old(self)@.buffer(),
            final(self)@ == old(self)@.with_buffer((*final(b))@),
    {
        let ghost before = self.buffers@;
        let i: usize = self.active;
        let b = &mut self.buffers[i];
        proof {
            assert forall|x: Buffer| #[trigger] buffer_views(before.update(i as int, x))
                == buffer_views(before).update(i as int, x@) by {
                assert(buffer_views(before.update(i as int, x)) =~= buffer_views(before).update(
                    i as int,
                    x@,
                ));
            }
        }
        b
    }

    /// Puts `s` on the status line.
    pub(crate) fn say(&mut self, s: String)
        requires
            old(self).wf(),
        ensures
            final(self).wf(),
            final(self)@ == old(self)@.saying(s@),
    {
        self.status = s;
    }

    /// Puts buffer `i` on the page, the cursor where it was left there.
    pub fn show_buffer(&mut self, i: usize)
        requires
            old(self).wf(),
            i < old(self)@.buffers.len(),
        ensures
            final(self).wf(),
            final(self)@ == old(self)@.showing_buffer(i as int),
    {
        let from: usize = self.active;
        let ghost before = self.buffers@;
        self.buffers[from].place = self.cursor;
        proof {
            lemma_buffer_update(before, self.buffers@, from as int);
            assert(self.buffers@[from as int]@ =~= (BufferView {
                place: old(self)@.cursor,
                ..old(self)@.buffer()
            }));
        }
        self.active = i;
        let n: usize = self.buffers[i].char_count();
        let place: usize = self.buffers[i].place;
        let at: usize = if place <= n {
            place
        } else {
            n
        };
        self.cursor = at;
        self.anchor = at;
        self.extend = false;
        assert(self@ =~= old(self)@.showing_buffer(i as int));
    }

    /// The rope of the buffer on the page.
    pub(crate) fn rope(&self) -> (r: &Rope)
        requires
            self@.sound(),
        ensures
            rope_chars(*r) == self@.text(),
            self@.text().len() <= usize::MAX,
    {
        let r: &Rope = &self.buffers[self.active].rope;
        let _: usize = rope_len(r);
        r
    }

    /// The selection: where it begins, and where it ends. It covers the
    /// grapheme the cursor is on.
    pub fn selection(&self) -> (r: (usize, usize))
        requires
            self.wf(),
        ensures
            r.0 == self@.selection_start(),
            r.1 == self@.selection_end(),
            r.0 <= r.1 <= self@.text().len(),
            r.0 == r.1 ==> r.0 == self@.text().len(),
    {
        let a: usize = if self.anchor <= self.cursor {
            self.anchor
        } else {
            self.cursor
        };
        let b: usize = if self.anchor <= self.cursor {
            self.cursor
        } else {
            self.anchor
        };
        let end: usize = find_next_grapheme(self.rope(), b);
        (a, end)
    }

    /// Announces an edit of the buffer on the page.
    pub fn snapshot(&mut self)
        requires
            old(self).wf(),
        ensures
            final(self).wf(),
            final(self)@ == old(self)@.announcing(),
    {
        let at: usize = self.cursor;
        let i: usize = self.active;
        let ghost before = self.buffers@;
        self.buffers[i].snapshot(at);
        proof {
            lemma_buffer_update(before, self.buffers@, i as int);
            assert(self@ =~= old(self)@.announcing());
        }
    }

    /// Says that the buffer is locked, where it is.
    pub fn refuse_readonly(&mut self) -> (refused: bool)
        requires
            old(self).wf(),
        ensures
            final(self).wf(),
            refused == old(self)@.buffer().readonly,
            final(self)@ == (if refused {
                old(self)@.saying(say::readonly_text())
            } else {
                old(self)@
            }),
    {
        if self.buffers[self.active].is_readonly() {
            self.status = say::readonly();
            true
        } else {
            false
        }
    }

    /// Replaces `a..b` by `s`; says so where the buffer is locked. The ends of
    /// the selection are left to the caller.
    pub fn overwrite(&mut self, a: usize, b: usize, s: &str) -> (done: bool)
        requires
            old(self)@.sound(),
            a <= b <= old(self)@.text().len(),
        ensures
            done == !old(self)@.buffer().readonly,
            final(self)@ == old(self)@.writing(a as int, b as int, s@),
            final(self)@.sound(),
            final(self)@.text().len() <= usize::MAX,
    {
        let i: usize = self.active;
        let ghost before = self.buffers@;
        let done: Result<(), Refused> = self.buffers[i].replace(a, b, s);
        proof {
            lemma_buffer_update(before, self.buffers@, i as int);
            assert(buffer_views(before).update(i as int, buffer_views(before)[i as int])
                =~= buffer_views(before));
        }
        match done {
            Ok(_) => {
                assert(self@ =~= old(self)@.writing(a as int, b as int, s@));
                true
            },
            Err(_) => {
                self.status = say::readonly();
                assert(self@ =~= old(self)@.writing(a as int, b as int, s@));
                false
            },
        }
    }

    /// Brings both ends of the selection inside the text.
    pub fn clamp_cursor(&mut self)
        requires
            old(self)@.sound(),
        ensures
            final(self).wf(),
            final(self)@ == old(self)@.clamped(),
    {
        let n: usize = rope_len(&self.buffers[self.active].rope);
        if self.cursor > n {
            self.cursor = n;
        }
        if self.anchor > n {
            self.anchor = n;
        }
        assert(self@ =~= old(self)@.clamped());
    }

    /// The line the cursor is on.
    pub fn cursor_line(&self) -> (l: usize)
        requires
            self.wf(),
        ensures
            l == line_of(self@.text(), self@.cursor),
            l < crate::text::line_count(self@.text()),
    {
        proof {
            lemma_line_around(self@.text(), self@.cursor);
        }
        rope_char_to_line(self.rope(), self.cursor)
    }

    /// The column the cursor is at.
    pub fn cursor_visual_column(&self) -> (c: usize)
        requires
            self.wf(),
        ensures
            c == visual_column(self@.text(), self@.cursor),
    {
        let rope: &Rope = self.rope();
        let ghost t = rope_chars(*rope);
        proof {
            lemma_line_around(t, self@.cursor);
        }
        let l: usize = rope_char_to_line(rope, self.cursor);
        let start: usize = rope_line_to_char(rope, l);
        let part: Vec<char> = chars_of(rope_slice(rope, start, self.cursor).as_str());
        let n: usize = part.len();
        let mut c: usize = 0;
        let mut i: usize = 0;
        while i < n
            invariant
                0 <= i <= n,
                n == part@.len(),
                start <= self.cursor <= t.len(),
                part@ == t.subrange(start as int, self.cursor as int),
                c == columns_between(t, start as int, start + i),
            decreases n - i,
        {
            assert(part@[i as int] == t[start + i]);
            let w: usize = match char_columns(part[i]) {
                Some(w) => w,
                None => 0,
            };
            c = c.saturating_add(w);
            i += 1;
        }
        c
    }

    /// Makes the cursor's own column the one to aim for.
    pub fn refresh_goal_column(&mut self)
        requires
            old(self).wf(),
        ensures
            final(self).wf(),
            final(self)@ == old(self)@.aiming_here(),
    {
        self.goal_column = self.cursor_visual_column();
    }

    /// Where the cursor is.
    pub fn cursor(&self) -> (i: usize)
        ensures
            i == self@.cursor,
    {
        self.cursor
    }

    /// What keys mean at the moment.
    pub fn mode(&self) -> (m: Mode)
        ensures
            m == self@.mode,
    {
        self.mode
    }

    /// The status line.
    pub fn status(&self) -> (s: &str)
        ensures
            s@ == self@.status,
    {
        self.status.as_str()
    }
}

} // verus!
