//! A buffer: one text, its file, and its history.

use vstd::prelude::*;
use ropey::Rope;
use crate::conflict::Side;
use crate::path::{FilePath, PathView};
use crate::rope::{
    rope_chars, rope_clone, rope_from, rope_insert, rope_len, rope_line, rope_lines, rope_remove,
    rope_slice,
};
use crate::say;
use crate::text::{chars_of, lemma_spliced, line_count, line_text, spliced};

verus! {

/// Which language a buffer is written in.
#[derive(Debug, Clone, Copy, PartialEq, Eq, Structural)]
pub enum Syntax {
    Text,
    Markdown,
    Typst,
}

/// What kind of block a line belongs to, as far as names are looked for in it.
#[derive(Debug, Clone, Copy, PartialEq, Eq, Structural)]
pub enum Block {
    /// Writing.
    Prose,
    /// A fence: quoted as it is.
    Literal,
    /// A comment.
    Comment,
    /// A conflict: one side of it, or one of its markers.
    Conflict(Option<Side>),
}

impl Block {
    /// Whether the block is quoted as it is.
    pub open spec fn literal(self) -> bool {
        self == Block::Literal
    }

    /// Whether the block is quoted as it is.
    pub fn is_literal(&self) -> (r: bool)
        ensures
            r == self.literal(),
    {
        *self == Block::Literal
    }
}

/// What was read of one line: the words it was cut into.
#[derive(Debug)]
pub struct LineReading {
    pub cuts: Vec<(usize, usize)>,
}

/// What a [`LineReading`] says.
#[verifier::ext_equal]
pub struct LineView {
    pub cuts: Seq<(usize, usize)>,
}

impl View for LineReading {
    type V = LineView;

    open spec fn view(&self) -> LineView {
        LineView { cuts: self.cuts@ }
    }
}

/// A recovery copy of unsaved work.
#[derive(Debug, Clone, Copy, PartialEq, Eq, Structural)]
pub enum Swap {
    /// There is none.
    Absent,
    /// This session wrote it.
    Ours,
    /// It was found, and this session has not taken it over.
    Foreign,
}

/// A state to go back to: a text, and where the cursor was.
pub struct Point {
    pub rope: Rope,
    pub at: usize,
}

/// What a [`Point`] holds.
#[verifier::ext_equal]
pub struct PointView {
    pub text: Seq<char>,
    pub at: int,
}

impl View for Point {
    type V = PointView;

    open spec fn view(&self) -> PointView {
        PointView { text: rope_chars(self.rope), at: self.at as int }
    }
}

/// The points of a history.
pub open spec fn points(v: Seq<Point>) -> Seq<PointView> {
    v.map_values(|p: Point| p@)
}

/// Why an edit was refused.
#[derive(Debug, Clone, Copy, PartialEq, Eq, Structural)]
pub enum Refused {
    /// The buffer is locked.
    ReadOnly,
}

/// One text, its file, and its history.
pub struct Buffer {
    pub rope: Rope,
    pub path: Option<FilePath>,
    pub modified: bool,
    pub readonly: bool,
    pub swap: Swap,
    pub syntax: Syntax,
    /// The states before this one, the latest last.
    pub past: Vec<Point>,
    /// The states that were undone, the next to be redone last.
    pub future: Vec<Point>,
    /// Where the cursor was when an edit was announced that has not come yet.
    pub announced: Option<usize>,
    /// Whether announcements belong to a command that is still running.
    pub grouped: bool,
    /// What was read of the lines; none of it once the text has changed.
    pub reading: Vec<LineReading>,
    /// Where the cursor was left when another buffer came on the page.
    pub place: usize,
    /// Counts the changes of the text.
    pub revision: u64,
}

/// What a [`Buffer`] holds.
#[verifier::ext_equal]
pub struct BufferView {
    pub text: Seq<char>,
    pub path: Option<PathView>,
    pub modified: bool,
    pub readonly: bool,
    pub swap: Swap,
    pub syntax: Syntax,
    pub past: Seq<PointView>,
    pub future: Seq<PointView>,
    pub announced: Option<int>,
    pub grouped: bool,
    pub reading: Seq<LineView>,
    pub place: int,
    pub revision: int,
}

impl View for Buffer {
    type V = BufferView;

    open spec fn view(&self) -> BufferView {
        BufferView {
            text: rope_chars(self.rope),
            path: match self.path {
                Some(p) => Some(p@),
                None => None,
            },
            modified: self.modified,
            readonly: self.readonly,
            swap: self.swap,
            syntax: self.syntax,
            past: points(self.past@),
            future: points(self.future@),
            announced: match self.announced {
                Some(at) => Some(at as int),
                None => None,
            },
            grouped: self.grouped,
            reading: self.reading@.map_values(|r: LineReading| r@),
            place: self.place as int,
            revision: self.revision as int,
        }
    }
}

/// A line without the break that ends it.
pub open spec fn line_body(t: Seq<char>, l: int) -> Seq<char> {
    let line = line_text(t, l);
    let n = line.len() as int;
    if n >= 2 && line[n - 1] == '\n' && line[n - 2] == '\r' {
        line.take(n - 2)
    } else if n >= 1 && line[n - 1] == '\n' {
        line.take(n - 1)
    } else {
        line
    }
}

impl BufferView {
    /// What was read belongs to this text: every word is a range that begins
    /// on its line.
    pub open spec fn wf(self) -> bool {
        forall|l: int, k: int|
            0 <= l < self.reading.len() && 0 <= k < self.reading[l].cuts.len()
                ==> (#[trigger] self.reading[l].cuts[k]).0 <= self.reading[l].cuts[k].1
                && self.reading[l].cuts[k].0 <= line_body(self.text, l).len()
    }

    /// What the buffer is called: by the name of its file.
    pub open spec fn display_name(self) -> Seq<char> {
        match self.path {
            Some(p) => match p.file_name() {
                Some(name) => name,
                None => p.shown(),
            },
            None => say::scratch_name_text(),
        }
    }

    /// An edit is coming; the cursor is at `at`. None comes to a locked buffer,
    /// and one of a command that is still running is part of it.
    pub open spec fn announcing(self, at: int) -> BufferView {
        if self.grouped || self.readonly {
            self
        } else {
            BufferView { announced: Some(at), ..self }
        }
    }

    /// `a..b` has become `s`. The first edit after an announcement leaves a
    /// point to go back to, and no edit leaves anything to redo.
    pub open spec fn edited(self, a: int, b: int, s: Seq<char>) -> BufferView {
        if a == b && s.len() == 0 {
            self
        } else {
            BufferView {
                text: spliced(self.text, a, b, s),
                modified: true,
                past: match self.announced {
                    Some(at) => self.past.push(PointView { text: self.text, at }),
                    None => self.past,
                },
                future: Seq::empty(),
                announced: None,
                reading: Seq::empty(),
                revision: next_revision(self.revision),
                ..self
            }
        }
    }

    /// As [`BufferView::edited`], unless the buffer is locked.
    pub open spec fn replacing(self, a: int, b: int, s: Seq<char>) -> BufferView {
        if self.readonly {
            self
        } else {
            self.edited(a, b, s)
        }
    }

    /// Back to the last point; where the cursor is now is kept for redoing.
    pub open spec fn undone(self, at: int) -> BufferView {
        if self.past.len() == 0 {
            self
        } else {
            BufferView {
                text: self.past.last().text,
                modified: true,
                past: self.past.drop_last(),
                future: self.future.push(PointView { text: self.text, at }),
                announced: None,
                reading: Seq::empty(),
                revision: next_revision(self.revision),
                ..self
            }
        }
    }

    /// Forward to what was undone last; where the cursor is now is kept for
    /// undoing.
    pub open spec fn redone(self, at: int) -> BufferView {
        if self.future.len() == 0 {
            self
        } else {
            BufferView {
                text: self.future.last().text,
                modified: true,
                past: self.past.push(PointView { text: self.text, at }),
                future: self.future.drop_last(),
                announced: None,
                reading: Seq::empty(),
                revision: next_revision(self.revision),
                ..self
            }
        }
    }

    /// Without a recovery copy of this session's own.
    pub open spec fn swept(self) -> BufferView {
        BufferView { swap: if self.swap == Swap::Ours { Swap::Absent } else { self.swap }, ..self }
    }
}

/// An empty buffer without a file.
pub open spec fn scratch() -> BufferView {
    BufferView {
        text: Seq::empty(),
        path: None,
        modified: false,
        readonly: false,
        swap: Swap::Absent,
        syntax: Syntax::Markdown,
        past: Seq::empty(),
        future: Seq::empty(),
        announced: None,
        grouped: false,
        reading: Seq::empty(),
        place: 0,
        revision: 0,
    }
}

/// The number after `n`; the count begins again where a `u64` ends.
pub open spec fn next_revision(n: int) -> int {
    if n >= u64::MAX {
        0
    } else {
        n + 1
    }
}

impl Buffer {
    /// An empty buffer without a file.
    pub fn new() -> (b: Buffer)
        ensures
            b@ == scratch(),
    {
        proof {
            reveal_strlit("");
        }
        let b: Buffer = Buffer {
            rope: rope_from(""),
            path: None,
            modified: false,
            readonly: false,
            swap: Swap::Absent,
            syntax: Syntax::Markdown,
            past: Vec::new(),
            future: Vec::new(),
            announced: None,
            grouped: false,
            reading: Vec::new(),
            place: 0,
            revision: 0,
        };
        assert(b@ =~= scratch());
        b
    }

    /// A buffer that holds what was read from `path`.
    pub fn read_from(path: FilePath, text: &str) -> (b: Buffer)
        ensures
            b@ == (BufferView { text: text@, path: Some(path@), ..scratch() }),
    {
        let mut b: Buffer = Buffer::new();
        b.rope = rope_from(text);
        b.path = Some(path);
        assert(b@ =~= (BufferView { text: text@, path: Some(path@), ..scratch() }));
        b
    }

    /// A buffer that holds `text` and has no file.
    pub fn from_text(text: &str) -> (b: Buffer)
        ensures
            b@ == (BufferView { text: text@, ..scratch() }),
    {
        let mut b: Buffer = Buffer::new();
        b.rope = rope_from(text);
        assert(b@ =~= (BufferView { text: text@, ..scratch() }));
        b
    }

    /// The rope that holds the text.
    pub fn rope(&self) -> (r: &Rope)
        ensures
            *r == self.rope,
    {
        &self.rope
    }

    /// What the buffer is called: by the name of its file.
    pub fn display_name(&self) -> (s: String)
        ensures
            s@ == self@.display_name(),
    {
        match &self.path {
            Some(p) => match p.file_name() {
                Some(name) => name,
                None => p.show(),
            },
            None => say::scratch_name(),
        }
    }

    /// Locks the buffer, or unlocks it.
    pub fn set_readonly(&mut self, on: bool)
        ensures
            final(self)@ == (BufferView { readonly: on, ..old(self)@ }),
    {
        self.readonly = on;
    }

    /// The text.
    pub fn text(&self) -> (s: String)
        ensures
            s@ == self@.text,
    {
        let n: usize = rope_len(&self.rope);
        let s: String = rope_slice(&self.rope, 0, n);
        assert(self@.text.subrange(0, n as int) =~= self@.text);
        s
    }

    /// How many characters the text has.
    pub fn char_count(&self) -> (n: usize)
        ensures
            n == self@.text.len(),
    {
        rope_len(&self.rope)
    }

    /// How many lines the text has.
    pub fn line_count(&self) -> (n: usize)
        ensures
            n == line_count(self@.text),
    {
        rope_lines(&self.rope)
    }

    /// Whether there are changes that were not saved.
    pub fn is_modified(&self) -> (r: bool)
        ensures
            r == self@.modified,
    {
        self.modified
    }

    /// Whether the buffer is locked.
    pub fn is_readonly(&self) -> (r: bool)
        ensures
            r == self@.readonly,
    {
        self.readonly
    }

    /// Reads the buffer as `syntax`.
    pub fn set_syntax(&mut self, syntax: Syntax)
        ensures
            final(self)@ == (BufferView { syntax, ..old(self)@ }),
    {
        self.syntax = syntax;
    }

    /// The characters of line `l` without the break that ends it.
    pub fn line_chars(&self, l: usize) -> (v: Vec<char>)
        requires
            l < line_count(self@.text),
        ensures
            v@ == line_body(self@.text, l as int),
    {
        let line: String = rope_line(&self.rope, l);
        let mut v: Vec<char> = chars_of(line.as_str());
        let n: usize = v.len();
        if n >= 1 && v[n - 1] == '\n' {
            let _ = v.pop();
            if n >= 2 && v[n - 2] == '\r' {
                let _ = v.pop();
            }
        }
        assert(v@ =~= line_body(self@.text, l as int));
        v
    }

    /// Announces an edit while the cursor is at `at`.
    pub fn snapshot(&mut self, at: usize)
        ensures
            final(self)@ == old(self)@.announcing(at as int),
    {
        if !self.grouped && !self.readonly {
            self.announced = Some(at);
        }
        assert(self@ =~= old(self)@.announcing(at as int));
    }

    /// From here on announcements belong to the command that is running.
    pub fn begin_undo_group(&mut self) -> (was: bool)
        ensures
            was == old(self)@.grouped,
            final(self)@ == (BufferView { grouped: true, ..old(self)@ }),
    {
        let was: bool = self.grouped;
        self.grouped = true;
        was
    }

    /// The command has run; `was` is what [`Buffer::begin_undo_group`] gave.
    pub fn end_undo_group(&mut self, was: bool)
        ensures
            final(self)@ == (BufferView { grouped: was, ..old(self)@ }),
    {
        self.grouped = was;
    }

    /// Counts a change of the text.
    fn count_change(&mut self)
        ensures
            final(self)@ == (BufferView {
                revision: next_revision(old(self)@.revision),
                ..old(self)@
            }),
            final(self).rope == old(self).rope,
            final(self).past == old(self).past,
            final(self).future == old(self).future,
    {
        self.revision = if self.revision == u64::MAX {
            0
        } else {
            self.revision + 1
        };
    }

    /// Replaces `a..b` by `s`; refused where the buffer is locked.
    pub fn replace(&mut self, a: usize, b: usize, s: &str) -> (done: Result<(), Refused>)
        requires
            a <= b <= old(self)@.text.len(),
        ensures
            done is Err <==> old(self)@.readonly,
            final(self)@ == old(self)@.replacing(a as int, b as int, s@),
            final(self)@.text.len() <= usize::MAX,
    {
        if self.readonly {
            let _: usize = rope_len(&self.rope);
            return Err(Refused::ReadOnly);
        }
        if a == b && s.unicode_len() == 0 {
            let _: usize = rope_len(&self.rope);
            return Ok(());
        }
        let ghost before = self@;
        match self.announced {
            Some(at) => {
                let point: Point = Point { rope: rope_clone(&self.rope), at };
                self.past.push(point);
                assert(points(self.past@) =~= before.past.push(
                    PointView { text: before.text, at: at as int },
                ));
            },
            None => {},
        }
        self.announced = None;
        self.future = Vec::new();
        self.reading = Vec::new();
        self.modified = true;
        self.count_change();
        if a < b {
            rope_remove(&mut self.rope, a, b);
        }
        proof {
            lemma_spliced(before.text, a as int, b as int, Seq::empty());
        }
        rope_insert(&mut self.rope, a, s);
        proof {
            assert(rope_chars(self.rope) =~= spliced(before.text, a as int, b as int, s@));
            assert(points(self.future@) =~= Seq::empty());
            assert(self@ =~= before.edited(a as int, b as int, s@));
        }
        let _: usize = rope_len(&self.rope);
        Ok(())
    }

    /// Puts `s` in at `i`; refused where the buffer is locked.
    pub fn insert(&mut self, i: usize, s: &str) -> (done: Result<(), Refused>)
        requires
            i <= old(self)@.text.len(),
        ensures
            done is Err <==> old(self)@.readonly,
            final(self)@ == old(self)@.replacing(i as int, i as int, s@),
    {
        self.replace(i, i, s)
    }

    /// Goes back to the last point; gives where the cursor was then.
    pub fn undo(&mut self, at: usize) -> (cursor: Option<usize>)
        ensures
            final(self)@ == old(self)@.undone(at as int),
            match cursor {
                Some(c) => old(self)@.past.len() > 0 && c == old(self)@.past.last().at,
                None => old(self)@.past.len() == 0,
            },
            final(self)@.text.len() <= usize::MAX,
    {
        let ghost before = self@;
        let r: Option<usize> = match self.past.pop() {
            Some(point) => {
                let here: Point = Point { rope: rope_clone(&self.rope), at };
                self.future.push(here);
                self.rope = point.rope;
                self.modified = true;
                self.announced = None;
                self.reading = Vec::new();
                self.count_change();
                proof {
                    assert(points(self.past@) =~= before.past.drop_last());
                    assert(point@ == before.past.last());
                    assert(points(self.future@) =~= before.future.push(
                        PointView { text: before.text, at: at as int },
                    ));
                    assert(self@ =~= before.undone(at as int));
                }
                Some(point.at)
            },
            None => {
                assert(points(self.past@).len() == 0);
                None
            },
        };
        let _: usize = rope_len(&self.rope);
        r
    }

    /// Goes forward to what was undone last; gives where the cursor was then.
    pub fn redo(&mut self, at: usize) -> (cursor: Option<usize>)
        ensures
            final(self)@ == old(self)@.redone(at as int),
            match cursor {
                Some(c) => old(self)@.future.len() > 0 && c == old(self)@.future.last().at,
                None => old(self)@.future.len() == 0,
            },
            final(self)@.text.len() <= usize::MAX,
    {
        let ghost before = self@;
        let r: Option<usize> = match self.future.pop() {
            Some(point) => {
                let here: Point = Point { rope: rope_clone(&self.rope), at };
                self.past.push(here);
                self.rope = point.rope;
                self.modified = true;
                self.announced = None;
                self.reading = Vec::new();
                self.count_change();
                proof {
                    assert(points(self.future@) =~= before.future.drop_last());
                    assert(point@ == before.future.last());
                    assert(points(self.past@) =~= before.past.push(
                        PointView { text: before.text, at: at as int },
                    ));
                    assert(self@ =~= before.redone(at as int));
                }
                Some(point.at)
            },
            None => {
                assert(points(self.future@).len() == 0);
                None
            },
        };
        let _: usize = rope_len(&self.rope);
        r
    }

    /// Gives up this session's own recovery copy.
    pub fn clear_swap(&mut self)
        ensures
            final(self)@ == old(self)@.swept(),
    {
        if self.swap == Swap::Ours {
            self.swap = Swap::Absent;
        }
    }
}

} // verus!
