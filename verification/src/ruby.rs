//! Readings written beside the text.

use vstd::prelude::*;
use crate::block::{Open, open_before, see_line, stands, written_block};
use crate::buffer::{Block, Syntax};
use crate::editor::{Editor, EditorView, Mode};
use crate::rope::rope_line;
use crate::say;
use crate::state::{Render, Settings};
use crate::text::{
    chars_of, copied, find_stand, lemma_spliced, line_count, line_text, next_stand, pieces_of,
    same_text, split_on, stands_at, string_between, views,
};

verus! {

/// How a reading is written.
#[derive(Debug, Clone, Copy, PartialEq, Eq, Structural)]
pub enum Dialect {
    Html,
    Typst,
}

/// Some ways to write a reading.
#[derive(Debug, Clone, Copy, PartialEq, Eq, Structural)]
pub struct Dialects {
    pub html: bool,
    pub typst: bool,
}

impl Dialects {
    /// One way alone.
    pub fn only(d: Dialect) -> (r: Dialects)
        ensures
            r == (Dialects { html: d == Dialect::Html, typst: d == Dialect::Typst }),
    {
        Dialects { html: d == Dialect::Html, typst: d == Dialect::Typst }
    }

    /// Whether `d` is among them.
    pub fn contains(&self, d: Dialect) -> (r: bool)
        ensures
            r == (if d == Dialect::Html {
                self.html
            } else {
                self.typst
            }),
    {
        if d == Dialect::Html {
            self.html
        } else {
            self.typst
        }
    }

    /// Whether there is none.
    pub fn is_empty(&self) -> (r: bool)
        ensures
            r == (!self.html && !self.typst),
    {
        !self.html && !self.typst
    }
}

// ---- Reading the markup ---------------------------------------------------

/// What stands before the text that is read.
pub open spec fn head(d: Dialect) -> Seq<char> {
    match d {
        Dialect::Html => "<ruby>"@,
        Dialect::Typst => "#ruby(\""@,
    }
}

/// What stands between the text and its reading.
pub open spec fn joint(d: Dialect) -> Seq<char> {
    match d {
        Dialect::Html => "<rt>"@,
        Dialect::Typst => "\", \""@,
    }
}

/// What stands after the reading.
pub open spec fn tail(d: Dialect) -> Seq<char> {
    match d {
        Dialect::Html => "</rt></ruby>"@,
        Dialect::Typst => "\")"@,
    }
}

/// A text with its reading, by where it begins, where its joint stands and
/// where its tail stands.
#[derive(Debug, Clone, Copy, PartialEq, Eq, Structural)]
pub struct Ruby {
    pub dialect: Dialect,
    pub start: usize,
    pub split: usize,
    pub close: usize,
}

/// Where a [`Ruby`] is.
pub struct RubyView {
    pub dialect: Dialect,
    pub start: int,
    pub split: int,
    pub close: int,
}

impl View for Ruby {
    type V = RubyView;

    open spec fn view(&self) -> RubyView {
        RubyView {
            dialect: self.dialect,
            start: self.start as int,
            split: self.split as int,
            close: self.close as int,
        }
    }
}

impl RubyView {
    /// Where the markup ends.
    pub open spec fn end(self) -> int {
        self.close + tail(self.dialect).len()
    }

    /// The text that is read.
    pub open spec fn base(self, s: Seq<char>) -> Seq<char> {
        s.subrange(self.start + head(self.dialect).len(), self.split)
    }

    /// Its reading.
    pub open spec fn reading(self, s: Seq<char>) -> Seq<char> {
        s.subrange(self.split + joint(self.dialect).len(), self.close)
    }

    /// The parts stand in the text, in order.
    pub open spec fn stands_in(self, s: Seq<char>) -> bool {
        &&& 0 <= self.start
        &&& self.start + head(self.dialect).len() <= self.split
        &&& self.split + joint(self.dialect).len() <= self.close
        &&& self.close + tail(self.dialect).len() <= s.len()
        &&& head(self.dialect).len() > 0
    }
}

/// A reading that is written in `d` at `i`.
pub open spec fn ruby_by(d: Dialect, s: Seq<char>, i: int) -> Option<RubyView> {
    if !stands(s, head(d), i) {
        None
    } else {
        match next_stand(s, joint(d), (i + head(d).len()) as int) {
            Some(split) => match next_stand(s, tail(d), (split + joint(d).len()) as int) {
                Some(close) => Some(RubyView { dialect: d, start: i, split, close }),
                None => None,
            },
            None => None,
        }
    }
}

/// A reading that is written at `i`.
pub open spec fn ruby_at(s: Seq<char>, i: int) -> Option<RubyView> {
    match ruby_by(Dialect::Html, s, i) {
        Some(r) => Some(r),
        None => ruby_by(Dialect::Typst, s, i),
    }
}

/// A text with its reading as it is written.
pub open spec fn written(d: Dialect, base: Seq<char>, reading: Seq<char>) -> Seq<char> {
    head(d) + base + joint(d) + reading + tail(d)
}

/// The first reading at or after `i` that position `at` belongs to.
pub open spec fn ruby_over(s: Seq<char>, at: int, i: int) -> Option<RubyView>
    decreases s.len() - i,
{
    if i >= s.len() || i > at {
        None
    } else {
        match ruby_at(s, i) {
            Some(r) => if at < r.end() {
                Some(r)
            } else if i < r.end() <= s.len() {
                ruby_over(s, at, r.end())
            } else {
                None
            },
            None => ruby_over(s, at, i + 1),
        }
    }
}

/// The text from `i` on without its readings.
pub open spec fn plain_from(s: Seq<char>, i: int) -> Seq<char>
    decreases s.len() - i,
{
    if i >= s.len() {
        Seq::empty()
    } else {
        match ruby_at(s, i) {
            Some(r) => if i < r.end() <= s.len() {
                r.base(s) + plain_from(s, r.end())
            } else {
                Seq::empty()
            },
            None => seq![s[i]] + plain_from(s, i + 1),
        }
    }
}

/// The text from `i` on with every reading written in `d`.
pub open spec fn rewritten_from(d: Dialect, s: Seq<char>, i: int) -> Seq<char>
    decreases s.len() - i,
{
    if i >= s.len() {
        Seq::empty()
    } else {
        match ruby_at(s, i) {
            Some(r) => if i < r.end() <= s.len() {
                written(d, r.base(s), r.reading(s)) + rewritten_from(d, s, r.end())
            } else {
                Seq::empty()
            },
            None => seq![s[i]] + rewritten_from(d, s, i + 1),
        }
    }
}

/// A reading for every character of `base`, the first `k` of them.
pub open spec fn each_written(
    d: Dialect,
    base: Seq<char>,
    readings: Seq<Seq<char>>,
    k: int,
) -> Seq<char>
    decreases k,
{
    if k <= 0 {
        Seq::empty()
    } else {
        each_written(d, base, readings, k - 1) + written(d, seq![base[k - 1]], readings[k - 1])
    }
}

/// A text with the reading that was typed: none where it is empty, and one for
/// every character where bars part it into as many.
pub open spec fn annotated(d: Dialect, base: Seq<char>, reading: Seq<char>) -> Seq<char> {
    let parts = pieces_of(reading, '|');
    if reading.len() == 0 {
        base
    } else if parts.len() > 1 && parts.len() == base.len() {
        each_written(d, base, parts, base.len() as int)
    } else {
        written(d, base, reading)
    }
}

/// What stands before the text that is read.
fn write_head(d: Dialect) -> (s: &'static str)
    ensures
        s@ == head(d),
        s@.len() > 0,
{
    proof {
        reveal_strlit("<ruby>");
        reveal_strlit("#ruby(\"");
    }
    match d {
        Dialect::Html => "<ruby>",
        Dialect::Typst => "#ruby(\"",
    }
}

/// What stands between the text and its reading.
fn write_joint(d: Dialect) -> (s: &'static str)
    ensures
        s@ == joint(d),
{
    match d {
        Dialect::Html => "<rt>",
        Dialect::Typst => "\", \"",
    }
}

/// What stands after the reading.
fn write_tail(d: Dialect) -> (s: &'static str)
    ensures
        s@ == tail(d),
{
    match d {
        Dialect::Html => "</rt></ruby>",
        Dialect::Typst => "\")",
    }
}

/// A reading that is written in `d` at `i`.
fn read_by(d: Dialect, v: &Vec<char>, i: usize) -> (r: Option<Ruby>)
    requires
        i <= v@.len(),
    ensures
        match r {
            Some(x) => ruby_by(d, v@, i as int) == Some(x@) && x@.stands_in(v@) && x.start == i,
            None => ruby_by(d, v@, i as int) is None,
        },
{
    let h: Vec<char> = chars_of(write_head(d));
    let _: usize = v.len();
    if !stands_at(v, i, &h) {
        return None;
    }
    let j: Vec<char> = chars_of(write_joint(d));
    match find_stand(v, &j, i + h.len()) {
        Some(split) => {
            let e: Vec<char> = chars_of(write_tail(d));
            match find_stand(v, &e, split + j.len()) {
                Some(close) => Some(Ruby { dialect: d, start: i, split, close }),
                None => None,
            }
        },
        None => None,
    }
}

/// A reading that is written at `i`.
fn read_at(v: &Vec<char>, i: usize) -> (r: Option<Ruby>)
    requires
        i <= v@.len(),
    ensures
        match r {
            Some(x) => ruby_at(v@, i as int) == Some(x@) && x@.stands_in(v@) && x.start == i,
            None => ruby_at(v@, i as int) is None,
        },
{
    match read_by(Dialect::Html, v, i) {
        Some(x) => Some(x),
        None => read_by(Dialect::Typst, v, i),
    }
}

/// Where the markup ends.
fn end_of(x: &Ruby, v: &Vec<char>) -> (i: usize)
    requires
        x@.stands_in(v@),
    ensures
        i == x@.end(),
        x.start < i <= v@.len(),
{
    let e: Vec<char> = chars_of(write_tail(x.dialect));
    let _: usize = v.len();
    x.close + e.len()
}

/// The text that is read, and its reading.
fn parts_of(x: &Ruby, v: &Vec<char>) -> (r: (String, String))
    requires
        x@.stands_in(v@),
    ensures
        r.0@ == x@.base(v@),
        r.1@ == x@.reading(v@),
{
    let h: Vec<char> = chars_of(write_head(x.dialect));
    let j: Vec<char> = chars_of(write_joint(x.dialect));
    (
        string_between(v, x.start + h.len(), x.split),
        string_between(v, x.split + j.len(), x.close),
    )
}

/// A text with its reading as it is written.
pub fn write_ruby(d: Dialect, base: &str, reading: &str) -> (s: String)
    ensures
        s@ == written(d, base@, reading@),
{
    let mut s: String = copied(write_head(d));
    s.push_str(base);
    s.push_str(write_joint(d));
    s.push_str(reading);
    s.push_str(write_tail(d));
    s
}

/// The reading that position `at` belongs to.
fn find_over(v: &Vec<char>, at: usize) -> (r: Option<Ruby>)
    ensures
        match r {
            Some(x) => ruby_over(v@, at as int, 0) == Some(x@) && x@.stands_in(v@),
            None => ruby_over(v@, at as int, 0) is None,
        },
{
    let mut i: usize = 0;
    while i < v.len() && i <= at
        invariant
            0 <= i <= v@.len(),
            ruby_over(v@, at as int, 0) == ruby_over(v@, at as int, i as int),
        decreases v@.len() - i,
    {
        match read_at(v, i) {
            Some(x) => {
                let end: usize = end_of(&x, v);
                if at < end {
                    return Some(x);
                }
                i = end;
            },
            None => {
                i += 1;
            },
        }
    }
    None
}

/// A text without its readings.
pub fn without_readings(s: &str) -> (r: String)
    ensures
        r@ == plain_from(s@, 0),
{
    let v: Vec<char> = chars_of(s);
    let mut r: String = String::new();
    let mut i: usize = 0;
    assert(r@ + plain_from(v@, 0) =~= plain_from(v@, 0));
    while i < v.len()
        invariant
            0 <= i <= v@.len(),
            r@ + plain_from(v@, i as int) == plain_from(v@, 0),
        decreases v@.len() - i,
    {
        let ghost before = r@;
        match read_at(&v, i) {
            Some(x) => {
                let (base, _) = parts_of(&x, &v);
                let end: usize = end_of(&x, &v);
                r.push_str(base.as_str());
                assert(before + plain_from(v@, i as int) =~= r@ + plain_from(v@, end as int));
                i = end;
            },
            None => {
                r.push(v[i]);
                assert(before + plain_from(v@, i as int) =~= r@ + plain_from(v@, i + 1));
                i += 1;
            },
        }
    }
    assert(r@ + Seq::<char>::empty() =~= r@);
    r
}

/// A text with every reading written in `d`.
pub fn rewrite(d: Dialect, s: &str) -> (r: String)
    ensures
        r@ == rewritten_from(d, s@, 0),
{
    let v: Vec<char> = chars_of(s);
    let mut r: String = String::new();
    let mut i: usize = 0;
    assert(r@ + rewritten_from(d, v@, 0) =~= rewritten_from(d, v@, 0));
    while i < v.len()
        invariant
            0 <= i <= v@.len(),
            r@ + rewritten_from(d, v@, i as int) == rewritten_from(d, v@, 0),
        decreases v@.len() - i,
    {
        let ghost before = r@;
        match read_at(&v, i) {
            Some(x) => {
                let (base, reading) = parts_of(&x, &v);
                let end: usize = end_of(&x, &v);
                let put: String = write_ruby(d, base.as_str(), reading.as_str());
                r.push_str(put.as_str());
                assert(before + rewritten_from(d, v@, i as int) =~= r@ + rewritten_from(
                    d,
                    v@,
                    end as int,
                ));
                i = end;
            },
            None => {
                r.push(v[i]);
                assert(before + rewritten_from(d, v@, i as int) =~= r@ + rewritten_from(
                    d,
                    v@,
                    i + 1,
                ));
                i += 1;
            },
        }
    }
    assert(r@ + Seq::<char>::empty() =~= r@);
    r
}

/// A text with the reading that was typed.
pub fn annotate(d: Dialect, base: &str, reading: &str) -> (s: String)
    ensures
        s@ == annotated(d, base@, reading@),
{
    if reading.unicode_len() == 0 {
        return copied(base);
    }
    let parts: Vec<String> = split_on(reading, '|');
    let chars: Vec<char> = chars_of(base);
    let ghost all = views(parts@);
    if parts.len() > 1 && parts.len() == chars.len() {
        let mut s: String = String::new();
        let mut k: usize = 0;
        assert(s@ =~= Seq::empty());
        while k < chars.len()
            invariant
                0 <= k <= chars@.len() == parts@.len(),
                all == views(parts@),
                s@ == each_written(d, chars@, all, k as int),
            decreases chars@.len() - k,
        {
            assert(all[k as int] == parts@[k as int]@);
            let one: String = crate::pairs::one(chars[k]);
            let put: String = write_ruby(d, one.as_str(), parts[k].as_str());
            s.push_str(put.as_str());
            k += 1;
        }
        s
    } else {
        write_ruby(d, base, reading)
    }
}

// ---- The editor's side ----------------------------------------------------

/// What a reading is typed for: where it is, what is read, how it is written,
/// and the reading it has.
pub struct Target {
    pub start: int,
    pub end: int,
    pub base: Seq<char>,
    pub dialect: Dialect,
    pub reading: Seq<char>,
}

/// The lines before `l` with every reading written in `d`; a fence quotes them
/// as they are.
pub open spec fn lines_rewritten(d: Dialect, syntax: Syntax, t: Seq<char>, l: int) -> Seq<char>
    decreases l,
{
    if l <= 0 {
        Seq::empty()
    } else {
        lines_rewritten(d, syntax, t, l - 1) + (if written_block(syntax, t, l - 1)
            == Block::Literal {
            line_text(t, l - 1)
        } else {
            rewritten_from(d, line_text(t, l - 1), 0)
        })
    }
}

impl EditorView {
    /// What a reading is typed for: the reading at the cursor, else what is
    /// selected.
    pub open spec fn reading_target(self) -> Target {
        let t = self.text();
        match ruby_over(t, self.cursor, 0) {
            Some(r) => Target {
                start: r.start,
                end: r.end(),
                base: r.base(t),
                dialect: r.dialect,
                reading: r.reading(t),
            },
            None => Target {
                start: self.selection_start(),
                end: self.selection_end(),
                base: self.selected(),
                dialect: if self.buffer().syntax == Syntax::Typst {
                    Dialect::Typst
                } else {
                    Dialect::Html
                },
                reading: Seq::empty(),
            },
        }
    }

    /// A reading is waited for, the one there is to begin with; said where there
    /// is nothing to read.
    #[verifier::opaque]
    pub open spec fn asking_reading(self) -> EditorView {
        let target = self.reading_target();
        if target.start >= target.end {
            self.uncounted().saying(say::nothing_to_read_text())
        } else {
            EditorView {
                mode: Mode::Ruby,
                prompt: self.prompt.holding(target.reading),
                ..self.uncounted()
            }
        }
    }

    /// With the reading that was typed.
    #[verifier::opaque]
    pub open spec fn submitting_reading(self) -> EditorView {
        let target = self.reading_target();
        let s = annotated(target.dialect, target.base, self.prompt.line);
        let v = EditorView { mode: Mode::Normal, prompt: self.prompt.cleared(), ..self };
        if v.buffer().readonly {
            v.saying(say::readonly_text())
        } else {
            EditorView {
                cursor: target.start,
                anchor: target.start,
                extend: false,
                ..v.announcing().writing(target.start, target.end, s)
            }.aiming_here()
        }
    }

    /// With every reading of the text written in `d`; said where they are.
    #[verifier::opaque]
    pub open spec fn formatting_readings(self, d: Dialect) -> EditorView {
        let t = self.text();
        let s = lines_rewritten(d, self.buffer().syntax, t, line_count(t));
        if self.buffer().readonly {
            self.saying(say::readonly_text())
        } else if s == t {
            self.saying(say::readings_uniform_text())
        } else {
            self.announcing().writing(0, t.len() as int, s).clamped().aiming_here()
        }
    }

    /// The readings that the page draws.
    pub open spec fn drawn_readings(self) -> Dialects {
        Dialects {
            html: self.settings.readings == Render::Full && self.settings.html_readings,
            typst: self.settings.readings == Render::Full && self.settings.typst_readings,
        }
    }
}

/// What a reading is typed for.
struct Aim {
    start: usize,
    end: usize,
    base: String,
    dialect: Dialect,
    reading: String,
}

impl Editor {
    /// What a reading is typed for.
    fn find_reading_target(&self) -> (a: Aim)
        requires
            self.wf(),
        ensures
            a.start == self@.reading_target().start,
            a.end == self@.reading_target().end,
            a.base@ == self@.reading_target().base,
            a.dialect == self@.reading_target().dialect,
            a.reading@ == self@.reading_target().reading,
            a.start <= a.end <= self@.text().len(),
    {
        let text: String = self.current_buffer().text();
        let v: Vec<char> = chars_of(text.as_str());
        match find_over(&v, self.cursor) {
            Some(x) => {
                let (base, reading) = parts_of(&x, &v);
                let end: usize = end_of(&x, &v);
                Aim { start: x.start, end, base, dialect: x.dialect, reading }
            },
            None => {
                let (start, end) = self.selection();
                let reading: String = String::new();
                assert(reading@ =~= Seq::empty());
                Aim {
                    start,
                    end,
                    base: self.selected_text(),
                    dialect: if self.current_buffer().syntax == Syntax::Typst {
                        Dialect::Typst
                    } else {
                        Dialect::Html
                    },
                    reading,
                }
            },
        }
    }

    /// `:ruby` and `space r`: waits for a reading.
    pub fn ask_reading(&mut self)
        requires
            old(self).wf(),
        ensures
            final(self).wf(),
            final(self)@ == old(self)@.asking_reading(),
    {
        proof {
            reveal(EditorView::asking_reading);
        }
        let aim: Aim = self.find_reading_target();
        self.count = None;
        if aim.start >= aim.end {
            self.status = say::nothing_to_read();
        } else {
            self.mode = Mode::Ruby;
            self.prompt.hold(aim.reading.as_str());
        }
    }

    /// Takes the reading that was typed.
    pub(crate) fn submit_reading(&mut self)
        requires
            old(self).wf(),
        ensures
            final(self).wf(),
            final(self)@ == old(self)@.submitting_reading(),
    {
        proof {
            reveal(EditorView::submitting_reading);
        }
        let aim: Aim = self.find_reading_target();
        let line: String = self.prompt.text();
        let s: String = annotate(aim.dialect, aim.base.as_str(), line.as_str());
        self.mode = Mode::Normal;
        self.prompt.clear();
        if self.refuse_readonly() {
            return;
        }
        self.snapshot();
        proof {
            lemma_spliced(self@.text(), aim.start as int, aim.end as int, s@);
        }
        let _ = self.overwrite(aim.start, aim.end, s.as_str());
        self.cursor = aim.start;
        self.anchor = aim.start;
        self.extend = false;
        self.refresh_goal_column();
    }

    /// `:ruby-format`: writes every reading in `d`.
    pub fn format_readings(&mut self, d: Dialect)
        requires
            old(self).wf(),
        ensures
            final(self).wf(),
            final(self)@ == old(self)@.formatting_readings(d),
    {
        proof {
            reveal(EditorView::formatting_readings);
        }
        if self.refuse_readonly() {
            return;
        }
        let ghost t = self@.text();
        let syntax: Syntax = self.current_buffer().syntax;
        let n: usize = self.current_buffer().line_count();
        let mut out: String = String::new();
        let mut open: Open = Open::Nothing;
        let mut l: usize = 0;
        assert(out@ =~= Seq::empty());
        while l < n
            invariant
                0 <= l <= n,
                self.wf(),
                t == self@.text(),
                n == line_count(t),
                syntax == self@.buffer().syntax,
                open == open_before(syntax, t, l as int),
                out@ == lines_rewritten(d, syntax, t, l as int),
            decreases n - l,
        {
            let body: Vec<char> = self.current_buffer().line_chars(l);
            let (block, next) = see_line(syntax, open, &body);
            let line: String = rope_line(self.rope(), l);
            if block == Block::Literal {
                out.push_str(line.as_str());
            } else {
                out.push_str(rewrite(d, line.as_str()).as_str());
            }
            open = next;
            l += 1;
        }
        let text: String = self.current_buffer().text();
        if same_text(out.as_str(), text.as_str()) {
            self.say(say::readings_uniform());
            return;
        }
        let len: usize = self.current_buffer().char_count();
        self.snapshot();
        proof {
            lemma_spliced(t, 0, len as int, out@);
        }
        let _ = self.overwrite(0, len, out.as_str());
        self.clamp_cursor();
        self.refresh_goal_column();
    }

    /// The readings that the page draws.
    pub fn ruby(&self) -> (r: Dialects)
        ensures
            r == self@.drawn_readings(),
    {
        let full: bool = self.settings.readings == Render::Full;
        Dialects {
            html: full && self.settings.html_readings,
            typst: full && self.settings.typst_readings,
        }
    }

    /// How much of the readings the page draws.
    pub fn ruby_level(&self) -> (r: Render)
        ensures
            r == self@.settings.readings,
    {
        self.settings.readings
    }

    /// Which readings the page is to draw.
    pub fn set_ruby(&mut self, d: Dialects)
        requires
            old(self).wf(),
        ensures
            final(self).wf(),
            final(self)@ == (EditorView {
                settings: Settings {
                    html_readings: d.html,
                    typst_readings: d.typst,
                    ..old(self)@.settings
                },
                ..old(self)@
            }),
    {
        self.settings.html_readings = d.html;
        self.settings.typst_readings = d.typst;
    }
}

} // verus!
