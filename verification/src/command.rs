//! Running the line that was typed.

use vstd::prelude::*;
use crate::buffer::{Buffer, BufferView, scratch, Syntax};
use crate::editor::{buffer_views, Editor, EditorView, lemma_buffer_update};
use crate::motion::last_line;
use crate::outcome::{CommandError, CommandOutcome, EditorError, ending, ErrorView};
use crate::range::{
    is_substitution, number_of, read_number, read_substitution, says_substitution, substitution_of,
};
use crate::preferences::{read_render, render_named};
use crate::ruby::Dialect;
use crate::say;
use crate::state::Settings;
use crate::text::{
    chars_of, copied, last_line as last_line_of, same_text, string_between, trim, trimmed,
};
use crate::verb::{find_verb, Verb, verb_named};

verus! {

/// Where the colons at the beginning end.
pub open spec fn after_colons(s: Seq<char>, i: int) -> int
    decreases s.len() - i,
{
    if i < s.len() && s[i] == ':' {
        after_colons(s, i + 1)
    } else {
        i
    }
}

/// Where the name of a command ends: at white space or `!`.
pub open spec fn name_end(s: Seq<char>, i: int) -> int
    decreases s.len() - i,
{
    if i < s.len() && s[i] != ' ' && s[i] != '!' {
        name_end(s, i + 1)
    } else {
        i
    }
}

/// A line taken apart: the name, whether it is forced, and what is given to it.
pub struct Said {
    pub name: Seq<char>,
    pub force: bool,
    pub given: Seq<char>,
}

/// The line without the colon and the white space round it.
pub open spec fn bare_line(line: Seq<char>) -> Seq<char> {
    trimmed(line.skip(after_colons(line, 0)))
}

/// A line taken apart.
pub open spec fn said(s: Seq<char>) -> Said {
    let k = name_end(s, 0);
    let force = k < s.len() && s[k] == '!';
    Said { name: s.take(k), force, given: trimmed(s.skip(if force { k + 1 } else { k })) }
}

/// A setting that is on or off; none for another word.
pub open spec fn on_or_off(word: Seq<char>) -> Option<bool> {
    if word == "on"@ {
        Some(true)
    } else if word == "off"@ || word == "of"@ {
        Some(false)
    } else {
        None
    }
}

/// A language by its name.
pub open spec fn syntax_named(word: Seq<char>) -> Option<Syntax> {
    if word == "text"@ {
        Some(Syntax::Text)
    } else if word == "markdown"@ {
        Some(Syntax::Markdown)
    } else if word == "typst"@ {
        Some(Syntax::Typst)
    } else {
        None
    }
}

/// How a reading is written, by name.
pub open spec fn dialect_named(word: Seq<char>) -> Option<Dialect> {
    if word == "html"@ {
        Some(Dialect::Html)
    } else if word == "typst"@ {
        Some(Dialect::Typst)
    } else {
        None
    }
}

/// How a reading is written, by name.
fn read_dialect(word: &str) -> (r: Option<Dialect>)
    ensures
        r == dialect_named(word@),
{
    if same_text(word, "html") {
        Some(Dialect::Html)
    } else if same_text(word, "typst") {
        Some(Dialect::Typst)
    } else {
        None
    }
}

impl EditorView {
    /// Whether the buffer on the page is an empty one that nothing was done to.
    pub open spec fn is_pristine(self) -> bool {
        let b = self.buffer();
        b.path is None && !b.modified && b.text.len() == 0
    }

    /// With another buffer on the page; it takes the place of an empty one that
    /// nothing was done to.
    pub open spec fn adding(self, b: BufferView) -> EditorView {
        if self.is_pristine() {
            EditorView {
                buffers: self.buffers.update(self.active, b),
                cursor: 0,
                anchor: 0,
                extend: false,
                ..self
            }
        } else {
            EditorView { buffers: self.buffers.push(b), ..self }.showing_buffer(
                self.buffers.len() as int,
            )
        }
    }

    /// With the buffer on the page locked, or not.
    pub open spec fn locking(self, on: bool) -> EditorView {
        self.with_buffer(BufferView { readonly: on, ..self.buffer() })
    }

    /// What a command does that reads the text, or sets something.
    #[verifier::opaque]
    pub open spec fn telling(self, verb: Verb, given: Seq<char>) -> (
        EditorView,
        Result<CommandOutcome, ErrorView>,
    ) {
        let go = Ok::<CommandOutcome, ErrorView>(CommandOutcome::Continue);
        let no = Err::<CommandOutcome, ErrorView>(ErrorView::Argument(given));
        match verb {
            Verb::Ruby => if given.len() == 0 {
                (self.asking_reading(), go)
            } else {
                match render_named(given) {
                    Some(readings) => (
                        self.set(Settings { readings, ..self.settings }),
                        go,
                    ),
                    None => (self, no),
                }
            },
            Verb::RubyFormat => match dialect_named(given) {
                Some(d) => (self.formatting_readings(d), go),
                None => (self, no),
            },
            Verb::Count => (self.reporting_count(), go),
            Verb::Toc => if given.len() == 0 {
                (self.showing_outline(), go)
            } else {
                match number_of(given) {
                    Some(n) => (self.at_heading(n as int), go),
                    None => (self, no),
                }
            },
            Verb::CheckMerge => (self.listing_conflicts(), go),
            Verb::Buffer => (self.choosing_buffer(), go),
            _ => self.preferring(verb, given),
        }
    }

    /// What a command does.
    #[verifier::opaque]
    pub open spec fn ordering(self, verb: Verb, force: bool, given: Seq<char>) -> (
        EditorView,
        Result<CommandOutcome, ErrorView>,
    ) {
        let go = Ok::<CommandOutcome, ErrorView>(CommandOutcome::Continue);
        let no = Err::<CommandOutcome, ErrorView>(ErrorView::Argument(given));
        match verb {
            Verb::Quit => self.leaving(force),
            Verb::QuitAll => self.leaving_all(force),
            Verb::Write => if self.buffer().path is None {
                (self, Err(ErrorView::NoFileName))
            } else {
                (self, Ok(CommandOutcome::Write))
            },
            Verb::New => (self.adding(scratch()), go),
            Verb::BufferClose => self.leaving_buffer(force),
            Verb::BufferNext => (self.turning(true), go),
            Verb::BufferPrevious => (self.turning(false), go),
            Verb::Goto => match number_of(given) {
                Some(n) => (self.at_line(n as int), go),
                None => (self, no),
            },
            Verb::Readonly => if given.len() == 0 {
                (
                    self.saying(
                        if self.buffer().readonly {
                            say::readonly_on_text()
                        } else {
                            say::readonly_off_text()
                        },
                    ),
                    go,
                )
            } else {
                match on_or_off(given) {
                    Some(on) => (self.locking(on), go),
                    None => (self, no),
                }
            },
            Verb::Syntax => match syntax_named(given) {
                Some(syntax) => (
                    self.with_buffer(BufferView { syntax, ..self.buffer() }),
                    go,
                ),
                None => (self, no),
            },
            Verb::ClipboardYank => (self.handing_over(), go),
            _ => self.telling(verb, given),
        }
    }

    /// What a typed line does, and how it ends.
    #[verifier::opaque]
    pub open spec fn commanded(self, line: Seq<char>) -> (
        EditorView,
        Result<CommandOutcome, ErrorView>,
    ) {
        let go = Ok::<CommandOutcome, ErrorView>(CommandOutcome::Continue);
        let s = bare_line(line);
        if s.len() == 0 {
            (self, go)
        } else if number_of(s) is Some {
            (self.at_line(number_of(s)->0 as int), go)
        } else if is_substitution(s) {
            match substitution_of(
                s,
                self.cursor_line() as usize,
                last_line_of(self.text()) as usize,
            ) {
                Some(x) => (self.substituting(x), go),
                None => (self, Err(ErrorView::Argument(s))),
            }
        } else {
            match verb_named(said(s).name) {
                Some(verb) => self.ordering(verb, said(s).force, said(s).given),
                None => (self, Err(ErrorView::Unknown(said(s).name))),
            }
        }
    }
}

/// A setting that is on or off.
pub fn read_on_or_off(word: &str) -> (r: Option<bool>)
    ensures
        r == on_or_off(word@),
{
    if same_text(word, "on") {
        Some(true)
    } else if same_text(word, "off") || same_text(word, "of") {
        Some(false)
    } else {
        None
    }
}

/// A language by its name.
fn read_syntax(word: &str) -> (r: Option<Syntax>)
    ensures
        r == syntax_named(word@),
{
    if same_text(word, "text") {
        Some(Syntax::Text)
    } else if same_text(word, "markdown") {
        Some(Syntax::Markdown)
    } else if same_text(word, "typst") {
        Some(Syntax::Typst)
    } else {
        None
    }
}

/// The line without the colon and the white space round it.
fn strip_line(line: &str) -> (s: String)
    ensures
        s@ == bare_line(line@),
{
    let v: Vec<char> = chars_of(line);
    let mut k: usize = 0;
    while k < v.len() && v[k] == ':'
        invariant
            0 <= k <= v@.len(),
            v@ == line@,
            after_colons(line@, 0) == after_colons(line@, k as int),
        decreases v@.len() - k,
    {
        k += 1;
    }
    let rest: String = string_between(&v, k, v.len());
    assert(rest@ =~= line@.skip(k as int));
    copied(trim(rest.as_str()))
}

/// A line taken apart: the name, whether it is forced, and what is given to it.
fn take_apart(s: &str) -> (r: (String, bool, String))
    ensures
        r.0@ == said(s@).name,
        r.1 == said(s@).force,
        r.2@ == said(s@).given,
{
    let v: Vec<char> = chars_of(s);
    let n: usize = v.len();
    let mut k: usize = 0;
    while k < n && v[k] != ' ' && v[k] != '!'
        invariant
            0 <= k <= n == v@.len(),
            v@ == s@,
            name_end(s@, 0) == name_end(s@, k as int),
        decreases n - k,
    {
        k += 1;
    }
    let force: bool = k < n && v[k] == '!';
    let from: usize = if force {
        k + 1
    } else {
        k
    };
    let name: String = string_between(&v, 0, k);
    let rest: String = string_between(&v, from, n);
    assert(name@ =~= s@.take(k as int));
    assert(rest@ =~= s@.skip(from as int));
    let given: String = copied(trim(rest.as_str()));
    (name, force, given)
}

impl Editor {
    /// Puts another buffer on the page.
    pub fn add_buffer(&mut self, b: Buffer)
        requires
            old(self).wf(),
            b@.wf(),
        ensures
            final(self).wf(),
            final(self)@ == old(self)@.adding(b@),
    {
        let i: usize = self.active;
        let pristine: bool = self.buffers[i].path.is_none() && !self.buffers[i].modified
            && self.buffers[i].char_count() == 0;
        let ghost before = self.buffers@;
        if pristine {
            self.buffers[i] = b;
            self.cursor = 0;
            self.anchor = 0;
            self.extend = false;
            proof {
                lemma_buffer_update(before, self.buffers@, i as int);
            }
        } else {
            let n: usize = self.buffers.len();
            self.buffers.push(b);
            proof {
                assert(buffer_views(self.buffers@) =~= buffer_views(before).push(b@));
                assert forall|k: int| 0 <= k < self@.buffers.len() implies (
                #[trigger] self@.buffers[k]).wf() by {
                    assert(k < n ==> self@.buffers[k] == old(self)@.buffers[k]);
                }
            }
            self.show_buffer(n);
        }
    }

    /// Whether the buffer on the page is locked.
    pub fn is_readonly(&self) -> (r: bool)
        requires
            self.wf(),
        ensures
            r == self@.buffer().readonly,
    {
        self.current_buffer().is_readonly()
    }

    /// Locks the buffer on the page, or unlocks it.
    pub fn set_readonly(&mut self, on: bool)
        requires
            old(self).wf(),
        ensures
            final(self).wf(),
            final(self)@ == old(self)@.locking(on),
    {
        let i: usize = self.active;
        let ghost before = self.buffers@;
        self.buffers[i].readonly = on;
        proof {
            lemma_buffer_update(before, self.buffers@, i as int);
            assert(self@ =~= old(self)@.locking(on));
        }
    }

    /// Reads the buffer on the page as `syntax`.
    pub fn set_syntax(&mut self, syntax: Syntax)
        requires
            old(self).wf(),
        ensures
            final(self).wf(),
            final(self)@ == old(self)@.with_buffer(
                BufferView { syntax, ..old(self)@.buffer() },
            ),
    {
        let i: usize = self.active;
        let ghost before = self.buffers@;
        self.buffers[i].set_syntax(syntax);
        proof {
            lemma_buffer_update(before, self.buffers@, i as int);
        }
    }

    /// Does what a command says that reads the text, or sets something.
    fn tell(&mut self, verb: Verb, given: &str) -> (r: Result<CommandOutcome, EditorError>)
        requires
            old(self).wf(),
        ensures
            final(self).wf(),
            (final(self)@, ending(r)) == old(self)@.telling(verb, given@),
    {
        proof {
            reveal(EditorView::telling);
        }
        let no: EditorError = EditorError::Command(CommandError::Argument(copied(given)));
        match verb {
            Verb::Ruby => if given.unicode_len() == 0 {
                self.ask_reading();
                Ok(CommandOutcome::Continue)
            } else {
                match read_render(given) {
                    Some(readings) => {
                        let s: Settings = self.settings;
                        self.settle(Settings { readings, ..s });
                        Ok(CommandOutcome::Continue)
                    },
                    None => Err(no),
                }
            },
            Verb::RubyFormat => match read_dialect(given) {
                Some(d) => {
                    self.format_readings(d);
                    Ok(CommandOutcome::Continue)
                },
                None => Err(no),
            },
            Verb::Count => {
                self.report_count();
                Ok(CommandOutcome::Continue)
            },
            Verb::Toc => if given.unicode_len() == 0 {
                self.show_outline();
                Ok(CommandOutcome::Continue)
            } else {
                match read_number(given) {
                    Some(n) => {
                        self.go_to_heading(n);
                        Ok(CommandOutcome::Continue)
                    },
                    None => Err(no),
                }
            },
            Verb::CheckMerge => {
                self.list_conflicts();
                Ok(CommandOutcome::Continue)
            },
            Verb::Buffer => {
                self.open_buffer_picker();
                Ok(CommandOutcome::Continue)
            },
            _ => self.prefer(verb, given),
        }
    }

    /// Does what a command says.
    fn order(&mut self, verb: Verb, force: bool, given: &str) -> (r: Result<
        CommandOutcome,
        EditorError,
    >)
        requires
            old(self).wf(),
        ensures
            final(self).wf(),
            (final(self)@, ending(r)) == old(self)@.ordering(verb, force, given@),
    {
        proof {
            reveal(EditorView::ordering);
        }
        let no: EditorError = EditorError::Command(CommandError::Argument(copied(given)));
        match verb {
            Verb::Quit => self.quit(force),
            Verb::QuitAll => self.quit_all(force),
            Verb::Write => if self.current_buffer().path.is_none() {
                Err(EditorError::NoFileName)
            } else {
                Ok(CommandOutcome::Write)
            },
            Verb::New => {
                self.add_buffer(Buffer::new());
                Ok(CommandOutcome::Continue)
            },
            Verb::BufferClose => self.close_buffer(force),
            Verb::BufferNext => {
                self.turn_buffer(true);
                Ok(CommandOutcome::Continue)
            },
            Verb::BufferPrevious => {
                self.turn_buffer(false);
                Ok(CommandOutcome::Continue)
            },
            Verb::Goto => match read_number(given) {
                Some(n) => {
                    self.goto_line(n);
                    Ok(CommandOutcome::Continue)
                },
                None => Err(no),
            },
            Verb::Readonly => if given.unicode_len() == 0 {
                let said: String = if self.current_buffer().is_readonly() {
                    say::readonly_on()
                } else {
                    say::readonly_off()
                };
                self.say(said);
                Ok(CommandOutcome::Continue)
            } else {
                match read_on_or_off(given) {
                    Some(on) => {
                        self.set_readonly(on);
                        Ok(CommandOutcome::Continue)
                    },
                    None => Err(no),
                }
            },
            Verb::Syntax => match read_syntax(given) {
                Some(syntax) => {
                    self.set_syntax(syntax);
                    Ok(CommandOutcome::Continue)
                },
                None => Err(no),
            },
            Verb::ClipboardYank => {
                self.hand_over();
                Ok(CommandOutcome::Continue)
            },
            _ => self.tell(verb, given),
        }
    }

    /// Runs a typed line.
    pub fn execute(&mut self, line: &str) -> (r: Result<CommandOutcome, EditorError>)
        requires
            old(self).wf(),
        ensures
            final(self).wf(),
            (final(self)@, ending(r)) == old(self)@.commanded(line@),
    {
        proof {
            reveal(EditorView::commanded);
        }
        let s: String = strip_line(line);
        if s.as_str().unicode_len() == 0 {
            return Ok(CommandOutcome::Continue);
        }
        match read_number(s.as_str()) {
            Some(n) => {
                self.goto_line(n);
                return Ok(CommandOutcome::Continue);
            },
            None => {},
        }
        if says_substitution(s.as_str()) {
            let here: usize = self.cursor_line();
            let last: usize = last_line(self.rope());
            return match read_substitution(s.as_str(), here, last) {
                Some(x) => {
                    self.substitute(&x);
                    Ok(CommandOutcome::Continue)
                },
                None => Err(EditorError::Command(CommandError::Argument(s))),
            };
        }
        let (name, force, given) = take_apart(s.as_str());
        match find_verb(name.as_str()) {
            Some(verb) => self.order(verb, force, given.as_str()),
            None => Err(EditorError::Command(CommandError::Unknown(name))),
        }
    }
}

} // verus!
