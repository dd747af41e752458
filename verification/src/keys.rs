//! What a key means at the moment.

use vstd::prelude::*;
use crate::editor::{Editor, EditorView, Key, least, Mode};
use crate::keymap::{
    Act, bind, bind_bracket, bind_case, bind_goto, bind_match, bind_merge, bind_space, bound,
    bound_bracket, bound_case, bound_goto, bound_match, bound_merge, bound_space, Pending,
};
use crate::moves::Motion;
use crate::number::{digit, digit_value, is_digit};
use crate::outcome::{CommandError, CommandOutcome, EditorError, ErrorView};
use crate::pairs::one;
use crate::prompt::PromptView;
use crate::registers::{find_slot, shelved};
use crate::repeats::{copied_inputs, Input, input_views, InputView, RepeatsView};
use crate::say;
use crate::state::{MemoryView, RegistersView};
use crate::text::{chars_of, copied};
use crate::verb::{guess, guess_name};
use crate::verbs::{stood_still, WRITING_MAX};

verus! {

/// What becomes of the editor after a key.
#[derive(Debug, Clone, Copy, PartialEq, Eq, Structural)]
pub enum KeyOutcome {
    Continue,
    Quit,
    /// The buffer on the page is to be written to its file.
    Write,
}

/// What an error says.
pub open spec fn error_text(e: ErrorView) -> Seq<char> {
    match e {
        ErrorView::UnsavedChanges => say::unsaved_text(),
        ErrorView::NoFileName => say::no_file_name_text(),
        ErrorView::Unknown(s) => say::unknown_command_text(s),
        ErrorView::Argument(s) => say::bad_argument_text(s),
    }
}

/// What an error says.
fn say_error(e: &EditorError) -> (s: String)
    ensures
        s@ == error_text(e@),
{
    match e {
        EditorError::UnsavedChanges => say::unsaved(),
        EditorError::NoFileName => say::no_file_name(),
        EditorError::Command(CommandError::Unknown(s)) => say::unknown_command(s.as_str()),
        EditorError::Command(CommandError::Argument(s)) => say::bad_argument(s.as_str()),
    }
}

impl EditorView {
    /// Whether the next key begins a command.
    pub open spec fn at_rest(self) -> bool {
        self.mode == Mode::Normal && self.pending == Pending::Idle && self.count is None
    }

    /// Whether a character is waited for, which an input method may give.
    pub open spec fn takes_character(self) -> bool {
        match self.pending {
            Pending::Find => true,
            Pending::Replace => true,
            Pending::Inside => true,
            Pending::Around => true,
            Pending::Surround => true,
            Pending::Resurround => true,
            Pending::ResurroundBy(_) => true,
            _ => false,
        }
    }

    /// With nothing waited for.
    pub open spec fn idle(self) -> EditorView {
        EditorView { pending: Pending::Idle, ..self }
    }

    /// With a digit put to the count.
    pub open spec fn counting(self, c: char) -> EditorView {
        let n = match self.count {
            Some(n) => n,
            None => 0,
        };
        EditorView { count: Some(least(n * 10 + digit_value(c), usize::MAX as int)), ..self }
    }

    /// Whether a key is a digit of the count: a count does not begin with zero.
    pub open spec fn is_count(self, k: Key) -> bool {
        k matches Key::Char(c) && is_digit(c) && (c != '0' || self.count is Some)
    }

    /// A key that is a command of its own.
    pub open spec fn normal_key(self, k: Key) -> EditorView {
        if self.is_count(k) {
            self.counting(k->Char_0)
        } else {
            self.doing(bound(k, self.settings.layout))
        }
    }

    /// The character that was waited for.
    #[verifier::opaque]
    pub open spec fn given_character(self, c: char) -> EditorView {
        let n = self.count_or_one();
        let v = self.idle();
        let u = v.uncounted();
        match self.pending {
            Pending::Idle => self,
            Pending::Goto => v.doing(bound_goto(c)),
            Pending::Space => v.doing(bound_space(c)),
            Pending::Match => v.doing(bound_match(c)),
            Pending::Case => v.doing(bound_case(c)),
            Pending::Merge => v.doing(bound_merge(c)),
            Pending::Next => v.doing(bound_bracket(c, true)),
            Pending::Previous => v.doing(bound_bracket(c, false)),
            Pending::Find => u.finding(c, n),
            Pending::Replace => u.replacing_chars(c),
            Pending::Register => EditorView {
                registers: RegistersView { asked: Some(c), ..v.registers },
                ..v
            },
            Pending::Inside => u.selecting_pair(c, true),
            Pending::Around => u.selecting_pair(c, false),
            Pending::Surround => u.surrounding(c),
            Pending::Resurround => EditorView { pending: Pending::ResurroundBy(c), ..self },
            Pending::ResurroundBy(from) => u.resurrounding(from, c),
        }
    }

    /// A key while something is waited for: another than a character calls it
    /// off.
    pub open spec fn pending_key(self, k: Key) -> EditorView {
        match k {
            Key::Char(c) => self.given_character(c),
            _ => self.idle().uncounted(),
        }
    }

    /// No longer typing; what came in belongs to the command that began it.
    pub open spec fn leaving_insert(self) -> EditorView {
        EditorView {
            mode: Mode::Normal,
            repeats: RepeatsView {
                watch: self.repeats.watch + self.memory.typed,
                ..self.repeats
            },
            memory: MemoryView { typed: Seq::empty(), ..self.memory },
            ..self
        }
    }

    /// A key while typing.
    #[verifier::opaque]
    pub open spec fn insert_key(self, k: Key) -> EditorView {
        match k {
            Key::Char(c) => self.typing(seq![c]),
            Key::Enter => self.typing(seq!['\n']),
            Key::Tab => self.typing(seq!['\t']),
            Key::Backspace => self.backspacing(),
            Key::Delete => self.deleting(),
            Key::Esc => self.leaving_insert(),
            Key::Left => self.stepping(Motion::Left),
            Key::Right => self.stepping(Motion::Right),
            Key::Up => self.stepping(Motion::Up(1)),
            Key::Down => self.stepping(Motion::Down(1)),
            Key::Home => self.stepping(Motion::LineStart),
            Key::End => self.stepping(Motion::LineEnd),
            Key::PageUp => self.stepping(Motion::Up(self.page_step(false) as usize)),
            Key::PageDown => self.stepping(Motion::Down(self.page_step(false) as usize)),
            Key::Ctrl(c) => if c == 'w' {
                self.taking_back_word()
            } else if c == 'u' {
                self.taking_back_line()
            } else if c == 'a' {
                self.stepping(Motion::LineStart)
            } else if c == 'e' {
                self.stepping(Motion::LineEnd)
            } else {
                self
            },
            _ => self,
        }
    }

    /// With the line at the foot of the page as `p`.
    pub open spec fn with_prompt(self, p: PromptView) -> EditorView {
        EditorView { prompt: p, ..self }
    }

    /// What would be put after the line: the rest of the pattern that was
    /// looked for last, or of the name of a command.
    pub open spec fn ghost_text(self) -> Seq<char> {
        match self.mode {
            Mode::Command => guess(self.prompt.line),
            Mode::Search => match self.memory.pattern {
                Some(p) => if self.prompt.line.is_prefix_of(p) {
                    p.skip(self.prompt.line.len() as int)
                } else {
                    Seq::empty()
                },
                None => Seq::empty(),
            },
            _ => Seq::empty(),
        }
    }

    /// The line is run: a pattern is looked for.
    pub open spec fn running_pattern(self) -> EditorView {
        let v = EditorView {
            mode: Mode::Normal,
            prompt: self.prompt.remembering(true).cleared(),
            ..self
        };
        if self.prompt.line.len() > 0 {
            EditorView {
                memory: MemoryView { pattern: Some(self.prompt.line), ..v.memory },
                ..v
            }.looking(self.prompt.line, true)
        } else {
            match self.memory.pattern {
                Some(p) => v.looking(p, true),
                None => v,
            }
        }
    }

    /// The line is run: a command is done.
    pub open spec fn running_command(self) -> (EditorView, KeyOutcome) {
        let v = EditorView {
            mode: Mode::Normal,
            prompt: self.prompt.remembering(false).cleared(),
            ..self
        };
        let (w, r) = v.commanded(self.prompt.line);
        match r {
            Ok(CommandOutcome::Continue) => (w, KeyOutcome::Continue),
            Ok(CommandOutcome::Quit) => (w, KeyOutcome::Quit),
            Ok(CommandOutcome::Write) => (w, KeyOutcome::Write),
            Err(e) => (w.saying(error_text(e)), KeyOutcome::Continue),
        }
    }

    /// With the line before, or the one after; where one of several is chosen,
    /// the one before or after it. A reading has none.
    #[verifier::opaque]
    pub open spec fn turning_line(self, back: bool) -> EditorView {
        let patterns = self.mode == Mode::Search;
        match self.mode {
            Mode::Ruby => self,
            Mode::Picker => self.choosing(!back),
            _ => self.with_prompt(
                if back {
                    self.prompt.earlier(patterns)
                } else {
                    self.prompt.later(patterns)
                },
            ),
        }
    }

    /// With the line edited by a key.
    pub open spec fn editing_line(self, k: Key) -> EditorView {
        EditorView { prompt: self.prompt.pressed(k), chosen: 0, ..self }
    }

    /// With no line at the foot of the page.
    pub open spec fn leaving_line(self) -> EditorView {
        EditorView { mode: Mode::Normal, prompt: self.prompt.cleared(), ..self }
    }

    /// The line is handed in.
    #[verifier::opaque]
    pub open spec fn entering_line(self) -> (EditorView, KeyOutcome) {
        match self.mode {
            Mode::Search => (self.running_pattern(), KeyOutcome::Continue),
            Mode::Ruby => (self.submitting_reading(), KeyOutcome::Continue),
            Mode::Picker => (self.taking_choice(), KeyOutcome::Continue),
            _ => self.running_command(),
        }
    }

    /// A key on the line at the foot of the page.
    #[verifier::opaque]
    pub open spec fn prompt_key(self, k: Key) -> (EditorView, KeyOutcome) {
        let go = KeyOutcome::Continue;
        match k {
            Key::Up => (self.turning_line(true), go),
            Key::Down => (self.turning_line(false), go),
            Key::Tab => (
                self.with_prompt(self.prompt.holding(self.prompt.line + self.ghost_text())),
                go,
            ),
            Key::Esc => (self.leaving_line(), go),
            Key::Enter => self.entering_line(),
            _ => if k == Key::Backspace && self.prompt.line.len() == 0 && self.mode
                != Mode::Ruby {
                (self.leaving_line(), go)
            } else {
                (self.editing_line(k), go)
            },
        }
    }

    /// A key, whatever it means at the moment; doing something again apart.
    pub open spec fn plain_key(self, k: Key) -> (EditorView, KeyOutcome) {
        match self.mode {
            Mode::Normal => if self.pending == Pending::Idle {
                (self.normal_key(k), KeyOutcome::Continue)
            } else {
                (self.pending_key(k), KeyOutcome::Continue)
            },
            Mode::Insert => (self.insert_key(k), KeyOutcome::Continue),
            _ => self.prompt_key(k),
        }
    }

    /// Text that an input method gave.
    #[verifier::opaque]
    pub open spec fn committed(self, s: Seq<char>) -> EditorView {
        match self.mode {
            Mode::Normal => if self.pending == Pending::Replace {
                self.idle().uncounted().replacing_with(s)
            } else if self.takes_character() && s.len() > 0 {
                self.given_character(s[0])
            } else {
                self
            },
            Mode::Insert => self.typing(s),
            _ => self.with_prompt(self.prompt.inserting(s)),
        }
    }

    /// What is to be done again by a key, if anything: the last change, or the
    /// macro.
    pub open spec fn again_by(self, k: Key) -> Option<Seq<InputView>> {
        if self.mode == Mode::Normal && self.pending == Pending::Idle && !self.is_count(k) {
            match bound(k, self.settings.layout) {
                Act::Dot => Some(self.repeats.change),
                Act::Replay => Some(self.repeats.recorded),
                _ => None,
            }
        } else {
            None
        }
    }

    /// Something that came in. `fuel` says how deep doing again may go.
    #[verifier::opaque]
    pub open spec fn taking_in(self, fuel: nat, i: InputView) -> (EditorView, KeyOutcome)
        decreases fuel, 0nat, 0nat,
    {
        match i {
            InputView::Text(s) => (self.committed(s), KeyOutcome::Continue),
            InputView::Key(k) => match self.again_by(k) {
                Some(inputs) => if fuel == 0 {
                    (self.uncounted(), KeyOutcome::Continue)
                } else {
                    let n = self.count_or_one();
                    let done = self.uncounted().taking_in_times(
                        (fuel - 1) as nat,
                        inputs,
                        least(n, WRITING_MAX as int) as nat,
                    );
                    (
                        if n > WRITING_MAX {
                            done.saying(say::writing_ceiling_text(WRITING_MAX as nat))
                        } else {
                            done
                        },
                        KeyOutcome::Continue,
                    )
                },
                None => self.plain_key(k),
            },
        }
    }

    /// The first `k` of several things that came in.
    #[verifier::opaque]
    pub open spec fn taking_in_first(self, fuel: nat, inputs: Seq<InputView>, k: nat) -> EditorView
        decreases fuel, 1nat, k,
    {
        if k == 0 {
            self
        } else {
            self.taking_in_first(fuel, inputs, (k - 1) as nat).taking_in(fuel, inputs[k - 1]).0
        }
    }

    /// Several things that came in, up to `n` times, as long as they move
    /// something.
    #[verifier::opaque]
    pub open spec fn taking_in_times(self, fuel: nat, inputs: Seq<InputView>, n: nat) -> EditorView
        decreases fuel, 2nat, n,
    {
        if n == 0 {
            self
        } else {
            let next = self.taking_in_first(fuel, inputs, inputs.len());
            if stood_still(self, next) {
                next
            } else {
                next.taking_in_times(fuel, inputs, (n - 1) as nat)
            }
        }
    }

    /// Whether what comes in ends the recording.
    pub open spec fn ends_recording(self, i: InputView) -> bool {
        self.repeats.recording is Some && self.mode == Mode::Normal && self.pending
            == Pending::Idle && i == InputView::Key(Key::Char('Q'))
    }

    /// With what comes in noted: for the macro, and for the command under way.
    pub open spec fn noting(self, i: InputView) -> EditorView {
        let recorded = if self.ends_recording(i) {
            self.repeats
        } else {
            self.repeats.recording(i)
        };
        if self.mode == Mode::Insert {
            EditorView {
                memory: MemoryView { typed: self.memory.typed.push(i), ..self.memory },
                repeats: recorded,
                ..self
            }
        } else if self.at_rest() {
            EditorView {
                repeats: recorded.beginning(i, self.active, self.buffer().revision),
                ..self
            }
        } else {
            EditorView { repeats: recorded.watching(i), ..self }
        }
    }

    /// With the command under way done, where it is.
    pub open spec fn settled(self) -> EditorView {
        if self.at_rest() {
            EditorView {
                repeats: self.repeats.settling(self.active, self.buffer().revision),
                ..self
            }
        } else {
            self
        }
    }

    /// Something that came in from outside: the status line is fresh.
    #[verifier::opaque]
    pub open spec fn entered(self, i: InputView) -> (EditorView, KeyOutcome) {
        let (v, out) = self.saying(Seq::empty()).noting(i).taking_in(2, i);
        (v.settled(), out)
    }

    /// The first `k` characters that a key stands for.
    pub open spec fn entered_first(self, s: Seq<char>, k: nat) -> (EditorView, KeyOutcome)
        decreases k,
    {
        if k == 0 {
            (self, KeyOutcome::Continue)
        } else {
            self.entered_first(s, (k - 1) as nat).0.entered(
                InputView::Key(Key::Char(s[k - 1])),
            )
        }
    }

    /// A key was pressed. Where a command begins, a key may stand for others.
    pub open spec fn keyed(self, k: Key) -> (EditorView, KeyOutcome) {
        match k {
            Key::Char(c) => {
                let s = shelved(self.memory.aliases, c);
                if self.mode == Mode::Normal && self.pending == Pending::Idle && s.len() > 0 {
                    self.entered_first(s, s.len())
                } else {
                    self.entered(InputView::Key(k))
                }
            },
            _ => self.entered(InputView::Key(k)),
        }
    }
}

impl Editor {
    /// Whether a character is waited for, which an input method may give.
    pub fn takes_a_character(&self) -> (r: bool)
        ensures
            r == self@.takes_character(),
    {
        match self.pending {
            Pending::Find => true,
            Pending::Replace => true,
            Pending::Inside => true,
            Pending::Around => true,
            Pending::Surround => true,
            Pending::Resurround => true,
            Pending::ResurroundBy(_) => true,
            _ => false,
        }
    }

    /// Whether a key is a digit of the count.
    fn counts(&self, k: Key) -> (r: bool)
        ensures
            r == self@.is_count(k),
    {
        match k {
            Key::Char(c) => digit(c) && (c != '0' || self.count.is_some()),
            _ => false,
        }
    }

    /// A key that is a command of its own.
    fn press_normal(&mut self, k: Key)
        requires
            old(self).wf(),
        ensures
            final(self).wf(),
            final(self)@ == old(self)@.normal_key(k),
    {
        if self.counts(k) {
            if let Key::Char(c) = k {
                let d: usize = (c as u32 - '0' as u32) as usize;
                let n: usize = match self.count {
                    Some(n) => n,
                    None => 0,
                };
                self.count = Some(
                    match n.checked_mul(10) {
                        Some(m) => match m.checked_add(d) {
                            Some(m) => m,
                            None => usize::MAX,
                        },
                        None => usize::MAX,
                    },
                );
            }
        } else {
            let act: Act = bind(k, self.settings.layout);
            self.act(act);
        }
    }

    /// Lets the next operation use the register `c`.
    fn ask_register(&mut self, c: char)
        requires
            old(self).wf(),
        ensures
            final(self).wf(),
            final(self)@ == (EditorView {
                registers: RegistersView { asked: Some(c), ..old(self)@.registers },
                ..old(self)@
            }),
    {
        self.registers.asked = Some(c);
    }

    /// The character that was waited for.
    fn give_character(&mut self, c: char)
        requires
            old(self).wf(),
        ensures
            final(self).wf(),
            final(self)@ == old(self)@.given_character(c),
    {
        proof {
            reveal(EditorView::given_character);
        }
        let was: Pending = self.pending;
        match was {
            Pending::Idle => {
                return;
            },
            Pending::Resurround => {
                self.wait_for(Pending::ResurroundBy(c));
                return;
            },
            _ => {},
        }
        self.wait_for(Pending::Idle);
        match was {
            Pending::Goto => self.act(bind_goto(c)),
            Pending::Space => self.act(bind_space(c)),
            Pending::Match => self.act(bind_match(c)),
            Pending::Case => self.act(bind_case(c)),
            Pending::Merge => self.act(bind_merge(c)),
            Pending::Next => self.act(bind_bracket(c, true)),
            Pending::Previous => self.act(bind_bracket(c, false)),
            Pending::Register => {
                self.ask_register(c);
            },
            Pending::Find => {
                let n: usize = self.take_count();
                self.find_char(c, n);
            },
            Pending::Replace => {
                self.drop_count();
                self.replace_chars(c);
            },
            Pending::Inside => {
                self.drop_count();
                self.select_pair(c, true);
            },
            Pending::Around => {
                self.drop_count();
                self.select_pair(c, false);
            },
            Pending::Surround => {
                self.drop_count();
                self.surround(c);
            },
            Pending::ResurroundBy(from) => {
                self.drop_count();
                self.resurround(from, c);
            },
            _ => {
                self.drop_count();
            },
        }
    }

    /// A key while something is waited for.
    fn press_pending(&mut self, k: Key)
        requires
            old(self).wf(),
        ensures
            final(self).wf(),
            final(self)@ == old(self)@.pending_key(k),
    {
        match k {
            Key::Char(c) => self.give_character(c),
            _ => {
                self.pending = Pending::Idle;
                self.count = None;
            },
        }
    }

    /// Ends the typing.
    fn leave_insert(&mut self)
        requires
            old(self).wf(),
        ensures
            final(self).wf(),
            final(self)@ == old(self)@.leaving_insert(),
    {
        let mut typed: Vec<Input> = copied_inputs(&self.memory.typed);
        let ghost before = input_views(self.repeats.watch@);
        let ghost added = input_views(typed@);
        let ghost w = self.repeats.watch@;
        let ghost t = typed@;
        self.repeats.watch.append(&mut typed);
        assert(input_views(self.repeats.watch@) =~= before + added) by {
            assert(self.repeats.watch@ == w + t);
        }
        self.memory.typed = Vec::new();
        assert(input_views(self.memory.typed@) =~= Seq::empty());
        self.mode = Mode::Normal;
    }

    /// How many lines a page has.
    fn whole_page(&self) -> (n: usize)
        ensures
            n == self@.page_step(false),
    {
        if self.settings.page_lines >= 1 {
            self.settings.page_lines
        } else {
            1
        }
    }

    /// A key while typing.
    fn press_insert(&mut self, k: Key)
        requires
            old(self).wf(),
        ensures
            final(self).wf(),
            final(self)@ == old(self)@.insert_key(k),
    {
        proof {
            reveal(EditorView::insert_key);
            reveal_strlit("\n");
            reveal_strlit("\t");
            assert("\n"@ =~= seq!['\n']);
            assert("\t"@ =~= seq!['\t']);
        }
        match k {
            Key::Char(c) => self.type_text(one(c).as_str()),
            Key::Enter => self.type_text("\n"),
            Key::Tab => self.type_text("\t"),
            Key::Backspace => self.backspace(),
            Key::Delete => self.delete_next(),
            Key::Esc => self.leave_insert(),
            Key::Left => self.step(Motion::Left),
            Key::Right => self.step(Motion::Right),
            Key::Up => self.step(Motion::Up(1)),
            Key::Down => self.step(Motion::Down(1)),
            Key::Home => self.step(Motion::LineStart),
            Key::End => self.step(Motion::LineEnd),
            Key::PageUp => {
                let n: usize = self.whole_page();
                self.step(Motion::Up(n));
            },
            Key::PageDown => {
                let n: usize = self.whole_page();
                self.step(Motion::Down(n));
            },
            Key::Ctrl(c) => {
                if c == 'w' {
                    self.take_back_word();
                } else if c == 'u' {
                    self.take_back_line();
                } else if c == 'a' {
                    self.step(Motion::LineStart);
                } else if c == 'e' {
                    self.step(Motion::LineEnd);
                }
            },
            _ => {},
        }
    }

    /// What would be put after the line.
    pub fn prompt_ghost(&self) -> (s: String)
        ensures
            s@ == self@.ghost_text(),
    {
        let empty: String = String::new();
        assert(empty@ =~= Seq::empty());
        match self.mode {
            Mode::Command => guess_name(self.prompt.text().as_str()),
            Mode::Search => match &self.memory.pattern {
                Some(p) => {
                    let all: Vec<char> = chars_of(p.as_str());
                    assert(all@.skip(0) =~= all@);
                    if !crate::text::stands_at(&all, 0, &self.prompt.line) {
                        return empty;
                    }
                    let s: String = crate::text::string_between(
                        &all,
                        self.prompt.line.len(),
                        all.len(),
                    );
                    assert(s@ =~= all@.skip(self.prompt.line@.len() as int));
                    s
                },
                None => empty,
            },
            _ => empty,
        }
    }

    /// Runs the line: looks for a pattern.
    fn run_pattern(&mut self)
        requires
            old(self).wf(),
        ensures
            final(self).wf(),
            final(self)@ == old(self)@.running_pattern(),
    {
        let line: String = self.prompt.text();
        self.prompt.remember(true);
        self.prompt.clear();
        self.mode = Mode::Normal;
        if line.as_str().unicode_len() > 0 {
            self.memory.pattern = Some(copied(line.as_str()));
            self.look(line.as_str(), true);
        } else {
            let last: Option<String> = match &self.memory.pattern {
                Some(p) => Some(copied(p.as_str())),
                None => None,
            };
            match last {
                Some(p) => self.look(p.as_str(), true),
                None => {},
            }
        }
    }

    /// Runs the line: does a command.
    fn run_command(&mut self) -> (out: KeyOutcome)
        requires
            old(self).wf(),
        ensures
            final(self).wf(),
            (final(self)@, out) == old(self)@.running_command(),
    {
        let line: String = self.prompt.text();
        self.prompt.remember(false);
        self.prompt.clear();
        self.mode = Mode::Normal;
        match self.execute(line.as_str()) {
            Ok(CommandOutcome::Continue) => KeyOutcome::Continue,
            Ok(CommandOutcome::Quit) => KeyOutcome::Quit,
            Ok(CommandOutcome::Write) => KeyOutcome::Write,
            Err(e) => {
                self.status = say_error(&e);
                KeyOutcome::Continue
            },
        }
    }

    /// Brings the line before, or the one after.
    fn turn_line(&mut self, back: bool)
        requires
            old(self).wf(),
        ensures
            final(self).wf(),
            final(self)@ == old(self)@.turning_line(back),
    {
        proof {
            reveal(EditorView::turning_line);
        }
        let patterns: bool = self.mode == Mode::Search;
        match self.mode {
            Mode::Ruby => {},
            Mode::Picker => self.move_choice(!back),
            _ => {
                if back {
                    self.prompt.earlier(patterns);
                } else {
                    self.prompt.later(patterns);
                }
            },
        }
    }

    /// Puts what is guessed on the line.
    fn take_guess(&mut self)
        requires
            old(self).wf(),
        ensures
            final(self).wf(),
            final(self)@ == old(self)@.with_prompt(
                old(self)@.prompt.holding(old(self)@.prompt.line + old(self)@.ghost_text()),
            ),
    {
        let mut line: String = self.prompt.text();
        let rest: String = self.prompt_ghost();
        line.push_str(rest.as_str());
        self.prompt.hold(line.as_str());
    }

    /// Edits the line.
    fn edit_line(&mut self, k: Key)
        requires
            old(self).wf(),
        ensures
            final(self).wf(),
            final(self)@ == old(self)@.editing_line(k),
    {
        self.prompt.press(k);
        self.chosen = 0;
    }

    /// Takes the line at the foot of the page away.
    fn leave_line(&mut self)
        requires
            old(self).wf(),
        ensures
            final(self).wf(),
            final(self)@ == old(self)@.leaving_line(),
    {
        self.prompt.clear();
        self.mode = Mode::Normal;
    }

    /// Hands the line in.
    fn enter_line(&mut self) -> (out: KeyOutcome)
        requires
            old(self).wf(),
        ensures
            final(self).wf(),
            (final(self)@, out) == old(self)@.entering_line(),
    {
        proof {
            reveal(EditorView::entering_line);
        }
        match self.mode {
            Mode::Search => {
                self.run_pattern();
                KeyOutcome::Continue
            },
            Mode::Ruby => {
                self.submit_reading();
                KeyOutcome::Continue
            },
            Mode::Picker => {
                self.take_choice();
                KeyOutcome::Continue
            },
            _ => self.run_command(),
        }
    }

    /// A key on the line at the foot of the page.
    fn press_prompt(&mut self, k: Key) -> (out: KeyOutcome)
        requires
            old(self).wf(),
        ensures
            final(self).wf(),
            (final(self)@, out) == old(self)@.prompt_key(k),
    {
        proof {
            reveal(EditorView::prompt_key);
        }
        match k {
            Key::Up => self.turn_line(true),
            Key::Down => self.turn_line(false),
            Key::Tab => self.take_guess(),
            Key::Esc => self.leave_line(),
            Key::Enter => {
                return self.enter_line();
            },
            _ => {
                if k == Key::Backspace && self.prompt.line.len() == 0 && self.mode != Mode::Ruby {
                    self.leave_line();
                } else {
                    self.edit_line(k);
                }
            },
        }
        KeyOutcome::Continue
    }

    /// A key, whatever it means at the moment; doing something again apart.
    fn press_plain(&mut self, k: Key) -> (out: KeyOutcome)
        requires
            old(self).wf(),
        ensures
            final(self).wf(),
            (final(self)@, out) == old(self)@.plain_key(k),
    {
        match self.mode {
            Mode::Normal => {
                if self.pending == Pending::Idle {
                    self.press_normal(k);
                } else {
                    self.press_pending(k);
                }
                KeyOutcome::Continue
            },
            Mode::Insert => {
                self.press_insert(k);
                KeyOutcome::Continue
            },
            _ => self.press_prompt(k),
        }
    }

    /// Text that an input method gave.
    fn commit(&mut self, s: &str)
        requires
            old(self).wf(),
        ensures
            final(self).wf(),
            final(self)@ == old(self)@.committed(s@),
    {
        proof {
            reveal(EditorView::committed);
        }
        match self.mode {
            Mode::Normal => {
                if self.pending == Pending::Replace {
                    self.pending = Pending::Idle;
                    self.count = None;
                    self.replace_str(s);
                } else if self.takes_a_character() && s.unicode_len() > 0 {
                    self.give_character(s.get_char(0));
                }
            },
            Mode::Insert => self.type_text(s),
            _ => self.prompt.insert(s),
        }
    }

    /// What is to be done again by a key, if anything.
    fn find_again_by(&self, k: Key) -> (r: Option<Vec<Input>>)
        ensures
            match r {
                Some(v) => self@.again_by(k) == Some(input_views(v@)),
                None => self@.again_by(k) is None,
            },
    {
        if self.mode == Mode::Normal && self.pending == Pending::Idle && !self.counts(k) {
            match bind(k, self.settings.layout) {
                Act::Dot => Some(copied_inputs(&self.repeats.change)),
                Act::Replay => Some(copied_inputs(&self.repeats.recorded)),
                _ => None,
            }
        } else {
            None
        }
    }

    /// Something that came in.
    fn take_in(&mut self, fuel: usize, i: &Input) -> (out: KeyOutcome)
        requires
            old(self).wf(),
        ensures
            final(self).wf(),
            (final(self)@, out) == old(self)@.taking_in(fuel as nat, i@),
        decreases fuel, 0nat,
    {
        proof {
            reveal(EditorView::taking_in);
            reveal(EditorView::taking_in_first);
            reveal(EditorView::taking_in_times);
        }
        match i {
            Input::Text(s) => {
                self.commit(s.as_str());
                KeyOutcome::Continue
            },
            Input::Key(k) => match self.find_again_by(*k) {
                Some(inputs) => {
                    if fuel == 0 {
                        self.count = None;
                        return KeyOutcome::Continue;
                    }
                    let n: usize = self.take_count();
                    self.take_in_times(
                        fuel - 1,
                        &inputs,
                        if n <= WRITING_MAX {
                            n
                        } else {
                            WRITING_MAX
                        },
                    );
                    if n > WRITING_MAX {
                        self.status = say::writing_ceiling(WRITING_MAX);
                    }
                    KeyOutcome::Continue
                },
                None => self.press_plain(*k),
            },
        }
    }

    /// Several things that came in, up to `n` times.
    fn take_in_times(&mut self, fuel: usize, inputs: &Vec<Input>, n: usize)
        requires
            old(self).wf(),
        ensures
            final(self).wf(),
            final(self)@ == old(self)@.taking_in_times(
                fuel as nat,
                input_views(inputs@),
                n as nat,
            ),
        decreases fuel, 1nat,
    {
        let ghost all = input_views(inputs@);
        let mut left: usize = n;
        let mut going: bool = true;
        while going && left > 0
            invariant
                self.wf(),
                left <= n,
                all == input_views(inputs@),
                old(self)@.taking_in_times(fuel as nat, all, n as nat) == (if going {
                    self@.taking_in_times(fuel as nat, all, left as nat)
                } else {
                    self@
                }),
            decreases left,
        {
            proof {
                reveal(EditorView::taking_in);
                reveal(EditorView::taking_in_first);
                reveal(EditorView::taking_in_times);
            }
            let before: usize = self.cursor;
            let anchor: usize = self.anchor;
            let long: usize = self.current_buffer().char_count();
            let ghost was = self@;
            let mut k: usize = 0;
            assert(was.taking_in_first(fuel as nat, all, 0) == was) by {
                reveal(EditorView::taking_in);
                reveal(EditorView::taking_in_first);
                reveal(EditorView::taking_in_times);
            }
            while k < inputs.len()
                invariant
                    0 <= k <= inputs@.len(),
                    self.wf(),
                    all == input_views(inputs@),
                    self@ == was.taking_in_first(fuel as nat, all, k as nat),
                decreases inputs@.len() - k,
            {
                proof {
                    reveal(EditorView::taking_in);
                    reveal(EditorView::taking_in_first);
                    reveal(EditorView::taking_in_times);
                    assert(all[k as int] == inputs@[k as int]@);
                }
                let _ = self.take_in(fuel, &inputs[k]);
                k += 1;
            }
            assert(all.len() == inputs@.len());
            let now: usize = self.current_buffer().char_count();
            if self.cursor == before && self.anchor == anchor && now == long {
                going = false;
            }
            left -= 1;
        }
        proof {
            reveal(EditorView::taking_in);
            reveal(EditorView::taking_in_first);
            reveal(EditorView::taking_in_times);
        }
    }

    /// Notes what comes in.
    fn note(&mut self, i: &Input)
        requires
            old(self).wf(),
        ensures
            final(self).wf(),
            final(self)@ == old(self)@.noting(i@),
    {
        let ends: bool = self.repeats.recording.is_some() && self.mode == Mode::Normal
            && self.pending == Pending::Idle && (match i {
            Input::Key(Key::Char(c)) => *c == 'Q',
            _ => false,
        });
        assert(ends == self@.ends_recording(i@));
        if !ends {
            self.repeats.record(i.copy());
        }
        if self.mode == Mode::Insert {
            let ghost before = input_views(self.memory.typed@);
            self.memory.typed.push(i.copy());
            assert(input_views(self.memory.typed@) =~= before.push(i@));
        } else if self.mode == Mode::Normal && self.pending == Pending::Idle
            && self.count.is_none() {
            let revision: u64 = self.current_buffer().revision;
            self.repeats.begin(i.copy(), self.active, revision);
        } else {
            self.repeats.watch(i.copy());
        }
    }

    /// Something that came in from outside.
    fn enter(&mut self, i: Input) -> (out: KeyOutcome)
        requires
            old(self).wf(),
        ensures
            final(self).wf(),
            (final(self)@, out) == old(self)@.entered(i@),
    {
        proof {
            reveal(EditorView::entered);
        }
        self.status = String::new();
        assert(self.status@ =~= Seq::empty());
        self.note(&i);
        let out: KeyOutcome = self.take_in(2, &i);
        if self.mode == Mode::Normal && self.pending == Pending::Idle && self.count.is_none() {
            let revision: u64 = self.current_buffer().revision;
            self.repeats.settle(self.active, revision);
        }
        out
    }

    /// A key was pressed.
    pub fn on_key(&mut self, k: Key) -> (out: KeyOutcome)
        requires
            old(self).wf(),
        ensures
            final(self).wf(),
            (final(self)@, out) == old(self)@.keyed(k),
    {
        if let Key::Char(c) = k {
            if self.mode == Mode::Normal && self.pending == Pending::Idle {
                let at: usize = find_slot(&self.memory.aliases, c);
                if at < self.memory.aliases.len() {
                    let s: Vec<char> = chars_of(self.memory.aliases[at].1.as_str());
                    assert(self@.memory.aliases[at as int].1 == s@);
                    if s.len() > 0 {
                        let ghost was = self@;
                        let mut out: KeyOutcome = KeyOutcome::Continue;
                        let mut j: usize = 0;
                        while j < s.len()
                            invariant
                                0 <= j <= s@.len(),
                                self.wf(),
                                (self@, out) == was.entered_first(s@, j as nat),
                            decreases s@.len() - j,
                        {
                            out = self.enter(Input::Key(Key::Char(s[j])));
                            j += 1;
                        }
                        return out;
                    }
                }
            }
        }
        self.enter(Input::Key(k))
    }

    /// Text that an input method gave.
    pub fn insert_committed(&mut self, s: &str)
        requires
            old(self).wf(),
        ensures
            final(self).wf(),
            final(self)@ == old(self)@.entered(InputView::Text(s@)).0,
    {
        let _ = self.enter(Input::Text(copied(s)));
    }
}

} // verus!
