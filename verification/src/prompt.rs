//! The line at the foot of the page that a command or a pattern is typed on.

use vstd::prelude::*;
use crate::editor::Key;
use crate::pairs::one;
use crate::text::{chars_of, copied, is_space, same_text, space, string_of, views};

verus! {

/// The line, the caret in it, and what was typed before.
#[derive(Debug)]
pub struct Prompt {
    pub line: Vec<char>,
    pub caret: usize,
    /// The commands that were run, the latest last.
    pub commands: Vec<String>,
    /// The patterns that were looked for, the latest last.
    pub patterns: Vec<String>,
    /// Which of them is on the line.
    pub at: Option<usize>,
}

/// What a [`Prompt`] holds.
#[verifier::ext_equal]
pub struct PromptView {
    pub line: Seq<char>,
    pub caret: int,
    pub commands: Seq<Seq<char>>,
    pub patterns: Seq<Seq<char>>,
    pub at: Option<int>,
}

impl View for Prompt {
    type V = PromptView;

    open spec fn view(&self) -> PromptView {
        PromptView {
            line: self.line@,
            caret: self.caret as int,
            commands: views(self.commands@),
            patterns: views(self.patterns@),
            at: match self.at {
                Some(i) => Some(i as int),
                None => None,
            },
        }
    }
}

/// Where the word before `i` begins: over white space, then over what is none.
pub open spec fn word_before(s: Seq<char>, i: int) -> int
    decreases i,
{
    if i <= 0 {
        0
    } else if is_space(s[i - 1]) {
        word_before(s, i - 1)
    } else {
        run_before(s, i)
    }
}

/// Where what is not white space before `i` begins.
pub open spec fn run_before(s: Seq<char>, i: int) -> int
    decreases i,
{
    if i <= 0 || is_space(s[i - 1]) {
        i
    } else {
        run_before(s, i - 1)
    }
}

impl PromptView {
    /// The caret is on the line.
    pub open spec fn wf(self) -> bool {
        0 <= self.caret <= self.line.len()
    }

    /// With `s` on the line and the caret after it.
    pub open spec fn holding(self, s: Seq<char>) -> PromptView {
        PromptView { line: s, caret: s.len() as int, ..self }
    }

    /// With an empty line.
    pub open spec fn cleared(self) -> PromptView {
        PromptView { line: Seq::empty(), caret: 0, at: None, ..self }
    }

    /// With `s` put in at the caret.
    pub open spec fn inserting(self, s: Seq<char>) -> PromptView {
        PromptView {
            line: self.line.take(self.caret) + s + self.line.skip(self.caret),
            caret: self.caret + s.len(),
            ..self
        }
    }

    /// Without what stands from `a` up to the caret.
    pub open spec fn cutting(self, a: int) -> PromptView {
        PromptView { line: self.line.take(a) + self.line.skip(self.caret), caret: a, ..self }
    }

    /// Without the character before the caret.
    pub open spec fn backspacing(self) -> PromptView {
        if self.caret == 0 {
            self
        } else {
            self.cutting(self.caret - 1)
        }
    }

    /// Without the character after the caret.
    pub open spec fn deleting(self) -> PromptView {
        if self.caret >= self.line.len() {
            self
        } else {
            PromptView {
                line: self.line.take(self.caret) + self.line.skip(self.caret + 1),
                ..self
            }
        }
    }

    /// With the caret at `i`, inside the line.
    pub open spec fn at_caret(self, i: int) -> PromptView {
        PromptView {
            caret: if i < 0 {
                0
            } else if i > self.line.len() {
                self.line.len() as int
            } else {
                i
            },
            ..self
        }
    }

    /// Without the word before the caret.
    pub open spec fn taking_back_word(self) -> PromptView {
        self.cutting(word_before(self.line, self.caret))
    }

    /// With a key pressed that edits the line; another changes nothing.
    pub open spec fn pressed(self, k: Key) -> PromptView {
        match k {
            Key::Char(c) => self.inserting(seq![c]),
            Key::Backspace => self.backspacing(),
            Key::Delete => self.deleting(),
            Key::Left => self.at_caret(self.caret - 1),
            Key::Right => self.at_caret(self.caret + 1),
            Key::Home => self.at_caret(0),
            Key::End => self.at_caret(self.line.len() as int),
            Key::Ctrl(c) => if c == 'w' {
                self.taking_back_word()
            } else if c == 'u' {
                self.cleared()
            } else if c == 'a' {
                self.at_caret(0)
            } else if c == 'e' {
                self.at_caret(self.line.len() as int)
            } else {
                self
            },
            _ => self,
        }
    }

    /// What was typed before: patterns, or commands.
    pub open spec fn history(self, patterns: bool) -> Seq<Seq<char>> {
        if patterns {
            self.patterns
        } else {
            self.commands
        }
    }

    /// With what was typed before the line that is shown; it stops at the
    /// oldest.
    pub open spec fn earlier(self, patterns: bool) -> PromptView {
        let all = self.history(patterns);
        let i = match self.at {
            Some(i) => if i > 0 {
                i - 1
            } else {
                0
            },
            None => all.len() - 1,
        };
        if all.len() == 0 || i >= all.len() {
            self
        } else {
            PromptView { at: Some(i), ..self.holding(all[i]) }
        }
    }

    /// With what was typed after the line that is shown, and an empty line
    /// after the latest.
    pub open spec fn later(self, patterns: bool) -> PromptView {
        let all = self.history(patterns);
        match self.at {
            Some(i) => if i + 1 < all.len() {
                PromptView { at: Some(i + 1), ..self.holding(all[i + 1]) }
            } else {
                self.cleared()
            },
            None => self,
        }
    }

    /// With the line remembered; an empty one is not, nor the same one twice
    /// over.
    pub open spec fn remembering(self, patterns: bool) -> PromptView {
        let all = self.history(patterns);
        if self.line.len() == 0 || (all.len() > 0 && all.last() == self.line) {
            self
        } else if patterns {
            PromptView { patterns: all.push(self.line), ..self }
        } else {
            PromptView { commands: all.push(self.line), ..self }
        }
    }
}

impl Prompt {
    /// An empty line.
    pub fn new() -> (p: Prompt)
        ensures
            p@.wf(),
            p@ == (PromptView {
                line: Seq::empty(),
                caret: 0,
                commands: Seq::empty(),
                patterns: Seq::empty(),
                at: None,
            }),
    {
        let p: Prompt = Prompt {
            line: Vec::new(),
            caret: 0,
            commands: Vec::new(),
            patterns: Vec::new(),
            at: None,
        };
        assert(views(p.commands@) =~= Seq::empty());
        assert(views(p.patterns@) =~= Seq::empty());
        p
    }

    /// The line.
    pub fn text(&self) -> (s: String)
        ensures
            s@ == self@.line,
    {
        string_of(&self.line)
    }

    /// Puts `s` on the line.
    pub fn hold(&mut self, s: &str)
        ensures
            final(self)@ == old(self)@.holding(s@),
            final(self)@.wf(),
    {
        self.line = chars_of(s);
        self.caret = self.line.len();
    }

    /// Empties the line.
    pub fn clear(&mut self)
        ensures
            final(self)@ == old(self)@.cleared(),
            final(self)@.wf(),
    {
        self.line = Vec::new();
        self.caret = 0;
        self.at = None;
        assert(self@ =~= old(self)@.cleared());
    }

    /// Puts `s` in at the caret.
    pub fn insert(&mut self, s: &str)
        requires
            old(self)@.wf(),
        ensures
            final(self)@ == old(self)@.inserting(s@),
            final(self)@.wf(),
    {
        let ghost before = self@;
        let new: Vec<char> = chars_of(s);
        let mut i: usize = 0;
        assert(before.inserting(s@.take(0)) =~= before);
        while i < new.len()
            invariant
                0 <= i <= new@.len(),
                new@ == s@,
                before.wf(),
                before == old(self)@,
                self@ == before.inserting(s@.take(i as int)),
            decreases new@.len() - i,
        {
            let ghost so_far = s@.take(i as int);
            assert(s@.take(i + 1) =~= so_far.push(new@[i as int]));
            let at: usize = self.caret;
            self.line.insert(at, new[i]);
            let _end: usize = self.line.len();
            self.caret = at + 1;
            assert(self@ =~= before.inserting(s@.take(i + 1)));
            i += 1;
        }
        assert(s@.take(s@.len() as int) =~= s@);
    }

    /// Takes out what stands from `a` up to the caret.
    fn cut(&mut self, a: usize)
        requires
            old(self)@.wf(),
            a <= old(self)@.caret,
        ensures
            final(self)@ == old(self)@.cutting(a as int),
            final(self)@.wf(),
    {
        let ghost before = self@;
        let mut i: usize = self.caret;
        while i > a
            invariant
                before == old(self)@,
                before.wf(),
                a <= i <= before.caret,
                self@ == (PromptView {
                    line: before.line.take(i as int) + before.line.skip(before.caret),
                    ..before
                }),
            decreases i,
        {
            i -= 1;
            let _ = self.line.remove(i);
            assert(self@.line =~= before.line.take(i as int) + before.line.skip(before.caret));
        }
        assert(before.line.take(before.caret) + before.line.skip(before.caret) =~= before.line);
        self.caret = a;
    }

    /// Takes out the character before the caret.
    pub fn backspace(&mut self)
        requires
            old(self)@.wf(),
        ensures
            final(self)@ == old(self)@.backspacing(),
            final(self)@.wf(),
    {
        if self.caret > 0 {
            let a: usize = self.caret - 1;
            proof {
                assert(self@.line.take(self@.caret) + self@.line.skip(self@.caret)
                    =~= self@.line);
            }
            self.cut(a);
        }
    }

    /// Takes out the character after the caret.
    pub fn delete(&mut self)
        requires
            old(self)@.wf(),
        ensures
            final(self)@ == old(self)@.deleting(),
            final(self)@.wf(),
    {
        if self.caret < self.line.len() {
            let _ = self.line.remove(self.caret);
            assert(self@.line =~= old(self)@.deleting().line);
        }
    }

    /// Moves the caret to the left.
    pub fn left(&mut self)
        requires
            old(self)@.wf(),
        ensures
            final(self)@ == old(self)@.at_caret(old(self)@.caret - 1),
            final(self)@.wf(),
    {
        if self.caret > 0 {
            self.caret = self.caret - 1;
        }
    }

    /// Moves the caret to the right.
    pub fn right(&mut self)
        requires
            old(self)@.wf(),
        ensures
            final(self)@ == old(self)@.at_caret(old(self)@.caret + 1),
            final(self)@.wf(),
    {
        if self.caret < self.line.len() {
            self.caret = self.caret + 1;
        }
    }

    /// Moves the caret to the beginning.
    pub fn home(&mut self)
        requires
            old(self)@.wf(),
        ensures
            final(self)@ == old(self)@.at_caret(0),
            final(self)@.wf(),
    {
        self.caret = 0;
    }

    /// Moves the caret to the end.
    pub fn end(&mut self)
        requires
            old(self)@.wf(),
        ensures
            final(self)@ == old(self)@.at_caret(old(self)@.line.len() as int),
            final(self)@.wf(),
    {
        self.caret = self.line.len();
    }

    /// Takes out the word before the caret.
    pub fn take_back_word(&mut self)
        requires
            old(self)@.wf(),
        ensures
            final(self)@ == old(self)@.taking_back_word(),
            final(self)@.wf(),
    {
        let ghost s = self.line@;
        let mut i: usize = self.caret;
        while i > 0 && space(self.line[i - 1])
            invariant
                i <= self.caret <= s.len(),
                s == self.line@,
                word_before(s, self.caret as int) == word_before(s, i as int),
            decreases i,
        {
            i -= 1;
        }
        let ghost gap = i as int;
        assert(word_before(s, self.caret as int) == run_before(s, gap));
        while i > 0 && !space(self.line[i - 1])
            invariant
                i <= self.caret <= s.len(),
                s == self.line@,
                run_before(s, gap) == run_before(s, i as int),
            decreases i,
        {
            i -= 1;
        }
        self.cut(i);
    }

    /// Shows what was typed before the line that is shown.
    pub fn earlier(&mut self, patterns: bool)
        requires
            old(self)@.wf(),
        ensures
            final(self)@ == old(self)@.earlier(patterns),
            final(self)@.wf(),
    {
        let n: usize = if patterns {
            self.patterns.len()
        } else {
            self.commands.len()
        };
        if n == 0 {
            return;
        }
        let i: usize = match self.at {
            Some(i) => if i > 0 {
                i - 1
            } else {
                0
            },
            None => n - 1,
        };
        if i >= n {
            return;
        }
        let line: String = if patterns {
            assert(self@.patterns[i as int] == self.patterns@[i as int]@);
            copied(self.patterns[i].as_str())
        } else {
            assert(self@.commands[i as int] == self.commands@[i as int]@);
            copied(self.commands[i].as_str())
        };
        self.hold(line.as_str());
        self.at = Some(i);
    }

    /// Shows what was typed after the line that is shown.
    pub fn later(&mut self, patterns: bool)
        requires
            old(self)@.wf(),
        ensures
            final(self)@ == old(self)@.later(patterns),
            final(self)@.wf(),
    {
        let n: usize = if patterns {
            self.patterns.len()
        } else {
            self.commands.len()
        };
        match self.at {
            Some(i) => {
                if i < n && i + 1 < n {
                    let line: String = if patterns {
                        assert(self@.patterns[i + 1] == self.patterns@[i + 1]@);
                        copied(self.patterns[i + 1].as_str())
                    } else {
                        assert(self@.commands[i + 1] == self.commands@[i + 1]@);
                        copied(self.commands[i + 1].as_str())
                    };
                    self.hold(line.as_str());
                    self.at = Some(i + 1);
                } else {
                    self.clear();
                }
            },
            None => {},
        }
    }

    /// Remembers the line.
    pub fn remember(&mut self, patterns: bool)
        requires
            old(self)@.wf(),
        ensures
            final(self)@ == old(self)@.remembering(patterns),
            final(self)@.wf(),
    {
        if self.line.len() == 0 {
            return;
        }
        let line: String = self.text();
        let ghost said = line@;
        let ghost before = self@.history(patterns);
        if patterns {
            let n: usize = self.patterns.len();
            assert(n > 0 ==> before.last() == self.patterns@[n - 1]@);
            if n > 0 && same_text(self.patterns[n - 1].as_str(), line.as_str()) {
                return;
            }
            self.patterns.push(line);
            assert(views(self.patterns@) =~= before.push(said));
        } else {
            let n: usize = self.commands.len();
            assert(n > 0 ==> before.last() == self.commands@[n - 1]@);
            if n > 0 && same_text(self.commands[n - 1].as_str(), line.as_str()) {
                return;
            }
            self.commands.push(line);
            assert(views(self.commands@) =~= before.push(said));
        }
    }

    /// A key that edits the line.
    pub fn press(&mut self, k: Key)
        requires
            old(self)@.wf(),
        ensures
            final(self)@.wf(),
            final(self)@ == old(self)@.pressed(k),
    {
        match k {
            Key::Char(c) => self.insert(one(c).as_str()),
            Key::Backspace => self.backspace(),
            Key::Delete => self.delete(),
            Key::Left => self.left(),
            Key::Right => self.right(),
            Key::Home => self.home(),
            Key::End => self.end(),
            Key::Ctrl(c) => {
                if c == 'w' {
                    self.take_back_word();
                } else if c == 'u' {
                    self.clear();
                } else if c == 'a' {
                    self.home();
                } else if c == 'e' {
                    self.end();
                }
            },
            _ => {},
        }
    }
}

} // verus!
