//! What is set by a typed line.

use vstd::prelude::*;
use crate::command::{on_or_off, read_on_or_off};
use crate::editor::{Editor, EditorView, most};
use crate::keymap::Layout;
use crate::outcome::{CommandError, CommandOutcome, EditorError, ending, ErrorView};
use crate::range::{number_of, read_number};
use crate::say;
use crate::state::{Render, RequestsView, Settings};
use crate::text::{copied, pieces_of, same_text, split_on, views};
use crate::verb::Verb;

verus! {

/// How much is drawn, by name.
pub open spec fn render_named(word: Seq<char>) -> Option<Render> {
    if word == "off"@ {
        Some(Render::Off)
    } else if word == "basic"@ {
        Some(Render::Basic)
    } else if word == "full"@ {
        Some(Render::Full)
    } else {
        None
    }
}

/// Which way the text runs, by name.
pub open spec fn layout_named(word: Seq<char>) -> Option<Layout> {
    if word == "horizontal"@ {
        Some(Layout::Horizontal)
    } else if word == "vertical"@ {
        Some(Layout::Vertical)
    } else {
        None
    }
}

/// On or off, or the other of what it is.
pub open spec fn turned_to(word: Seq<char>, now: bool) -> Option<bool> {
    if word.len() == 0 {
        Some(!now)
    } else {
        on_or_off(word)
    }
}

/// A way of taking typed text, by the name it goes by here.
pub open spec fn commit_way(word: Seq<char>) -> Option<Seq<char>> {
    if word.len() == 0 {
        Some("commit:"@)
    } else if word == "auto"@ {
        Some("commit:unique"@)
    } else if word == "fluency"@ {
        Some("commit:fluency"@)
    } else {
        None
    }
}

/// A word, and whether `force` stands after it.
pub open spec fn forced(given: Seq<char>) -> (Seq<char>, bool) {
    let words = pieces_of(given, ' ');
    if words.len() == 2 && words[1] == "force"@ {
        (words[0], true)
    } else if given == "force"@ {
        (Seq::empty(), true)
    } else {
        (given, false)
    }
}

/// The settings that a command changes by what it was given; none where it does
/// not take that.
pub open spec fn changed(s: Settings, verb: Verb, given: Seq<char>) -> Option<Settings> {
    match verb {
        Verb::RubyHtml => match turned_to(given, false) {
            Some(on) => Some(
                Settings {
                    html_readings: on,
                    readings: if on {
                        Render::Full
                    } else {
                        s.readings
                    },
                    ..s
                },
            ),
            None => None,
        },
        Verb::RubyTypst => match turned_to(given, false) {
            Some(on) => Some(
                Settings {
                    typst_readings: on,
                    readings: if on {
                        Render::Full
                    } else {
                        s.readings
                    },
                    ..s
                },
            ),
            None => None,
        },
        Verb::Render => match render_named(given) {
            Some(render) => Some(Settings { render, ..s }),
            None => None,
        },
        Verb::ViewPunct => match turned_to(given, s.notes) {
            Some(notes) => Some(Settings { notes, ..s }),
            None => None,
        },
        Verb::ViewDense => match turned_to(given, s.dense) {
            Some(dense) => Some(Settings { dense, ..s }),
            None => None,
        },
        Verb::Layout => match layout_named(given) {
            Some(layout) => Some(Settings { layout, ..s }),
            None => None,
        },
        Verb::Wheel => match number_of(given) {
            Some(n) => Some(Settings { wheel: most(n as int, 1) as usize, ..s }),
            None => None,
        },
        _ => None,
    }
}

impl EditorView {
    /// With the settings `s`.
    pub open spec fn set(self, s: Settings) -> EditorView {
        EditorView { settings: s, ..self }
    }

    /// What marks still wait for that are to hang beside the column.
    pub open spec fn hanging_waits(self) -> Option<Seq<char>> {
        let across = self.settings.layout != Layout::Vertical;
        if across && self.settings.dense {
            Some(say::hanging_needs_both_text())
        } else if across {
            Some(say::hanging_needs_vertical_text())
        } else if self.settings.dense {
            Some(say::hanging_needs_loose_text())
        } else {
            None
        }
    }

    /// Marks hang beside the column, or not. Where something is in the way, it
    /// is said, unless it is to be set right too.
    pub open spec fn hanging(self, on: bool, force: bool) -> EditorView {
        if !on {
            self.set(Settings { hanging: false, ..self.settings }).saying(say::hanging_off_text())
        } else if force || self.hanging_waits() is None {
            self.set(
                Settings {
                    hanging: true,
                    layout: Layout::Vertical,
                    dense: false,
                    ..self.settings
                },
            ).saying(say::hanging_on_text())
        } else {
            self.saying(self.hanging_waits()->0)
        }
    }

    /// Lines are folded, or not; on a vertical page there is nothing to fold.
    pub open spec fn wrapping(self, on: bool) -> EditorView {
        if self.settings.layout == Layout::Vertical {
            self.saying(say::vertical_no_wrap_text())
        } else {
            self.set(Settings { soft_wrap: on, ..self.settings })
        }
    }

    /// With a width to write to, or none for zero. To have one is to fold.
    pub open spec fn measuring(self, n: int) -> EditorView {
        if n <= 0 {
            self.set(Settings { measure: None, ..self.settings })
        } else {
            self.set(Settings { measure: Some(n as usize), soft_wrap: true, ..self.settings })
        }
    }

    /// The width at which lines are folded.
    pub open spec fn folds_at(self) -> Option<int> {
        if self.settings.layout == Layout::Vertical || !self.settings.soft_wrap {
            None
        } else {
            Some(
                match self.settings.measure {
                    Some(n) => if n < self.settings.window {
                        n as int
                    } else {
                        self.settings.window as int
                    },
                    None => self.settings.window as int,
                },
            )
        }
    }

    /// What a command that sets something does.
    #[verifier::opaque]
    pub open spec fn preferring(self, verb: Verb, given: Seq<char>) -> (
        EditorView,
        Result<CommandOutcome, ErrorView>,
    ) {
        let go = Ok::<CommandOutcome, ErrorView>(CommandOutcome::Continue);
        let no = Err::<CommandOutcome, ErrorView>(ErrorView::Argument(given));
        match verb {
            Verb::ViewHanging => match turned_to(forced(given).0, self.settings.hanging) {
                Some(on) => (self.hanging(on, forced(given).1), go),
                None => (self, no),
            },
            Verb::ViewWrap => match number_of(given) {
                Some(n) => (self.measuring(n as int), go),
                None => match turned_to(given, false) {
                    Some(on) => (self.wrapping(on), go),
                    None => (self, no),
                },
            },
            Verb::YumeCommit => if !self.settings.typing_table {
                (self.saying(say::needs_table_text()), go)
            } else {
                match commit_way(given) {
                    Some(way) => (
                        EditorView {
                            requests: RequestsView { scheme: Some(way), ..self.requests },
                            ..self
                        },
                        go,
                    ),
                    None => (self, no),
                }
            },
            Verb::YumeChaifen => if !self.settings.typing_table {
                (self.saying(say::needs_table_text()), go)
            } else {
                (
                    EditorView {
                        requests: RequestsView {
                            apart: Some(!self.settings.apart),
                            ..self.requests
                        },
                        ..self
                    },
                    go,
                )
            },
            _ => if verb == Verb::Wheel && given.len() == 0 {
                (self.saying(say::wheel_is_text(self.settings.wheel as nat)), go)
            } else {
                match changed(self.settings, verb, given) {
                    Some(s) => (self.set(s), go),
                    None => (self, no),
                }
            },
        }
    }
}

/// How much is drawn, by name.
pub fn read_render(word: &str) -> (r: Option<Render>)
    ensures
        r == render_named(word@),
{
    if same_text(word, "off") {
        Some(Render::Off)
    } else if same_text(word, "basic") {
        Some(Render::Basic)
    } else if same_text(word, "full") {
        Some(Render::Full)
    } else {
        None
    }
}

/// Which way the text runs, by name.
fn read_layout(word: &str) -> (r: Option<Layout>)
    ensures
        r == layout_named(word@),
{
    if same_text(word, "horizontal") {
        Some(Layout::Horizontal)
    } else if same_text(word, "vertical") {
        Some(Layout::Vertical)
    } else {
        None
    }
}

/// On or off, or the other of what it is.
fn read_turn(word: &str, now: bool) -> (r: Option<bool>)
    ensures
        r == turned_to(word@, now),
{
    if word.unicode_len() == 0 {
        Some(!now)
    } else {
        read_on_or_off(word)
    }
}

/// A way of taking typed text.
fn read_commit_way(word: &str) -> (r: Option<&'static str>)
    ensures
        match r {
            Some(s) => commit_way(word@) == Some(s@),
            None => commit_way(word@) is None,
        },
{
    if word.unicode_len() == 0 {
        Some("commit:")
    } else if same_text(word, "auto") {
        Some("commit:unique")
    } else if same_text(word, "fluency") {
        Some("commit:fluency")
    } else {
        None
    }
}

/// A word, and whether `force` stands after it.
fn read_forced(given: &str) -> (r: (String, bool))
    ensures
        r.0@ == forced(given@).0,
        r.1 == forced(given@).1,
{
    let words: Vec<String> = split_on(given, ' ');
    assert(views(words@).len() == words@.len());
    if words.len() == 2 {
        assert(views(words@)[1] == words@[1]@);
        assert(views(words@)[0] == words@[0]@);
        if same_text(words[1].as_str(), "force") {
            return (copied(words[0].as_str()), true);
        }
    }
    if same_text(given, "force") {
        let s: String = String::new();
        assert(s@ =~= Seq::empty());
        (s, true)
    } else {
        (copied(given), false)
    }
}

/// The settings that a command changes by what it was given.
fn change(s: Settings, verb: Verb, given: &str) -> (r: Option<Settings>)
    ensures
        r == changed(s, verb, given@),
{
    match verb {
        Verb::RubyHtml => match read_turn(given, false) {
            Some(on) => {
                let readings: Render = if on {
                    Render::Full
                } else {
                    s.readings
                };
                Some(Settings { html_readings: on, readings, ..s })
            },
            None => None,
        },
        Verb::RubyTypst => match read_turn(given, false) {
            Some(on) => {
                let readings: Render = if on {
                    Render::Full
                } else {
                    s.readings
                };
                Some(Settings { typst_readings: on, readings, ..s })
            },
            None => None,
        },
        Verb::Render => match read_render(given) {
            Some(render) => Some(Settings { render, ..s }),
            None => None,
        },
        Verb::ViewPunct => match read_turn(given, s.notes) {
            Some(notes) => Some(Settings { notes, ..s }),
            None => None,
        },
        Verb::ViewDense => match read_turn(given, s.dense) {
            Some(dense) => Some(Settings { dense, ..s }),
            None => None,
        },
        Verb::Layout => match read_layout(given) {
            Some(layout) => Some(Settings { layout, ..s }),
            None => None,
        },
        Verb::Wheel => match read_number(given) {
            Some(n) => {
                let wheel: usize = if n <= 1 {
                    1
                } else {
                    n
                };
                Some(Settings { wheel, ..s })
            },
            None => None,
        },
        _ => None,
    }
}

impl Editor {
    /// Takes the settings `s`.
    pub(crate) fn settle(&mut self, s: Settings)
        requires
            old(self).wf(),
        ensures
            final(self).wf(),
            final(self)@ == old(self)@.set(s),
    {
        self.settings = s;
    }

    /// Lets marks hang beside the column, or not.
    fn hang(&mut self, on: bool, force: bool)
        requires
            old(self).wf(),
        ensures
            final(self).wf(),
            final(self)@ == old(self)@.hanging(on, force),
    {
        let s: Settings = self.settings;
        let across: bool = s.layout != Layout::Vertical;
        if !on {
            self.settle(Settings { hanging: false, ..s });
            self.say(say::hanging_off());
        } else if force || (!across && !s.dense) {
            self.settle(
                Settings { hanging: true, layout: Layout::Vertical, dense: false, ..s },
            );
            self.say(say::hanging_on());
        } else if across && s.dense {
            self.say(say::hanging_needs_both());
        } else if across {
            self.say(say::hanging_needs_vertical());
        } else {
            self.say(say::hanging_needs_loose());
        }
    }

    /// Lets lines be folded, or not.
    fn wrap(&mut self, on: bool)
        requires
            old(self).wf(),
        ensures
            final(self).wf(),
            final(self)@ == old(self)@.wrapping(on),
    {
        let s: Settings = self.settings;
        if s.layout == Layout::Vertical {
            self.say(say::vertical_no_wrap());
        } else {
            self.settle(Settings { soft_wrap: on, ..s });
        }
    }

    /// Takes a width to write to.
    fn measure_by(&mut self, n: usize)
        requires
            old(self).wf(),
        ensures
            final(self).wf(),
            final(self)@ == old(self)@.measuring(n as int),
    {
        let s: Settings = self.settings;
        if n == 0 {
            self.settle(Settings { measure: None, ..s });
        } else {
            self.settle(Settings { measure: Some(n), soft_wrap: true, ..s });
        }
    }

    /// Asks for a way of taking typed text.
    fn ask_scheme(&mut self, way: &str)
        requires
            old(self).wf(),
        ensures
            final(self).wf(),
            final(self)@ == (EditorView {
                requests: RequestsView { scheme: Some(way@), ..old(self)@.requests },
                ..old(self)@
            }),
    {
        self.requests.scheme = Some(copied(way));
    }

    /// Asks that candidates be shown taken apart, or not.
    fn ask_apart(&mut self, on: bool)
        requires
            old(self).wf(),
        ensures
            final(self).wf(),
            final(self)@ == (EditorView {
                requests: RequestsView { apart: Some(on), ..old(self)@.requests },
                ..old(self)@
            }),
    {
        self.requests.apart = Some(on);
    }

    /// Does what a command says that sets something.
    pub(crate) fn prefer(&mut self, verb: Verb, given: &str) -> (r: Result<
        CommandOutcome,
        EditorError,
    >)
        requires
            old(self).wf(),
        ensures
            final(self).wf(),
            (final(self)@, ending(r)) == old(self)@.preferring(verb, given@),
    {
        proof {
            reveal(EditorView::preferring);
        }
        let s: Settings = self.settings;
        let done: bool = match verb {
            Verb::ViewHanging => {
                let (word, force) = read_forced(given);
                match read_turn(word.as_str(), s.hanging) {
                    Some(on) => {
                        self.hang(on, force);
                        true
                    },
                    None => false,
                }
            },
            Verb::ViewWrap => match read_number(given) {
                Some(n) => {
                    self.measure_by(n);
                    true
                },
                None => match read_turn(given, false) {
                    Some(on) => {
                        self.wrap(on);
                        true
                    },
                    None => false,
                },
            },
            Verb::YumeCommit => if !s.typing_table {
                self.say(say::needs_table());
                true
            } else {
                match read_commit_way(given) {
                    Some(way) => {
                        self.ask_scheme(way);
                        true
                    },
                    None => false,
                }
            },
            Verb::YumeChaifen => if !s.typing_table {
                self.say(say::needs_table());
                true
            } else {
                self.ask_apart(!s.apart);
                true
            },
            _ => if verb == Verb::Wheel && given.unicode_len() == 0 {
                self.say(say::wheel_is(s.wheel));
                true
            } else {
                match change(s, verb, given) {
                    Some(s) => {
                        self.settle(s);
                        true
                    },
                    None => false,
                }
            },
        };
        if done {
            Ok(CommandOutcome::Continue)
        } else {
            Err(EditorError::Command(CommandError::Argument(copied(given))))
        }
    }

    /// What the way of typing is to be, once.
    pub fn take_scheme_request(&mut self) -> (r: Option<String>)
        requires
            old(self).wf(),
        ensures
            final(self).wf(),
            match r {
                Some(s) => old(self)@.requests.scheme == Some(s@),
                None => old(self)@.requests.scheme is None,
            },
            final(self)@ == (EditorView {
                requests: RequestsView { scheme: None, ..old(self)@.requests },
                ..old(self)@
            }),
    {
        self.requests.scheme.take()
    }

    /// Whether candidates are to be shown taken apart, once.
    pub fn take_chaifen_request(&mut self) -> (r: Option<bool>)
        requires
            old(self).wf(),
        ensures
            final(self).wf(),
            r == old(self)@.requests.apart,
            final(self)@ == (EditorView {
                requests: RequestsView { apart: None, ..old(self)@.requests },
                ..old(self)@
            }),
    {
        let r: Option<bool> = self.requests.apart;
        self.requests.apart = None;
        r
    }

    /// Whether candidates are shown taken apart.
    pub fn set_chaifen(&mut self, on: bool)
        requires
            old(self).wf(),
        ensures
            final(self).wf(),
            final(self)@ == old(self)@.set(Settings { apart: on, ..old(self)@.settings }),
    {
        self.settings.apart = on;
    }

    /// Whether there is a table to type with.
    pub fn set_ime_available(&mut self, on: bool)
        requires
            old(self).wf(),
        ensures
            final(self).wf(),
            final(self)@ == old(self)@.set(Settings { typing_table: on, ..old(self)@.settings }),
    {
        self.settings.typing_table = on;
    }

    /// Which way the text runs.
    pub fn layout(&self) -> (r: Layout)
        ensures
            r == self@.settings.layout,
    {
        self.settings.layout
    }

    /// Lets the text run the way of `layout`.
    pub fn set_layout(&mut self, layout: Layout)
        requires
            old(self).wf(),
        ensures
            final(self).wf(),
            final(self)@ == old(self)@.set(Settings { layout, ..old(self)@.settings }),
    {
        self.settings.layout = layout;
    }

    /// Whether marks hang beside the column.
    pub fn hanging_punctuation(&self) -> (r: bool)
        ensures
            r == self@.settings.hanging,
    {
        self.settings.hanging
    }

    /// Whether the page is packed.
    pub fn dense(&self) -> (r: bool)
        ensures
            r == self@.settings.dense,
    {
        self.settings.dense
    }

    /// Packs the page, or not.
    pub fn set_dense(&mut self, on: bool)
        requires
            old(self).wf(),
        ensures
            final(self).wf(),
            final(self)@ == old(self)@.set(Settings { dense: on, ..old(self)@.settings }),
    {
        self.settings.dense = on;
    }

    /// How far a notch of the wheel goes.
    pub fn wheel_step(&self) -> (n: usize)
        ensures
            n == self@.settings.wheel,
    {
        self.settings.wheel
    }

    /// Whether long lines are folded.
    pub fn soft_wrap(&self) -> (r: bool)
        ensures
            r == self@.settings.soft_wrap,
    {
        self.settings.soft_wrap
    }

    /// Folds long lines, or not.
    pub fn set_soft_wrap(&mut self, on: bool)
        requires
            old(self).wf(),
        ensures
            final(self).wf(),
            final(self)@ == old(self)@.set(Settings { soft_wrap: on, ..old(self)@.settings }),
    {
        self.settings.soft_wrap = on;
    }

    /// How many columns the window has for a line.
    pub fn set_wrap_width(&mut self, n: usize)
        requires
            old(self).wf(),
        ensures
            final(self).wf(),
            final(self)@ == old(self)@.set(Settings { window: n, ..old(self)@.settings }),
    {
        self.settings.window = n;
    }

    /// The width at which lines are folded.
    pub fn wrap_width(&self) -> (r: Option<usize>)
        ensures
            match r {
                Some(n) => self@.folds_at() == Some(n as int),
                None => self@.folds_at() is None,
            },
    {
        if self.settings.layout == Layout::Vertical || !self.settings.soft_wrap {
            return None;
        }
        match self.settings.measure {
            Some(n) => if n < self.settings.window {
                Some(n)
            } else {
                Some(self.settings.window)
            },
            None => Some(self.settings.window),
        }
    }

    /// The width to write to, where one was set.
    pub fn measure(&self) -> (r: Option<usize>)
        ensures
            r == self@.settings.measure,
    {
        self.settings.measure
    }

    /// How long a column of a vertical page is: the width to write to, where
    /// one was set.
    pub fn zong_length(&self) -> (n: usize)
        ensures
            n == (match self@.settings.measure {
                Some(m) => m,
                None => self@.settings.zong,
            }),
    {
        match self.settings.measure {
            Some(m) => m,
            None => self.settings.zong,
        }
    }

    /// How long a column of a vertical page is without a width to write to.
    pub fn set_zong_length(&mut self, n: usize)
        requires
            old(self).wf(),
        ensures
            final(self).wf(),
            final(self)@ == old(self)@.set(Settings { zong: n, ..old(self)@.settings }),
    {
        self.settings.zong = n;
    }
}

} // verus!
