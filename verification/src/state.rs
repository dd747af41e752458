//! The parts of the state that belong together.

use vstd::prelude::*;
use crate::editor::{Page, Side};
use crate::keymap::Layout;
use crate::path::{FilePath, PathView};
use crate::repeats::{Input, input_views, InputView};
use crate::text::views;
use crate::wiki::Mark;

verus! {

/// How much of the markup the page draws.
#[derive(Debug, Clone, Copy, PartialEq, Eq, Structural)]
pub enum Render {
    /// The file as it is.
    Off,
    /// The markup, told apart from the writing.
    Basic,
    /// What the markup means in place of it.
    Full,
}

/// What holds until it is set otherwise.
#[derive(Debug, Clone, Copy, PartialEq, Eq, Structural)]
pub struct Settings {
    pub indent_width: usize,
    /// How the names of the wiki are marked on the page.
    pub wiki_mark: Mark,
    pub render: Render,
    /// Whether a pattern without a capital finds either case.
    pub smart_case: bool,
    /// Which way the text runs.
    pub layout: Layout,
    /// How many lines a page shows, and how many columns.
    pub page_lines: usize,
    pub page_columns: usize,
    /// Whether marks that are written wrong are noted on the page.
    pub notes: bool,
    /// How far a notch of the wheel goes.
    pub wheel: usize,
    /// Whether long lines are folded.
    pub soft_wrap: bool,
    /// The width to write to, where one was set.
    pub measure: Option<usize>,
    /// How many columns the window has for a line.
    pub window: usize,
    /// How long a column of a vertical page is.
    pub zong: usize,
    /// Whether marks hang beside the column.
    pub hanging: bool,
    /// Whether the page is packed.
    pub dense: bool,
    /// Whether there is a table to type with.
    pub typing_table: bool,
    /// Whether candidates are shown taken apart.
    pub apart: bool,
    /// How much of the readings the page draws, and of which kinds.
    pub readings: Render,
    pub html_readings: bool,
    pub typst_readings: bool,
}

/// The settings that an editor begins with.
pub open spec fn first_settings() -> Settings {
    Settings {
        indent_width: 4,
        wiki_mark: Mark::Color,
        render: Render::Basic,
        smart_case: true,
        layout: Layout::Horizontal,
        page_lines: 40,
        page_columns: 80,
        notes: false,
        wheel: 3,
        soft_wrap: true,
        measure: None,
        window: 80,
        zong: 32,
        hanging: false,
        dense: false,
        typing_table: false,
        apart: false,
        readings: Render::Full,
        html_readings: true,
        typst_readings: false,
    }
}

impl Settings {
    /// The settings that an editor begins with.
    pub fn new() -> (s: Settings)
        ensures
            s == first_settings(),
    {
        Settings {
            indent_width: 4,
            wiki_mark: Mark::Color,
            render: Render::Basic,
            smart_case: true,
            layout: Layout::Horizontal,
            page_lines: 40,
            page_columns: 80,
            notes: false,
            wheel: 3,
            soft_wrap: true,
            measure: None,
            window: 80,
            zong: 32,
            hanging: false,
            dense: false,
            typing_table: false,
            apart: false,
            readings: Render::Full,
            html_readings: true,
            typst_readings: false,
        }
    }
}

/// The panels beside the writing.
#[derive(Debug, Clone, Copy, PartialEq, Eq, Structural)]
pub struct Panels {
    pub left: Option<Page>,
    pub right: Option<Page>,
    /// The panel that the keys go to; the writing where there is none.
    pub focus: Option<Side>,
}

/// The registers.
#[derive(Debug)]
pub struct Registers {
    /// What was taken, the latest last.
    pub ring: Vec<String>,
    /// The named ones.
    pub shelf: Vec<(char, String)>,
    /// The one that the next operation was told to use.
    pub asked: Option<char>,
}

/// What [`Registers`] holds.
#[verifier::ext_equal]
pub struct RegistersView {
    pub ring: Seq<Seq<char>>,
    pub shelf: Seq<(char, Seq<char>)>,
    pub asked: Option<char>,
}

/// What named strings hold.
pub open spec fn shelf_views(v: Seq<(char, String)>) -> Seq<(char, Seq<char>)> {
    v.map_values(|r: (char, String)| (r.0, r.1@))
}

impl View for Registers {
    type V = RegistersView;

    open spec fn view(&self) -> RegistersView {
        RegistersView {
            ring: views(self.ring@),
            shelf: shelf_views(self.shelf@),
            asked: self.asked,
        }
    }
}

impl Registers {
    /// Nothing was taken.
    pub fn new() -> (r: Registers)
        ensures
            r@ == (RegistersView { ring: Seq::empty(), shelf: Seq::empty(), asked: None }),
    {
        let r: Registers = Registers { ring: Vec::new(), shelf: Vec::new(), asked: None };
        assert(views(r.ring@) =~= Seq::empty());
        assert(shelf_views(r.shelf@) =~= Seq::empty());
        r
    }
}

/// What is remembered of what was typed.
#[derive(Debug)]
pub struct Memory {
    /// What came in during the typing session.
    pub typed: Vec<Input>,
    /// The character that was looked for last.
    pub found: Option<char>,
    /// The pattern that was looked for last.
    pub pattern: Option<String>,
    /// What keys stand for.
    pub aliases: Vec<(char, String)>,
}

/// What [`Memory`] holds.
#[verifier::ext_equal]
pub struct MemoryView {
    pub typed: Seq<InputView>,
    pub found: Option<char>,
    pub pattern: Option<Seq<char>>,
    pub aliases: Seq<(char, Seq<char>)>,
}

impl View for Memory {
    type V = MemoryView;

    open spec fn view(&self) -> MemoryView {
        MemoryView {
            typed: input_views(self.typed@),
            found: self.found,
            pattern: match self.pattern {
                Some(s) => Some(s@),
                None => None,
            },
            aliases: shelf_views(self.aliases@),
        }
    }
}

impl Memory {
    /// Nothing is remembered.
    pub fn new() -> (m: Memory)
        ensures
            m@ == (MemoryView {
                typed: Seq::empty(),
                found: None,
                pattern: None,
                aliases: Seq::empty(),
            }),
    {
        let m: Memory = Memory {
            typed: Vec::new(),
            found: None,
            pattern: None,
            aliases: Vec::new(),
        };
        assert(input_views(m.typed@) =~= Seq::empty());
        assert(shelf_views(m.aliases@) =~= Seq::empty());
        m
    }
}

/// Where things are kept.
#[derive(Debug)]
pub struct Places {
    /// Where what belongs to no book is kept.
    pub data_dir: Option<FilePath>,
    /// The directory of the book.
    pub root: FilePath,
}

/// What [`Places`] says.
#[verifier::ext_equal]
pub struct PlacesView {
    pub data_dir: Option<PathView>,
    pub root: PathView,
}

impl View for Places {
    type V = PlacesView;

    open spec fn view(&self) -> PlacesView {
        PlacesView {
            data_dir: match self.data_dir {
                Some(p) => Some(p@),
                None => None,
            },
            root: self.root@,
        }
    }
}

impl Places {
    /// Nowhere.
    pub fn new() -> (p: Places)
        ensures
            p@ == (PlacesView {
                data_dir: None,
                root: (PathView { absolute: false, parts: Seq::empty() }),
            }),
    {
        let p: Places = Places {
            data_dir: None,
            root: FilePath { absolute: false, parts: Vec::new() },
        };
        assert(views(p.root.parts@) =~= Seq::empty());
        p
    }
}

/// What the front end is asked to do.
#[derive(Debug)]
pub struct Requests {
    /// Text for the clipboard of the system.
    pub clipboard: Option<String>,
    /// Whether the clipboard of the system is asked for, to be put after the
    /// selection or before it.
    pub clipboard_read: Option<bool>,
    /// What the way of typing is to be.
    pub scheme: Option<String>,
    /// Whether candidates are to be shown taken apart.
    pub apart: Option<bool>,
}

/// What [`Requests`] says.
#[verifier::ext_equal]
pub struct RequestsView {
    pub clipboard: Option<Seq<char>>,
    pub clipboard_read: Option<bool>,
    pub scheme: Option<Seq<char>>,
    pub apart: Option<bool>,
}

/// Nothing is asked.
pub open spec fn no_requests() -> RequestsView {
    RequestsView { clipboard: None, clipboard_read: None, scheme: None, apart: None }
}

impl Requests {
    /// Nothing is asked.
    pub fn new() -> (r: Requests)
        ensures
            r@ == no_requests(),
    {
        Requests { clipboard: None, clipboard_read: None, scheme: None, apart: None }
    }
}

impl View for Requests {
    type V = RequestsView;

    open spec fn view(&self) -> RequestsView {
        RequestsView {
            clipboard: match self.clipboard {
                Some(s) => Some(s@),
                None => None,
            },
            clipboard_read: self.clipboard_read,
            scheme: match self.scheme {
                Some(s) => Some(s@),
                None => None,
            },
            apart: self.apart,
        }
    }
}

} // verus!
