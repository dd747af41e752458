//! The names of the commands.

use vstd::prelude::*;
use crate::text::{chars_of, same_text, stands_at, string_between};

verus! {

/// A command by what it does.
#[derive(Debug, Clone, Copy, PartialEq, Eq, Structural)]
pub enum Verb {
    /// Closes the buffer, or leaves.
    Quit,
    /// Leaves.
    QuitAll,
    /// Writes the buffer to its file.
    Write,
    /// An empty buffer.
    New,
    /// Closes the buffer.
    BufferClose,
    /// The next buffer.
    BufferNext,
    /// The buffer before.
    BufferPrevious,
    /// Goes to a line.
    Goto,
    /// Locks the buffer, or says whether it is.
    Readonly,
    /// Reads the buffer as another language.
    Syntax,
    /// What is selected, for the clipboard of the system.
    ClipboardYank,
    /// Waits for a reading, or sets how much of the readings is drawn.
    Ruby,
    /// Whether the readings of the one kind are drawn.
    RubyHtml,
    /// Whether the readings of the other kind are drawn.
    RubyTypst,
    /// Writes every reading in one way.
    RubyFormat,
    /// Says how much was written.
    Count,
    /// Shows the headings, or goes to one.
    Toc,
    /// Lists the conflicts.
    CheckMerge,
    /// One of the open buffers is chosen.
    Buffer,
    /// How much of the markup is drawn.
    Render,
    /// Whether wrong marks are noted.
    ViewPunct,
    /// Whether lines are folded, and where.
    ViewWrap,
    /// Whether the page is packed.
    ViewDense,
    /// Whether marks hang beside the column.
    ViewHanging,
    /// Which way the text runs.
    Layout,
    /// How far a notch of the wheel goes.
    Wheel,
    /// How typed text is taken.
    YumeCommit,
    /// Whether candidates are shown taken apart.
    YumeChaifen,
}

/// The command of a name.
pub open spec fn verb_named(name: Seq<char>) -> Option<Verb> {
    if name == "q"@ || name == "quit"@ {
        Some(Verb::Quit)
    } else if name == "qa"@ || name == "quit-all"@ {
        Some(Verb::QuitAll)
    } else if name == "w"@ || name == "write"@ {
        Some(Verb::Write)
    } else if name == "new"@ || name == "n"@ {
        Some(Verb::New)
    } else if name == "buffer-close"@ || name == "bc"@ {
        Some(Verb::BufferClose)
    } else if name == "buffer-next"@ || name == "bn"@ {
        Some(Verb::BufferNext)
    } else if name == "buffer-previous"@ || name == "bp"@ {
        Some(Verb::BufferPrevious)
    } else if name == "goto"@ {
        Some(Verb::Goto)
    } else if name == "readonly"@ || name == "ro"@ {
        Some(Verb::Readonly)
    } else if name == "syntax"@ {
        Some(Verb::Syntax)
    } else if name == "clipboard-yank"@ {
        Some(Verb::ClipboardYank)
    } else if name == "ruby"@ {
        Some(Verb::Ruby)
    } else if name == "ruby-html"@ {
        Some(Verb::RubyHtml)
    } else if name == "ruby-typst"@ {
        Some(Verb::RubyTypst)
    } else if name == "ruby-format"@ {
        Some(Verb::RubyFormat)
    } else if name == "count"@ || name == "wc"@ {
        Some(Verb::Count)
    } else if name == "toc"@ {
        Some(Verb::Toc)
    } else if name == "check-merge"@ {
        Some(Verb::CheckMerge)
    } else if name == "buffer"@ || name == "b"@ {
        Some(Verb::Buffer)
    } else if name == "render"@ {
        Some(Verb::Render)
    } else if name == "view-punct"@ {
        Some(Verb::ViewPunct)
    } else if name == "view-wrap"@ {
        Some(Verb::ViewWrap)
    } else if name == "view-dense"@ {
        Some(Verb::ViewDense)
    } else if name == "view-hanging"@ {
        Some(Verb::ViewHanging)
    } else if name == "layout"@ {
        Some(Verb::Layout)
    } else if name == "wheel"@ {
        Some(Verb::Wheel)
    } else if name == "yume-commit"@ {
        Some(Verb::YumeCommit)
    } else if name == "yume-chaifen"@ {
        Some(Verb::YumeChaifen)
    } else {
        None
    }
}

/// The command of a name.
pub fn find_verb(name: &str) -> (verb: Option<Verb>)
    ensures
        verb == verb_named(name@),
{
    if same_text(name, "q") || same_text(name, "quit") {
        Some(Verb::Quit)
    } else if same_text(name, "qa") || same_text(name, "quit-all") {
        Some(Verb::QuitAll)
    } else if same_text(name, "w") || same_text(name, "write") {
        Some(Verb::Write)
    } else if same_text(name, "new") || same_text(name, "n") {
        Some(Verb::New)
    } else if same_text(name, "buffer-close") || same_text(name, "bc") {
        Some(Verb::BufferClose)
    } else if same_text(name, "buffer-next") || same_text(name, "bn") {
        Some(Verb::BufferNext)
    } else if same_text(name, "buffer-previous") || same_text(name, "bp") {
        Some(Verb::BufferPrevious)
    } else if same_text(name, "goto") {
        Some(Verb::Goto)
    } else if same_text(name, "readonly") || same_text(name, "ro") {
        Some(Verb::Readonly)
    } else if same_text(name, "syntax") {
        Some(Verb::Syntax)
    } else if same_text(name, "clipboard-yank") {
        Some(Verb::ClipboardYank)
    } else if same_text(name, "ruby") {
        Some(Verb::Ruby)
    } else if same_text(name, "ruby-html") {
        Some(Verb::RubyHtml)
    } else if same_text(name, "ruby-typst") {
        Some(Verb::RubyTypst)
    } else if same_text(name, "ruby-format") {
        Some(Verb::RubyFormat)
    } else if same_text(name, "count") || same_text(name, "wc") {
        Some(Verb::Count)
    } else if same_text(name, "toc") {
        Some(Verb::Toc)
    } else if same_text(name, "check-merge") {
        Some(Verb::CheckMerge)
    } else if same_text(name, "buffer") || same_text(name, "b") {
        Some(Verb::Buffer)
    } else if same_text(name, "render") {
        Some(Verb::Render)
    } else if same_text(name, "view-punct") {
        Some(Verb::ViewPunct)
    } else if same_text(name, "view-wrap") {
        Some(Verb::ViewWrap)
    } else if same_text(name, "view-dense") {
        Some(Verb::ViewDense)
    } else if same_text(name, "view-hanging") {
        Some(Verb::ViewHanging)
    } else if same_text(name, "layout") {
        Some(Verb::Layout)
    } else if same_text(name, "wheel") {
        Some(Verb::Wheel)
    } else if same_text(name, "yume-commit") {
        Some(Verb::YumeCommit)
    } else if same_text(name, "yume-chaifen") {
        Some(Verb::YumeChaifen)
    } else {
        None
    }
}

/// What is missing of the first name that begins like `s`; nothing where `s` is a
/// name, or empty.
pub open spec fn guess(s: Seq<char>) -> Seq<char> {
    if s.len() == 0 || verb_named(s) is Some {
        Seq::empty()
    } else if s.is_prefix_of("quit"@) {
        "quit"@.skip(s.len() as int)
    } else if s.is_prefix_of("quit-all"@) {
        "quit-all"@.skip(s.len() as int)
    } else if s.is_prefix_of("write"@) {
        "write"@.skip(s.len() as int)
    } else if s.is_prefix_of("new"@) {
        "new"@.skip(s.len() as int)
    } else if s.is_prefix_of("buffer-close"@) {
        "buffer-close"@.skip(s.len() as int)
    } else if s.is_prefix_of("buffer-next"@) {
        "buffer-next"@.skip(s.len() as int)
    } else if s.is_prefix_of("buffer-previous"@) {
        "buffer-previous"@.skip(s.len() as int)
    } else if s.is_prefix_of("goto"@) {
        "goto"@.skip(s.len() as int)
    } else if s.is_prefix_of("readonly"@) {
        "readonly"@.skip(s.len() as int)
    } else if s.is_prefix_of("syntax"@) {
        "syntax"@.skip(s.len() as int)
    } else if s.is_prefix_of("clipboard-yank"@) {
        "clipboard-yank"@.skip(s.len() as int)
    } else if s.is_prefix_of("ruby"@) {
        "ruby"@.skip(s.len() as int)
    } else if s.is_prefix_of("ruby-html"@) {
        "ruby-html"@.skip(s.len() as int)
    } else if s.is_prefix_of("ruby-typst"@) {
        "ruby-typst"@.skip(s.len() as int)
    } else if s.is_prefix_of("ruby-format"@) {
        "ruby-format"@.skip(s.len() as int)
    } else if s.is_prefix_of("count"@) {
        "count"@.skip(s.len() as int)
    } else if s.is_prefix_of("toc"@) {
        "toc"@.skip(s.len() as int)
    } else if s.is_prefix_of("check-merge"@) {
        "check-merge"@.skip(s.len() as int)
    } else if s.is_prefix_of("buffer"@) {
        "buffer"@.skip(s.len() as int)
    } else if s.is_prefix_of("render"@) {
        "render"@.skip(s.len() as int)
    } else if s.is_prefix_of("view-punct"@) {
        "view-punct"@.skip(s.len() as int)
    } else if s.is_prefix_of("view-wrap"@) {
        "view-wrap"@.skip(s.len() as int)
    } else if s.is_prefix_of("view-dense"@) {
        "view-dense"@.skip(s.len() as int)
    } else if s.is_prefix_of("view-hanging"@) {
        "view-hanging"@.skip(s.len() as int)
    } else if s.is_prefix_of("layout"@) {
        "layout"@.skip(s.len() as int)
    } else if s.is_prefix_of("wheel"@) {
        "wheel"@.skip(s.len() as int)
    } else if s.is_prefix_of("yume-commit"@) {
        "yume-commit"@.skip(s.len() as int)
    } else if s.is_prefix_of("yume-chaifen"@) {
        "yume-chaifen"@.skip(s.len() as int)
    } else {
        Seq::empty()
    }
}

/// What is missing of `name` after `s`.
fn missing(s: &str, name: &str) -> (r: Option<String>)
    ensures
        match r {
            Some(rest) => s@.is_prefix_of(name@) && rest@ == name@.skip(s@.len() as int),
            None => !s@.is_prefix_of(name@),
        },
{
    let v: Vec<char> = chars_of(name);
    let head: Vec<char> = chars_of(s);
    assert(v@.skip(0) =~= v@);
    if stands_at(&v, 0, &head) {
        let rest: String = string_between(&v, head.len(), v.len());
        assert(rest@ =~= v@.skip(head@.len() as int));
        Some(rest)
    } else {
        None
    }
}

/// What is missing of the first name that begins like `s`.
pub fn guess_name(s: &str) -> (r: String)
    ensures
        r@ == guess(s@),
{
    let empty: String = String::new();
    assert(empty@ =~= Seq::empty());
    if s.unicode_len() == 0 || find_verb(s).is_some() {
        return empty;
    }
    if let Some(rest) = missing(s, "quit") {
        return rest;
    }
    if let Some(rest) = missing(s, "quit-all") {
        return rest;
    }
    if let Some(rest) = missing(s, "write") {
        return rest;
    }
    if let Some(rest) = missing(s, "new") {
        return rest;
    }
    if let Some(rest) = missing(s, "buffer-close") {
        return rest;
    }
    if let Some(rest) = missing(s, "buffer-next") {
        return rest;
    }
    if let Some(rest) = missing(s, "buffer-previous") {
        return rest;
    }
    if let Some(rest) = missing(s, "goto") {
        return rest;
    }
    if let Some(rest) = missing(s, "readonly") {
        return rest;
    }
    if let Some(rest) = missing(s, "syntax") {
        return rest;
    }
    if let Some(rest) = missing(s, "clipboard-yank") {
        return rest;
    }
    if let Some(rest) = missing(s, "ruby") {
        return rest;
    }
    if let Some(rest) = missing(s, "ruby-html") {
        return rest;
    }
    if let Some(rest) = missing(s, "ruby-typst") {
        return rest;
    }
    if let Some(rest) = missing(s, "ruby-format") {
        return rest;
    }
    if let Some(rest) = missing(s, "count") {
        return rest;
    }
    if let Some(rest) = missing(s, "toc") {
        return rest;
    }
    if let Some(rest) = missing(s, "check-merge") {
        return rest;
    }
    if let Some(rest) = missing(s, "buffer") {
        return rest;
    }
    if let Some(rest) = missing(s, "render") {
        return rest;
    }
    if let Some(rest) = missing(s, "view-punct") {
        return rest;
    }
    if let Some(rest) = missing(s, "view-wrap") {
        return rest;
    }
    if let Some(rest) = missing(s, "view-dense") {
        return rest;
    }
    if let Some(rest) = missing(s, "view-hanging") {
        return rest;
    }
    if let Some(rest) = missing(s, "layout") {
        return rest;
    }
    if let Some(rest) = missing(s, "wheel") {
        return rest;
    }
    if let Some(rest) = missing(s, "yume-commit") {
        return rest;
    }
    if let Some(rest) = missing(s, "yume-chaifen") {
        return rest;
    }
    empty
}

} // verus!
