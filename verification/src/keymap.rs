//! Which key does what.

use vstd::prelude::*;
use crate::case::Case;
use crate::conflict::Keep;
use crate::editor::Key;
use crate::moves::Motion;
use crate::units::Unit;

verus! {

/// Which way the text runs.
#[derive(Debug, Clone, Copy, PartialEq, Eq, Structural)]
pub enum Layout {
    Horizontal,
    /// Down the page, the next line to the left.
    Vertical,
}

/// What the next key is waited for by.
#[derive(Debug, Clone, Copy, PartialEq, Eq, Structural)]
pub enum Pending {
    /// Nothing: a key is a command of its own.
    Idle,
    Goto,
    Space,
    Match,
    Case,
    Next,
    Previous,
    /// What is kept of a conflict.
    Merge,
    /// A character to look for.
    Find,
    /// A character to write over the selection.
    Replace,
    /// The name of a register.
    Register,
    /// The pair whose inside is to be selected.
    Inside,
    /// The pair to be selected.
    Around,
    /// The pair to be put round the selection.
    Surround,
    /// The pair to be replaced.
    Resurround,
    /// The pair to put in its place.
    ResurroundBy(char),
}

/// Where to find what a key of another editor does.
#[derive(Debug, Clone, Copy, PartialEq, Eq, Structural)]
pub enum Hint {
    LineStart,
    LineEnd,
    LineText,
    Macro,
    Sentence,
    Redo,
    Comment,
    Case,
    Definition,
}

/// What a key does.
#[derive(Debug, Clone, Copy, PartialEq, Eq, Structural)]
pub enum Act {
    Nothing,
    Move(Motion),
    /// Half a page down, or up.
    HalfPage(bool),
    WholePage(bool),
    /// To the first line, or the line the count says.
    ToFirst,
    /// To the last line, or the line the count says.
    ToLast,
    Insert,
    Append,
    /// Typing before the first text of the line.
    InsertText,
    /// Typing at the end of the line.
    AppendEnd,
    /// Typing on a new line below, or above.
    Open(bool),
    /// Typing in place of the selection, which is kept or not.
    Change(bool),
    Delete(bool),
    Yank,
    /// After the selection, or before it.
    Paste(bool),
    SelectLine,
    SelectLines,
    SelectAll,
    Flip,
    Extend,
    Indent(bool),
    Casing(Case),
    ReplaceRegister,
    /// Up, or down.
    Bump(bool),
    Undo,
    Redo,
    Join,
    Wait(Pending),
    FindAgain,
    /// The last pattern again, forward or back.
    Again(bool),
    AskPattern,
    AskCommand,
    Record,
    Replay,
    Dot,
    Escape,
    MatchBracket,
    Unsurround,
    /// To the next buffer, or the one before.
    Turn(bool),
    ClipboardYank,
    ClipboardPaste(bool),
    /// A reading is waited for.
    AskReading,
    /// One of the open buffers is chosen.
    PickBuffer,
    /// Each line becomes a comment, or all as one.
    Comment(bool),
    Keep(Keep),
    /// To the next conflict, or the one before.
    Conflict(bool),
    Hint(Hint),
}

/// What a key does on its own.
pub open spec fn bound(key: Key, layout: Layout) -> Act {
    if key == Key::Char('h') {
        if layout == Layout::Vertical { Act::Move(Motion::Down(1)) } else { Act::Move(Motion::Left) }
    } else if key == Key::Char('l') {
        if layout == Layout::Vertical { Act::Move(Motion::Up(1)) } else { Act::Move(Motion::Right) }
    } else if key == Key::Char('j') {
        if layout == Layout::Vertical { Act::Move(Motion::Right) } else { Act::Move(Motion::Down(1)) }
    } else if key == Key::Char('k') {
        if layout == Layout::Vertical { Act::Move(Motion::Left) } else { Act::Move(Motion::Up(1)) }
    } else if key == Key::Left {
        Act::Move(Motion::Left)
    } else if key == Key::Right {
        Act::Move(Motion::Right)
    } else if key == Key::Down {
        Act::Move(Motion::Down(1))
    } else if key == Key::Up {
        Act::Move(Motion::Up(1))
    } else if key == Key::Char('w') {
        Act::Move(Motion::Forth(Unit::Word))
    } else if key == Key::Char('e') {
        Act::Move(Motion::Forth(Unit::Clause))
    } else if key == Key::Char('b') {
        Act::Move(Motion::Back(Unit::ClauseHead))
    } else if key == Key::Char('L') {
        Act::Move(Motion::Forth(Unit::Sentence))
    } else if key == Key::Char('H') {
        Act::Move(Motion::Back(Unit::Sentence))
    } else if key == Key::Char('}') {
        Act::Move(Motion::Forth(Unit::Paragraph))
    } else if key == Key::Char('{') {
        Act::Move(Motion::Back(Unit::Paragraph))
    } else if key == Key::Home {
        Act::Move(Motion::LineStart)
    } else if key == Key::End {
        Act::Move(Motion::LineEnd)
    } else if key == Key::Char('J') || key == Key::Ctrl('d') {
        Act::HalfPage(true)
    } else if key == Key::Char('K') || key == Key::Ctrl('u') {
        Act::HalfPage(false)
    } else if key == Key::PageDown || key == Key::Ctrl('f') {
        Act::WholePage(true)
    } else if key == Key::PageUp || key == Key::Ctrl('b') {
        Act::WholePage(false)
    } else if key == Key::Char('G') {
        Act::ToLast
    } else if key == Key::Char('i') {
        Act::Insert
    } else if key == Key::Char('a') {
        Act::Append
    } else if key == Key::Char('I') {
        Act::InsertText
    } else if key == Key::Char('A') {
        Act::AppendEnd
    } else if key == Key::Char('o') {
        Act::Open(true)
    } else if key == Key::Char('O') {
        Act::Open(false)
    } else if key == Key::Char('c') {
        Act::Change(true)
    } else if key == Key::Alt('c') {
        Act::Change(false)
    } else if key == Key::Char('d') || key == Key::Delete {
        Act::Delete(true)
    } else if key == Key::Alt('d') {
        Act::Delete(false)
    } else if key == Key::Char('y') {
        Act::Yank
    } else if key == Key::Char('p') {
        Act::Paste(true)
    } else if key == Key::Char('P') {
        Act::Paste(false)
    } else if key == Key::Char('x') {
        Act::SelectLine
    } else if key == Key::Char('X') {
        Act::SelectLines
    } else if key == Key::Char('%') {
        Act::SelectAll
    } else if key == Key::Alt(';') {
        Act::Flip
    } else if key == Key::Char('v') {
        Act::Extend
    } else if key == Key::Char('>') {
        Act::Indent(true)
    } else if key == Key::Char('<') {
        Act::Indent(false)
    } else if key == Key::Char('~') {
        Act::Casing(Case::Swap)
    } else if key == Key::Char('`') {
        Act::Wait(Pending::Case)
    } else if key == Key::Char('r') {
        Act::Wait(Pending::Replace)
    } else if key == Key::Char('R') {
        Act::ReplaceRegister
    } else if key == Key::Ctrl('a') {
        Act::Bump(true)
    } else if key == Key::Ctrl('x') {
        Act::Bump(false)
    } else if key == Key::Char('u') {
        Act::Undo
    } else if key == Key::Char('U') {
        Act::Redo
    } else if key == Key::Char('g') {
        Act::Wait(Pending::Goto)
    } else if key == Key::Char('m') {
        Act::Wait(Pending::Match)
    } else if key == Key::Char(' ') {
        Act::Wait(Pending::Space)
    } else if key == Key::Char('f') {
        Act::Wait(Pending::Find)
    } else if key == Key::Char('"') {
        Act::Wait(Pending::Register)
    } else if key == Key::Char(']') {
        Act::Wait(Pending::Next)
    } else if key == Key::Char('[') {
        Act::Wait(Pending::Previous)
    } else if key == Key::Alt('.') {
        Act::FindAgain
    } else if key == Key::Char('n') {
        Act::Again(true)
    } else if key == Key::Char('N') {
        Act::Again(false)
    } else if key == Key::Char('/') {
        Act::AskPattern
    } else if key == Key::Char(':') {
        Act::AskCommand
    } else if key == Key::Char('Q') {
        Act::Record
    } else if key == Key::Char('q') {
        Act::Replay
    } else if key == Key::Char('.') {
        Act::Dot
    } else if key == Key::Esc {
        Act::Escape
    } else if key == Key::Char('$') {
        Act::Hint(Hint::LineEnd)
    } else if key == Key::Char('^') {
        Act::Hint(Hint::LineText)
    } else if key == Key::Char('@') {
        Act::Hint(Hint::Macro)
    } else if key == Key::Char('(') || key == Key::Char(')') {
        Act::Hint(Hint::Sentence)
    } else if key == Key::Char('0') {
        Act::Hint(Hint::LineStart)
    } else if key == Key::Ctrl('r') {
        Act::Hint(Hint::Redo)
    } else if key == Key::Ctrl('c') {
        Act::Hint(Hint::Comment)
    } else if key == Key::Alt('`') {
        Act::Hint(Hint::Case)
    } else {
        Act::Nothing
    }
}

/// What a key does on its own.
pub fn bind(key: Key, layout: Layout) -> (act: Act)
    ensures
        act == bound(key, layout),
{
    if key == Key::Char('h') {
        if layout == Layout::Vertical { Act::Move(Motion::Down(1)) } else { Act::Move(Motion::Left) }
    } else if key == Key::Char('l') {
        if layout == Layout::Vertical { Act::Move(Motion::Up(1)) } else { Act::Move(Motion::Right) }
    } else if key == Key::Char('j') {
        if layout == Layout::Vertical { Act::Move(Motion::Right) } else { Act::Move(Motion::Down(1)) }
    } else if key == Key::Char('k') {
        if layout == Layout::Vertical { Act::Move(Motion::Left) } else { Act::Move(Motion::Up(1)) }
    } else if key == Key::Left {
        Act::Move(Motion::Left)
    } else if key == Key::Right {
        Act::Move(Motion::Right)
    } else if key == Key::Down {
        Act::Move(Motion::Down(1))
    } else if key == Key::Up {
        Act::Move(Motion::Up(1))
    } else if key == Key::Char('w') {
        Act::Move(Motion::Forth(Unit::Word))
    } else if key == Key::Char('e') {
        Act::Move(Motion::Forth(Unit::Clause))
    } else if key == Key::Char('b') {
        Act::Move(Motion::Back(Unit::ClauseHead))
    } else if key == Key::Char('L') {
        Act::Move(Motion::Forth(Unit::Sentence))
    } else if key == Key::Char('H') {
        Act::Move(Motion::Back(Unit::Sentence))
    } else if key == Key::Char('}') {
        Act::Move(Motion::Forth(Unit::Paragraph))
    } else if key == Key::Char('{') {
        Act::Move(Motion::Back(Unit::Paragraph))
    } else if key == Key::Home {
        Act::Move(Motion::LineStart)
    } else if key == Key::End {
        Act::Move(Motion::LineEnd)
    } else if key == Key::Char('J') || key == Key::Ctrl('d') {
        Act::HalfPage(true)
    } else if key == Key::Char('K') || key == Key::Ctrl('u') {
        Act::HalfPage(false)
    } else if key == Key::PageDown || key == Key::Ctrl('f') {
        Act::WholePage(true)
    } else if key == Key::PageUp || key == Key::Ctrl('b') {
        Act::WholePage(false)
    } else if key == Key::Char('G') {
        Act::ToLast
    } else if key == Key::Char('i') {
        Act::Insert
    } else if key == Key::Char('a') {
        Act::Append
    } else if key == Key::Char('I') {
        Act::InsertText
    } else if key == Key::Char('A') {
        Act::AppendEnd
    } else if key == Key::Char('o') {
        Act::Open(true)
    } else if key == Key::Char('O') {
        Act::Open(false)
    } else if key == Key::Char('c') {
        Act::Change(true)
    } else if key == Key::Alt('c') {
        Act::Change(false)
    } else if key == Key::Char('d') || key == Key::Delete {
        Act::Delete(true)
    } else if key == Key::Alt('d') {
        Act::Delete(false)
    } else if key == Key::Char('y') {
        Act::Yank
    } else if key == Key::Char('p') {
        Act::Paste(true)
    } else if key == Key::Char('P') {
        Act::Paste(false)
    } else if key == Key::Char('x') {
        Act::SelectLine
    } else if key == Key::Char('X') {
        Act::SelectLines
    } else if key == Key::Char('%') {
        Act::SelectAll
    } else if key == Key::Alt(';') {
        Act::Flip
    } else if key == Key::Char('v') {
        Act::Extend
    } else if key == Key::Char('>') {
        Act::Indent(true)
    } else if key == Key::Char('<') {
        Act::Indent(false)
    } else if key == Key::Char('~') {
        Act::Casing(Case::Swap)
    } else if key == Key::Char('`') {
        Act::Wait(Pending::Case)
    } else if key == Key::Char('r') {
        Act::Wait(Pending::Replace)
    } else if key == Key::Char('R') {
        Act::ReplaceRegister
    } else if key == Key::Ctrl('a') {
        Act::Bump(true)
    } else if key == Key::Ctrl('x') {
        Act::Bump(false)
    } else if key == Key::Char('u') {
        Act::Undo
    } else if key == Key::Char('U') {
        Act::Redo
    } else if key == Key::Char('g') {
        Act::Wait(Pending::Goto)
    } else if key == Key::Char('m') {
        Act::Wait(Pending::Match)
    } else if key == Key::Char(' ') {
        Act::Wait(Pending::Space)
    } else if key == Key::Char('f') {
        Act::Wait(Pending::Find)
    } else if key == Key::Char('"') {
        Act::Wait(Pending::Register)
    } else if key == Key::Char(']') {
        Act::Wait(Pending::Next)
    } else if key == Key::Char('[') {
        Act::Wait(Pending::Previous)
    } else if key == Key::Alt('.') {
        Act::FindAgain
    } else if key == Key::Char('n') {
        Act::Again(true)
    } else if key == Key::Char('N') {
        Act::Again(false)
    } else if key == Key::Char('/') {
        Act::AskPattern
    } else if key == Key::Char(':') {
        Act::AskCommand
    } else if key == Key::Char('Q') {
        Act::Record
    } else if key == Key::Char('q') {
        Act::Replay
    } else if key == Key::Char('.') {
        Act::Dot
    } else if key == Key::Esc {
        Act::Escape
    } else if key == Key::Char('$') {
        Act::Hint(Hint::LineEnd)
    } else if key == Key::Char('^') {
        Act::Hint(Hint::LineText)
    } else if key == Key::Char('@') {
        Act::Hint(Hint::Macro)
    } else if key == Key::Char('(') || key == Key::Char(')') {
        Act::Hint(Hint::Sentence)
    } else if key == Key::Char('0') {
        Act::Hint(Hint::LineStart)
    } else if key == Key::Ctrl('r') {
        Act::Hint(Hint::Redo)
    } else if key == Key::Ctrl('c') {
        Act::Hint(Hint::Comment)
    } else if key == Key::Alt('`') {
        Act::Hint(Hint::Case)
    } else {
        Act::Nothing
    }
}

/// What a key does after `g`.
pub open spec fn bound_goto(c: char) -> Act {
    if c == 'g' {
        Act::ToFirst
    } else if c == 'e' {
        Act::ToLast
    } else if c == 'h' {
        Act::Move(Motion::LineStart)
    } else if c == 'l' {
        Act::Move(Motion::LineEnd)
    } else if c == 's' {
        Act::Move(Motion::LineText)
    } else if c == 'n' {
        Act::Turn(true)
    } else if c == 'p' {
        Act::Turn(false)
    } else if c == 'J' {
        Act::Join
    } else if c == 'w' {
        Act::Hint(Hint::Definition)
    } else {
        Act::Nothing
    }
}

/// What a key does after `g`.
pub fn bind_goto(c: char) -> (act: Act)
    ensures
        act == bound_goto(c),
{
    if c == 'g' {
        Act::ToFirst
    } else if c == 'e' {
        Act::ToLast
    } else if c == 'h' {
        Act::Move(Motion::LineStart)
    } else if c == 'l' {
        Act::Move(Motion::LineEnd)
    } else if c == 's' {
        Act::Move(Motion::LineText)
    } else if c == 'n' {
        Act::Turn(true)
    } else if c == 'p' {
        Act::Turn(false)
    } else if c == 'J' {
        Act::Join
    } else if c == 'w' {
        Act::Hint(Hint::Definition)
    } else {
        Act::Nothing
    }
}

/// What a key does after a space.
pub open spec fn bound_space(c: char) -> Act {
    if c == 'y' {
        Act::ClipboardYank
    } else if c == 'p' {
        Act::ClipboardPaste(true)
    } else if c == 'P' {
        Act::ClipboardPaste(false)
    } else if c == 'r' {
        Act::AskReading
    } else if c == 'b' {
        Act::PickBuffer
    } else if c == 'c' {
        Act::Comment(false)
    } else if c == 'C' {
        Act::Comment(true)
    } else if c == 'm' {
        Act::Wait(Pending::Merge)
    } else {
        Act::Nothing
    }
}

/// What a key does after a space.
pub fn bind_space(c: char) -> (act: Act)
    ensures
        act == bound_space(c),
{
    if c == 'y' {
        Act::ClipboardYank
    } else if c == 'p' {
        Act::ClipboardPaste(true)
    } else if c == 'P' {
        Act::ClipboardPaste(false)
    } else if c == 'r' {
        Act::AskReading
    } else if c == 'b' {
        Act::PickBuffer
    } else if c == 'c' {
        Act::Comment(false)
    } else if c == 'C' {
        Act::Comment(true)
    } else if c == 'm' {
        Act::Wait(Pending::Merge)
    } else {
        Act::Nothing
    }
}

/// What a key does after a space and `m`.
pub open spec fn bound_merge(c: char) -> Act {
    if c == 'o' {
        Act::Keep(Keep::Ours)
    } else if c == 't' {
        Act::Keep(Keep::Theirs)
    } else if c == 'b' {
        Act::Keep(Keep::Both)
    } else {
        Act::Nothing
    }
}

/// What a key does after a space and `m`.
pub fn bind_merge(c: char) -> (act: Act)
    ensures
        act == bound_merge(c),
{
    if c == 'o' {
        Act::Keep(Keep::Ours)
    } else if c == 't' {
        Act::Keep(Keep::Theirs)
    } else if c == 'b' {
        Act::Keep(Keep::Both)
    } else {
        Act::Nothing
    }
}

/// What a key does after a bracket.
pub open spec fn bound_bracket(c: char, forward: bool) -> Act {
    if c == 'c' {
        Act::Conflict(forward)
    } else {
        Act::Nothing
    }
}

/// What a key does after a bracket.
pub fn bind_bracket(c: char, forward: bool) -> (act: Act)
    ensures
        act == bound_bracket(c, forward),
{
    if c == 'c' {
        Act::Conflict(forward)
    } else {
        Act::Nothing
    }
}

/// What a key does after `m`.
pub open spec fn bound_match(c: char) -> Act {
    if c == 'm' {
        Act::MatchBracket
    } else if c == 'i' {
        Act::Wait(Pending::Inside)
    } else if c == 'a' {
        Act::Wait(Pending::Around)
    } else if c == 's' {
        Act::Wait(Pending::Surround)
    } else if c == 'd' {
        Act::Unsurround
    } else if c == 'r' {
        Act::Wait(Pending::Resurround)
    } else {
        Act::Nothing
    }
}

/// What a key does after `m`.
pub fn bind_match(c: char) -> (act: Act)
    ensures
        act == bound_match(c),
{
    if c == 'm' {
        Act::MatchBracket
    } else if c == 'i' {
        Act::Wait(Pending::Inside)
    } else if c == 'a' {
        Act::Wait(Pending::Around)
    } else if c == 's' {
        Act::Wait(Pending::Surround)
    } else if c == 'd' {
        Act::Unsurround
    } else if c == 'r' {
        Act::Wait(Pending::Resurround)
    } else {
        Act::Nothing
    }
}

/// What a key does after a backtick.
pub open spec fn bound_case(c: char) -> Act {
    if c == 'l' {
        Act::Casing(Case::Lower)
    } else if c == 'u' {
        Act::Casing(Case::Upper)
    } else if c == '`' {
        Act::Casing(Case::Swap)
    } else {
        Act::Nothing
    }
}

/// What a key does after a backtick.
pub fn bind_case(c: char) -> (act: Act)
    ensures
        act == bound_case(c),
{
    if c == 'l' {
        Act::Casing(Case::Lower)
    } else if c == 'u' {
        Act::Casing(Case::Upper)
    } else if c == '`' {
        Act::Casing(Case::Swap)
    } else {
        Act::Nothing
    }
}

} // verus!
