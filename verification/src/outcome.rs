//! How a command ends.

use vstd::prelude::*;

verus! {

/// Whether the editor goes on.
#[derive(Debug, Clone, Copy, PartialEq, Eq, Structural)]
pub enum CommandOutcome {
    Continue,
    Quit,
    /// The buffer on the page is to be written to its file.
    Write,
}

/// Why a command was not understood.
#[derive(Debug, PartialEq, Eq)]
pub enum CommandError {
    /// There is no such command.
    Unknown(String),
    /// The command does not take this.
    Argument(String),
}

/// Why a command was not done.
#[derive(Debug, PartialEq, Eq)]
pub enum EditorError {
    /// There are changes that were not saved.
    UnsavedChanges,
    /// The buffer has no file to be written to.
    NoFileName,
    Command(CommandError),
}

/// What an [`EditorError`] says.
pub enum ErrorView {
    UnsavedChanges,
    NoFileName,
    Unknown(Seq<char>),
    Argument(Seq<char>),
}

impl View for EditorError {
    type V = ErrorView;

    open spec fn view(&self) -> ErrorView {
        match *self {
            EditorError::UnsavedChanges => ErrorView::UnsavedChanges,
            EditorError::NoFileName => ErrorView::NoFileName,
            EditorError::Command(CommandError::Unknown(s)) => ErrorView::Unknown(s@),
            EditorError::Command(CommandError::Argument(s)) => ErrorView::Argument(s@),
        }
    }
}

/// How a command ended.
pub open spec fn ending(r: Result<CommandOutcome, EditorError>) -> Result<CommandOutcome, ErrorView> {
    match r {
        Ok(o) => Ok(o),
        Err(e) => Err(e@),
    }
}

} // verus!
