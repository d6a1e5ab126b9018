//! What can go wrong, as the library reports it.

use vstd::prelude::*;

verus! {

/// An error of the library.
#[derive(Debug)]
pub enum FiniError {
    /// A date that could not be read; the text that was read.
    InvalidDate(String),
    /// No task has the id that was asked for.
    TaskNotFound,
    /// No task has the id that was to be edited.
    NoTaskToEdit,
    /// Asking the user failed, for the reason given.
    Prompt(String),
    /// Reading or writing the task store failed, for the reason given.
    Store(String),
    /// Copying to the clipboard failed, for the reason given.
    Clipboard(String),
    /// Opening a link failed, for the reason given.
    Browser(String),
}

} // verus!
