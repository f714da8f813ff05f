//! The ways in which creating the table, scanning the directory or reading
//! a column can fail.

use crate::text::{decimal, decimal_text};
use vstd::prelude::*;
use vstd::string::*;

verus! {

/// A failure of the table, with what it needs to describe itself.
#[derive(Debug, PartialEq, Eq)]
pub enum VtabError {
    /// No `dirname` was given.
    MissingArgument,
    /// The value of `dirname` is not a quoted string.
    InvalidConfigValue,
    /// An argument could not be parsed; the text says why.
    MalformedArgument(String),
    /// The directory of this path does not exist.
    PathNotFound(String),
    /// The file at `path` could not be read; `reason` says why.
    IoFailure { path: String, reason: String },
    /// A column was asked for that the table does not have.
    ColumnIndexOutOfRange(i32),
}

/// A failure of the table over plain text.
pub enum ErrorView {
    MissingArgument,
    InvalidConfigValue,
    MalformedArgument(Seq<char>),
    PathNotFound(Seq<char>),
    IoFailure { path: Seq<char>, reason: Seq<char> },
    ColumnIndexOutOfRange(int),
}

impl View for VtabError {
    type V = ErrorView;

    open spec fn view(&self) -> ErrorView {
        match self {
            VtabError::MissingArgument => ErrorView::MissingArgument,
            VtabError::InvalidConfigValue => ErrorView::InvalidConfigValue,
            VtabError::MalformedArgument(reason) => ErrorView::MalformedArgument(reason@),
            VtabError::PathNotFound(path) => ErrorView::PathNotFound(path@),
            VtabError::IoFailure { path, reason } => ErrorView::IoFailure {
                path: path@,
                reason: reason@,
            },
            VtabError::ColumnIndexOutOfRange(index) => ErrorView::ColumnIndexOutOfRange(
                *index as int,
            ),
        }
    }
}

/// What a failure says of itself.
pub open spec fn message_text(error: ErrorView) -> Seq<char> {
    match error {
        ErrorView::MissingArgument =>
            "no dirname given. Specify a path to a directory containing an obsidian vault to read from. E.g. 'dirname=\"my_vault\"'"@,
        ErrorView::InvalidConfigValue =>
            "'dirname' value must be a string. Wrap in single or double quotes."@,
        ErrorView::MalformedArgument(reason) => reason,
        ErrorView::PathNotFound(path) => "dir '"@ + path + "' does not exist"@,
        ErrorView::IoFailure { path, reason } => reason,
        ErrorView::ColumnIndexOutOfRange(index) => "column index out of bounds: "@ + decimal(
            index,
        ),
    }
}

impl VtabError {
    /// The message that describes the failure.
    pub fn message(&self) -> (text: String)
        ensures
            text@ == message_text(self@),
    {
        match self {
            VtabError::MissingArgument => String::from_str(
                "no dirname given. Specify a path to a directory containing an obsidian vault to read from. E.g. 'dirname=\"my_vault\"'",
            ),
            VtabError::InvalidConfigValue => String::from_str(
                "'dirname' value must be a string. Wrap in single or double quotes.",
            ),
            VtabError::MalformedArgument(reason) => reason.clone(),
            VtabError::PathNotFound(path) => {
                let mut text = String::from_str("dir '");
                text.append(path.as_str());
                text.append("' does not exist");
                text
            },
            VtabError::IoFailure { path, reason } => reason.clone(),
            VtabError::ColumnIndexOutOfRange(index) => {
                let mut text = String::from_str("column index out of bounds: ");
                text.append(decimal_text(*index).as_str());
                text
            },
        }
    }
}

} // verus!
