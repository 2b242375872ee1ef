//! The error type that every fallible operation of the editor reports.

use crate::text::{decimal, owned, push_decimal};
use vstd::prelude::*;

verus! {

pub type Result<T> = std::result::Result<T, BlitzError>;

/// Everything that can go wrong. Paths and system errors are kept as the text
/// that is shown to the user.
#[derive(Clone, Debug, PartialEq, Eq)]
pub enum BlitzError {
    Io { path: String, source: String },
    PlainIo(String),
    InvalidRange { start: usize, end: usize, len: usize },
    InvalidCharBoundary { offset: usize },
    MissingSavePath,
    Encoding(String),
    Settings(String),
    Window(String),
}

/// An error as a mathematical value.
pub enum ErrorModel {
    Io { path: Seq<char>, source: Seq<char> },
    PlainIo(Seq<char>),
    InvalidRange { start: int, end: int, len: int },
    InvalidCharBoundary { offset: int },
    MissingSavePath,
    Encoding(Seq<char>),
    Settings(Seq<char>),
    Window(Seq<char>),
}

impl View for BlitzError {
    type V = ErrorModel;

    open spec fn view(&self) -> ErrorModel {
        match *self {
            BlitzError::Io { path, source } => ErrorModel::Io { path: path@, source: source@ },
            BlitzError::PlainIo(text) => ErrorModel::PlainIo(text@),
            BlitzError::InvalidRange { start, end, len } => ErrorModel::InvalidRange {
                start: start as int,
                end: end as int,
                len: len as int,
            },
            BlitzError::InvalidCharBoundary { offset } => ErrorModel::InvalidCharBoundary {
                offset: offset as int,
            },
            BlitzError::MissingSavePath => ErrorModel::MissingSavePath,
            BlitzError::Encoding(text) => ErrorModel::Encoding(text@),
            BlitzError::Settings(text) => ErrorModel::Settings(text@),
            BlitzError::Window(text) => ErrorModel::Window(text@),
        }
    }
}

/// `result` fails with `error`, or succeeds where there is none.
pub open spec fn fails_as<T>(result: Result<T>, error: Option<ErrorModel>) -> bool {
    match result {
        Ok(_) => error is None,
        Err(e) => error == Some(e@),
    }
}

/// The message shown for an error.
pub open spec fn error_message(error: ErrorModel) -> Seq<char> {
    match error {
        ErrorModel::Io { path, source } => "I/O error for "@ + path + ": "@ + source,
        ErrorModel::PlainIo(text) => "I/O error: "@ + text,
        ErrorModel::InvalidRange { start, end, len } => "invalid edit range "@ + decimal(start)
            + ".."@ + decimal(end) + " for document length "@ + decimal(len),
        ErrorModel::InvalidCharBoundary { offset } => "offset "@ + decimal(offset)
            + " is not a UTF-8 character boundary"@,
        ErrorModel::MissingSavePath => "cannot save an untitled document without a target path"@,
        ErrorModel::Encoding(text) => "encoding error: "@ + text,
        ErrorModel::Settings(text) => "settings error: "@ + text,
        ErrorModel::Window(text) => "window error: "@ + text,
    }
}

impl BlitzError {
    /// The message shown to the user.
    pub fn message(&self) -> (text: String)
        ensures
            text@ == error_message(self@),
    {
        match self {
            BlitzError::Io { path, source } => {
                let mut text = owned("I/O error for ");
                text.append(path.as_str());
                text.append(": ");
                text.append(source.as_str());
                text
            },
            BlitzError::PlainIo(source) => {
                let mut text = owned("I/O error: ");
                text.append(source.as_str());
                text
            },
            BlitzError::InvalidRange { start, end, len } => {
                let mut text = owned("invalid edit range ");
                push_decimal(&mut text, *start);
                text.append("..");
                push_decimal(&mut text, *end);
                text.append(" for document length ");
                push_decimal(&mut text, *len);
                text
            },
            BlitzError::InvalidCharBoundary { offset } => {
                let mut text = owned("offset ");
                push_decimal(&mut text, *offset);
                text.append(" is not a UTF-8 character boundary");
                text
            },
            BlitzError::MissingSavePath => owned(
                "cannot save an untitled document without a target path",
            ),
            BlitzError::Encoding(detail) => {
                let mut text = owned("encoding error: ");
                text.append(detail.as_str());
                text
            },
            BlitzError::Settings(detail) => {
                let mut text = owned("settings error: ");
                text.append(detail.as_str());
                text
            },
            BlitzError::Window(detail) => {
                let mut text = owned("window error: ");
                text.append(detail.as_str());
                text
            },
        }
    }
}

/// An I/O failure on the file at `path`.
pub fn io_path(path: String, source: String) -> (error: BlitzError)
    ensures
        error == (BlitzError::Io { path, source }),
{
    BlitzError::Io { path, source }
}

} // verus!
