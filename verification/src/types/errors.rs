//! The closed set of failures that a batch can end in.

use crate::text::concat2;
use vstd::prelude::*;
use vstd::string::*;

verus! {

/// Why a batch, or a step of it, failed. Each kind carries the text that
/// describes the failure.
#[derive(Debug, PartialEq, Eq)]
pub enum Error {
    /// A directory or file operation failed; the text names the path.
    Io(String),
    /// A coverage report could not be read as structured data.
    Json(String),
    /// The output of a tool was not valid UTF-8.
    Utf8(String),
    /// The coverage executor ended unsuccessfully for a test.
    TarpaulinFailed(String),
    /// The build system, or another tool, could not be run or ended unsuccessfully.
    CommandFailed(String),
    /// The selection of tests was unusable.
    Input(String),
}

/// The kinds of failure.
#[derive(Debug, Clone, Copy, PartialEq, Eq, Structural)]
pub enum ErrorKind {
    Io,
    Json,
    Utf8,
    TarpaulinFailed,
    CommandFailed,
    Input,
}

/// An error as a value of its kind and its text.
pub struct ErrorView {
    pub kind: ErrorKind,
    pub detail: Seq<char>,
}

impl View for Error {
    type V = ErrorView;

    open spec fn view(&self) -> ErrorView {
        match self {
            Error::Io(m) => ErrorView { kind: ErrorKind::Io, detail: m@ },
            Error::Json(m) => ErrorView { kind: ErrorKind::Json, detail: m@ },
            Error::Utf8(m) => ErrorView { kind: ErrorKind::Utf8, detail: m@ },
            Error::TarpaulinFailed(m) => ErrorView { kind: ErrorKind::TarpaulinFailed, detail: m@ },
            Error::CommandFailed(m) => ErrorView { kind: ErrorKind::CommandFailed, detail: m@ },
            Error::Input(m) => ErrorView { kind: ErrorKind::Input, detail: m@ },
        }
    }
}

/// The words that introduce the text of each kind of error.
pub open spec fn error_prefix(kind: ErrorKind) -> Seq<char> {
    match kind {
        ErrorKind::Io => "IO error: "@,
        ErrorKind::Json => "JSON error: "@,
        ErrorKind::Utf8 => "UTF-8 error: "@,
        ErrorKind::TarpaulinFailed => "Tarpaulin failed: "@,
        ErrorKind::CommandFailed => "Command failed: "@,
        ErrorKind::Input => Seq::empty(),
    }
}

impl Error {
    /// The kind of the error.
    pub fn kind(&self) -> (kind: ErrorKind)
        ensures
            kind == self@.kind,
    {
        match self {
            Error::Io(_) => ErrorKind::Io,
            Error::Json(_) => ErrorKind::Json,
            Error::Utf8(_) => ErrorKind::Utf8,
            Error::TarpaulinFailed(_) => ErrorKind::TarpaulinFailed,
            Error::CommandFailed(_) => ErrorKind::CommandFailed,
            Error::Input(_) => ErrorKind::Input,
        }
    }

    /// The text that the error carries.
    pub fn detail(&self) -> (text: &String)
        ensures
            text@ == self@.detail,
    {
        match self {
            Error::Io(m) => m,
            Error::Json(m) => m,
            Error::Utf8(m) => m,
            Error::TarpaulinFailed(m) => m,
            Error::CommandFailed(m) => m,
            Error::Input(m) => m,
        }
    }

    /// The line shown to the user: the kind's prefix, then the detail.
    pub fn message(&self) -> (out: String)
        ensures
            out@ == error_prefix(self@.kind) + self@.detail,
    {
        match self {
            Error::Io(m) => concat2("IO error: ", m.as_str()),
            Error::Json(m) => concat2("JSON error: ", m.as_str()),
            Error::Utf8(m) => concat2("UTF-8 error: ", m.as_str()),
            Error::TarpaulinFailed(m) => concat2("Tarpaulin failed: ", m.as_str()),
            Error::CommandFailed(m) => concat2("Command failed: ", m.as_str()),
            Error::Input(m) => m.clone(),
        }
    }
}

} // verus!
