//! Errors that the library reports.

use vstd::prelude::*;

verus! {

/// What went wrong while organising or undoing.
#[derive(Debug, PartialEq, Eq)]
pub enum MaidError {
    /// A file-system problem, described by its message.
    Io(String),
    /// The directory to organise is not a directory.
    InvalidDirectory(String),
    /// The last run could not be undone.
    UndoFailed(String),
    /// The configuration file could not be read.
    ConfigError(String),
}

/// The message shown for an error: its kind, a colon, and its detail.
pub open spec fn message_spec(e: MaidError) -> Seq<char> {
    match e {
        MaidError::Io(m) => "IO error: "@ + m@,
        MaidError::InvalidDirectory(p) => "Invalid directory: "@ + p@,
        MaidError::UndoFailed(r) => "Undo failed: "@ + r@,
        MaidError::ConfigError(r) => "Config error: "@ + r@,
    }
}

impl MaidError {
    /// The message shown for this error.
    pub fn message(&self) -> (r: String)
        ensures
            r@ == message_spec(*self),
    {
        let (kind, detail) = match self {
            MaidError::Io(m) => ("IO error: ", m.as_str()),
            MaidError::InvalidDirectory(p) => ("Invalid directory: ", p.as_str()),
            MaidError::UndoFailed(r) => ("Undo failed: ", r.as_str()),
            MaidError::ConfigError(r) => ("Config error: ", r.as_str()),
        };
        let mut r = String::from_str(kind);
        r.append(detail);
        r
    }
}

} // verus!
