//! The errors of the library.

use vstd::prelude::*;

verus! {

/// What can go wrong. Arguments are checked before any note is read; a
/// storage failure names the path at which it happened.
#[derive(Debug, Clone, PartialEq, Eq)]
pub enum Error {
    /// A file or directory could not be read or written.
    Io { path: String, message: String },
    /// No file at this path.
    NotFound(String),
    /// A sort order names a field that does not exist.
    UnknownSortField(String),
    /// A status filter that is none of `open`, `completed`, `done`,
    /// `migrated`, `all`.
    InvalidStatusFilter(String),
    /// A direction that is neither `prev` nor `next`.
    InvalidDirection(String),
    /// A task identifier that does not read `<file stem>#<index>`.
    InvalidTaskId(String),
    /// A text that names no day, week or quarter.
    InvalidPeriod(String),
    /// A note is already stored at this path.
    NoteExists(String),
    /// No template of this name.
    TemplateNotFound(String),
    /// The notes directory holds no configuration file.
    ConfigNotFound,
    /// The configuration file at this path cannot be used.
    ConfigInvalid(String),
    /// The home directory is not known.
    HomeNotSet,
    /// No note with this file name.
    NoteNotFound(String),
    /// No task with this identifier.
    TaskNotFound(String),
}

impl Error {
    /// The message of the error, as a reader sees it.
    pub open spec fn text(&self) -> Seq<char> {
        match self {
            Error::Io { path, message } => "Failed to access "@ + path@ + ": "@ + message@,
            Error::NotFound(path) => "File not found: "@ + path@,
            Error::UnknownSortField(field) => "Unknown sort field: "@ + field@
                + ". Valid fields: urgency, priority, id"@,
            Error::InvalidStatusFilter(filter) => "Invalid status filter: "@ + filter@
                + ". Use 'open', 'completed', 'migrated', or 'all'."@,
            Error::InvalidDirection(direction) => "Invalid direction: "@ + direction@
                + ". Use 'prev' or 'next'."@,
            Error::InvalidTaskId(id) => "Invalid task ID format: "@ + id@
                + ". Expected 'filename#index'"@,
            Error::InvalidPeriod(text) => "Invalid period: "@ + text@,
            Error::NoteExists(path) => "Note already exists: "@ + path@,
            Error::TemplateNotFound(name) => "Template '"@ + name@ + "' not found"@,
            Error::ConfigNotFound => "No library config found. Expected .bnotes/config.toml or config.toml"@,
            Error::ConfigInvalid(path) => "Failed to parse "@ + path@,
            Error::HomeNotSet => "HOME environment variable not set"@,
            Error::NoteNotFound(name) => "Note not found: "@ + name@,
            Error::TaskNotFound(id) => "Task not found: "@ + id@,
        }
    }

    /// The message of the error.
    pub fn message(&self) -> (r: String)
        ensures
            r@ == self.text(),
    {
        match self {
            Error::Io { path, message } => {
                let mut out = "Failed to access ".to_owned();
                out.push_str(path.as_str());
                out.push_str(": ");
                out.push_str(message.as_str());
                out
            },
            Error::NotFound(path) => {
                let mut out = "File not found: ".to_owned();
                out.push_str(path.as_str());
                out
            },
            Error::UnknownSortField(field) => {
                let mut out = "Unknown sort field: ".to_owned();
                out.push_str(field.as_str());
                out.push_str(". Valid fields: urgency, priority, id");
                out
            },
            Error::InvalidStatusFilter(filter) => {
                let mut out = "Invalid status filter: ".to_owned();
                out.push_str(filter.as_str());
                out.push_str(". Use 'open', 'completed', 'migrated', or 'all'.");
                out
            },
            Error::InvalidDirection(direction) => {
                let mut out = "Invalid direction: ".to_owned();
                out.push_str(direction.as_str());
                out.push_str(". Use 'prev' or 'next'.");
                out
            },
            Error::InvalidTaskId(id) => {
                let mut out = "Invalid task ID format: ".to_owned();
                out.push_str(id.as_str());
                out.push_str(". Expected 'filename#index'");
                out
            },
            Error::InvalidPeriod(text) => {
                let mut out = "Invalid period: ".to_owned();
                out.push_str(text.as_str());
                out
            },
            Error::NoteExists(path) => {
                let mut out = "Note already exists: ".to_owned();
                out.push_str(path.as_str());
                out
            },
            Error::TemplateNotFound(name) => {
                let mut out = "Template '".to_owned();
                out.push_str(name.as_str());
                out.push_str("' not found");
                out
            },
            Error::ConfigNotFound => {
                "No library config found. Expected .bnotes/config.toml or config.toml".to_owned()
            },
            Error::ConfigInvalid(path) => {
                let mut out = "Failed to parse ".to_owned();
                out.push_str(path.as_str());
                out
            },
            Error::HomeNotSet => "HOME environment variable not set".to_owned(),
            Error::NoteNotFound(name) => {
                let mut out = "Note not found: ".to_owned();
                out.push_str(name.as_str());
                out
            },
            Error::TaskNotFound(id) => {
                let mut out = "Task not found: ".to_owned();
                out.push_str(id.as_str());
                out
            },
        }
    }
}

/// Whether an error speaks of the storage: of a file that is missing or
/// that cannot be read or written.
pub open spec fn is_storage_error(e: Error) -> bool {
    e is Io || e is NotFound
}

/// The error of a storage as the library hands it on: an error that speaks
/// of the storage as it is, any other as an `Io` error at the given path
/// with the message of the error.
pub fn storage_error(e: Error, path: &str) -> (r: Error)
    ensures
        is_storage_error(r),
        is_storage_error(e) ==> r == e,
{
    match e {
        Error::Io { path, message } => Error::Io { path, message },
        Error::NotFound(path) => Error::NotFound(path),
        other => Error::Io { path: path.to_owned(), message: other.message() },
    }
}

} // verus!
