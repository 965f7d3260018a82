//! The one error type of the library.

use vstd::prelude::*;

verus! {

/// The stage of the work that an error belongs to.
#[derive(Clone, Copy, PartialEq, Eq, Debug, Structural)]
pub enum ErrorKind {
    /// A path could not be read.
    FileSystem,
    /// A query file is malformed.
    Parse,
    /// The database refused a connection, a migration or a statement.
    Database,
    /// A database type has no generated counterpart.
    TypeResolution,
    /// The disposable database instance could not be started, reached or removed.
    Provisioning,
    /// The generated text could not be written.
    Io,
}

/// An error, with the file, statement or type that it is about.
#[derive(Clone, Debug, PartialEq, Eq)]
pub struct Error {
    pub kind: ErrorKind,
    /// The offending file, statement or type.
    pub subject: String,
    /// What went wrong with it.
    pub detail: String,
}

/// The mathematical content of an [`Error`].
pub struct ErrorView {
    pub kind: ErrorKind,
    pub subject: Seq<char>,
    pub detail: Seq<char>,
}

impl View for Error {
    type V = ErrorView;

    open spec fn view(&self) -> ErrorView {
        ErrorView { kind: self.kind, subject: self.subject@, detail: self.detail@ }
    }
}

impl ErrorKind {
    /// The word that introduces an error of this kind in a message.
    pub open spec fn label(self) -> Seq<char> {
        match self {
            ErrorKind::FileSystem => "file system"@,
            ErrorKind::Parse => "parse"@,
            ErrorKind::Database => "database"@,
            ErrorKind::TypeResolution => "type resolution"@,
            ErrorKind::Provisioning => "provisioning"@,
            ErrorKind::Io => "io"@,
        }
    }

    /// The word that introduces an error of this kind in a message.
    pub fn name(self) -> (r: &'static str)
        ensures
            r@ == self.label(),
    {
        match self {
            ErrorKind::FileSystem => "file system",
            ErrorKind::Parse => "parse",
            ErrorKind::Database => "database",
            ErrorKind::TypeResolution => "type resolution",
            ErrorKind::Provisioning => "provisioning",
            ErrorKind::Io => "io",
        }
    }
}

impl ErrorView {
    /// The message of an error: its kind, its subject and the detail.
    pub open spec fn message(self) -> Seq<char> {
        self.kind.label() + " error: "@ + self.subject + ": "@ + self.detail
    }
}

impl Error {
    /// An error of the given kind about `subject`.
    pub fn new(kind: ErrorKind, subject: &str, detail: &str) -> (e: Error)
        ensures
            e@ == (ErrorView { kind, subject: subject@, detail: detail@ }),
    {
        Error { kind, subject: subject.to_owned(), detail: detail.to_owned() }
    }

    /// A copy of this error.
    pub fn duplicate(&self) -> (e: Error)
        ensures
            e == *self,
    {
        Error { kind: self.kind, subject: self.subject.clone(), detail: self.detail.clone() }
    }

    /// The text shown to the user.
    pub fn message(&self) -> (text: String)
        ensures
            text@ == self@.message(),
    {
        let mut text = self.kind.name().to_owned();
        text.append(" error: ");
        text.append(self.subject.as_str());
        text.append(": ");
        text.append(self.detail.as_str());
        text
    }
}

} // verus!
