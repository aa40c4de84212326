use vstd::prelude::*;

use crate::fs_path::{FsPath, text_of};

verus! {

/// The errors of this library.
#[derive(Debug, PartialEq, Eq)]
pub enum Error {
    /// A path exists but is not a directory, although one was expected.
    PathIsNotADirectory(FsPath),
    /// A path that an operation needs does not exist.
    PathDoesNotExist(FsPath),
    /// A path is absolute, although a relative one was expected.
    PathIsAbsolute(FsPath),
    /// A path could not be split into an existing ancestor and names below it.
    MalformedPath(FsPath),
    /// A directory could not be created.
    DirectoryCreationError(FsPath),
    /// A file could not be read, written or removed; holds the reason.
    IoError(String),
    /// A value could not be serialised; holds the reason.
    SerializationError(String),
}

/// The value an [`Error`] stands for.
pub enum ErrorView {
    PathIsNotADirectory(Seq<Seq<char>>),
    PathDoesNotExist(Seq<Seq<char>>),
    PathIsAbsolute(Seq<Seq<char>>),
    MalformedPath(Seq<Seq<char>>),
    DirectoryCreationError(Seq<Seq<char>>),
    IoError(Seq<char>),
    SerializationError(Seq<char>),
}

impl View for Error {
    type V = ErrorView;

    open spec fn view(&self) -> ErrorView {
        match self {
            Error::PathIsNotADirectory(p) => ErrorView::PathIsNotADirectory(p@),
            Error::PathDoesNotExist(p) => ErrorView::PathDoesNotExist(p@),
            Error::PathIsAbsolute(p) => ErrorView::PathIsAbsolute(p@),
            Error::MalformedPath(p) => ErrorView::MalformedPath(p@),
            Error::DirectoryCreationError(p) => ErrorView::DirectoryCreationError(p@),
            Error::IoError(m) => ErrorView::IoError(m@),
            Error::SerializationError(m) => ErrorView::SerializationError(m@),
        }
    }
}

impl Clone for Error {
    fn clone(&self) -> (r: Self)
        ensures
            r@ == self@,
    {
        match self {
            Error::PathIsNotADirectory(p) => Error::PathIsNotADirectory(p.clone()),
            Error::PathDoesNotExist(p) => Error::PathDoesNotExist(p.clone()),
            Error::PathIsAbsolute(p) => Error::PathIsAbsolute(p.clone()),
            Error::MalformedPath(p) => Error::MalformedPath(p.clone()),
            Error::DirectoryCreationError(p) => Error::DirectoryCreationError(p.clone()),
            Error::IoError(m) => Error::IoError(m.clone()),
            Error::SerializationError(m) => Error::SerializationError(m.clone()),
        }
    }
}

/// The message that describes an error.
pub open spec fn message_of(e: ErrorView) -> Seq<char> {
    match e {
        ErrorView::PathIsNotADirectory(p) => "The path '"@ + text_of(p) + "' is not a directory."@,
        ErrorView::PathDoesNotExist(p) => "The path '"@ + text_of(p) + "' does not exist."@,
        ErrorView::PathIsAbsolute(p) => "The path '"@ + text_of(p)
            + "' is absolute, but a relative path was expected."@,
        ErrorView::MalformedPath(p) => "The path '"@ + text_of(p) + "' is malformed."@,
        ErrorView::DirectoryCreationError(p) => "Failed to create directory at path '"@ + text_of(
            p,
        ) + "'."@,
        ErrorView::IoError(m) => m,
        ErrorView::SerializationError(m) => m,
    }
}

/// `prefix`, the text of `path`, then `suffix`.
fn quoted(prefix: &str, path: &FsPath, suffix: &str) -> (r: String)
    ensures
        r@ == prefix@ + text_of(path@) + suffix@,
{
    let mut r = String::from_str(prefix);
    let t = path.to_text();
    r.append(t.as_str());
    r.append(suffix);
    r
}

impl Error {
    /// A `PathIsNotADirectory` error for `path`.
    pub fn path_is_not_a_directory(path: &FsPath) -> (r: Error)
        ensures
            r@ == ErrorView::PathIsNotADirectory(path@),
    {
        Error::PathIsNotADirectory(path.clone())
    }

    /// A `PathDoesNotExist` error for `path`.
    pub fn parent_directory_does_not_exist(path: &FsPath) -> (r: Error)
        ensures
            r@ == ErrorView::PathDoesNotExist(path@),
    {
        Error::PathDoesNotExist(path.clone())
    }

    /// A `PathIsAbsolute` error for `path`.
    pub fn path_is_absolute(path: &FsPath) -> (r: Error)
        ensures
            r@ == ErrorView::PathIsAbsolute(path@),
    {
        Error::PathIsAbsolute(path.clone())
    }

    /// A `MalformedPath` error for `path`.
    pub fn malformed_path(path: &FsPath) -> (r: Error)
        ensures
            r@ == ErrorView::MalformedPath(path@),
    {
        Error::MalformedPath(path.clone())
    }

    /// An `IoError` that reports a failed write to the file at `path`.
    pub fn file_write_error(path: &FsPath) -> (r: Error)
        ensures
            r@ == ErrorView::IoError("Failed to write to file at path '"@ + text_of(path@) + "'."@),
    {
        Error::IoError(quoted("Failed to write to file at path '", path, "'."))
    }

    /// A `DirectoryCreationError` for `path`.
    pub fn directory_creation_error(path: &FsPath) -> (r: Error)
        ensures
            r@ == ErrorView::DirectoryCreationError(path@),
    {
        Error::DirectoryCreationError(path.clone())
    }

    /// The message that describes this error.
    pub fn to_string(&self) -> (r: String)
        ensures
            r@ == message_of(self@),
    {
        match self {
            Error::PathIsNotADirectory(p) => quoted("The path '", p, "' is not a directory."),
            Error::PathDoesNotExist(p) => quoted("The path '", p, "' does not exist."),
            Error::PathIsAbsolute(p) => quoted(
                "The path '",
                p,
                "' is absolute, but a relative path was expected.",
            ),
            Error::MalformedPath(p) => quoted("The path '", p, "' is malformed."),
            Error::DirectoryCreationError(p) => quoted(
                "Failed to create directory at path '",
                p,
                "'.",
            ),
            Error::IoError(m) => m.clone(),
            Error::SerializationError(m) => m.clone(),
        }
    }
}

} // verus!
