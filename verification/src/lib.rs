//! Helpers for project scaffolding tools: author strings, SPDX license
//! expressions, `.gitignore` maintenance, TOML documents and file-system
//! errors that carry the path they concern.
use vstd::prelude::*;

pub mod author;
pub mod error;
pub mod gitignore;
pub mod license;
pub mod text;
pub mod toml;

verus! {

/// A byte range of a source text that a diagnostic points at.
#[derive(Debug, Clone, Copy, PartialEq, Eq)]
pub struct Span {
    pub offset: usize,
    pub len: usize,
}

/// What kind of failure an I/O operation reported. The kinds with a variant
/// of their own get a dedicated [`Error`] variant; `Other` carries the
/// description of any other kind.
#[derive(Debug, Clone, PartialEq, Eq)]
pub enum IoErrorKind {
    NotFound,
    PermissionDenied,
    AlreadyExists,
    NotADirectory,
    IsADirectory,
    DirectoryNotEmpty,
    ReadOnlyFilesystem,
    StorageFull,
    QuotaExceeded,
    InvalidFilename,
    Other(String),
}

/// A failed I/O operation: its kind and its message.
#[derive(Debug, Clone, PartialEq, Eq)]
pub struct IoError {
    pub kind: IoErrorKind,
    pub message: String,
}

/// Why a program could not be located on the search path.
#[derive(Debug, Clone, Copy, PartialEq, Eq)]
pub enum WhichError {
    /// No executable of that name was found.
    CannotFindBinaryPath,
    /// There was nowhere to search and the name was not an absolute path.
    CannotGetCurrentDirAndPathListEmpty,
    /// The path found could not be canonicalized.
    CannotCanonicalize,
}

/// Everything that can go wrong in this crate.
#[derive(Debug)]
pub enum Error {
    Author(crate::author::Error),
    License(crate::license::Error),
    Toml(crate::toml::Error),
    Which(WhichError),
    NotFound { path: String, source: IoError },
    PermissionDenied { path: String, source: IoError },
    AlreadyExists { path: String, source: IoError },
    NotADirectorySource { path: String, source: IoError },
    NotADirectory { path: String },
    IsADirectory { path: String, source: IoError },
    DirectoryNotEmpty { path: String, source: IoError },
    ReadOnlyFilesystem { path: String, source: IoError },
    StorageFull { path: String, source: IoError },
    QuotaExceeded { path: String, source: IoError },
    InvalidFilename { path: String, source: IoError },
    /// Any other kind of I/O failure, with its kind.
    Io { path: String, kind: IoErrorKind, source: IoError },
}

pub type Result<T> = core::result::Result<T, Error>;

/// The error for an I/O failure at `path`: a variant of its own for each kind
/// that has one, `Io` with the kind for the others.
pub open spec fn io_error(path: String, source: IoError) -> Error {
    match source.kind {
        IoErrorKind::NotFound => Error::NotFound { path, source },
        IoErrorKind::PermissionDenied => Error::PermissionDenied { path, source },
        IoErrorKind::AlreadyExists => Error::AlreadyExists { path, source },
        IoErrorKind::NotADirectory => Error::NotADirectorySource { path, source },
        IoErrorKind::IsADirectory => Error::IsADirectory { path, source },
        IoErrorKind::DirectoryNotEmpty => Error::DirectoryNotEmpty { path, source },
        IoErrorKind::ReadOnlyFilesystem => Error::ReadOnlyFilesystem { path, source },
        IoErrorKind::StorageFull => Error::StorageFull { path, source },
        IoErrorKind::QuotaExceeded => Error::QuotaExceeded { path, source },
        IoErrorKind::InvalidFilename => Error::InvalidFilename { path, source },
        IoErrorKind::Other(_) => Error::Io { path, kind: source.kind, source },
    }
}

impl IoErrorKind {
    /// A copy of this kind.
    pub fn duplicate(&self) -> (r: IoErrorKind)
        ensures
            r == *self,
    {
        match self {
            IoErrorKind::NotFound => IoErrorKind::NotFound,
            IoErrorKind::PermissionDenied => IoErrorKind::PermissionDenied,
            IoErrorKind::AlreadyExists => IoErrorKind::AlreadyExists,
            IoErrorKind::NotADirectory => IoErrorKind::NotADirectory,
            IoErrorKind::IsADirectory => IoErrorKind::IsADirectory,
            IoErrorKind::DirectoryNotEmpty => IoErrorKind::DirectoryNotEmpty,
            IoErrorKind::ReadOnlyFilesystem => IoErrorKind::ReadOnlyFilesystem,
            IoErrorKind::StorageFull => IoErrorKind::StorageFull,
            IoErrorKind::QuotaExceeded => IoErrorKind::QuotaExceeded,
            IoErrorKind::InvalidFilename => IoErrorKind::InvalidFilename,
            IoErrorKind::Other(d) => IoErrorKind::Other(d.clone()),
        }
    }
}

impl Error {
    /// The error for the I/O failure `source` at `path`.
    pub fn io(path: String, source: IoError) -> (r: Error)
        ensures
            r == io_error(path, source),
    {
        match source.kind {
            IoErrorKind::NotFound => Error::NotFound { path, source },
            IoErrorKind::PermissionDenied => Error::PermissionDenied { path, source },
            IoErrorKind::AlreadyExists => Error::AlreadyExists { path, source },
            IoErrorKind::NotADirectory => Error::NotADirectorySource { path, source },
            IoErrorKind::IsADirectory => Error::IsADirectory { path, source },
            IoErrorKind::DirectoryNotEmpty => Error::DirectoryNotEmpty { path, source },
            IoErrorKind::ReadOnlyFilesystem => Error::ReadOnlyFilesystem { path, source },
            IoErrorKind::StorageFull => Error::StorageFull { path, source },
            IoErrorKind::QuotaExceeded => Error::QuotaExceeded { path, source },
            IoErrorKind::InvalidFilename => Error::InvalidFilename { path, source },
            IoErrorKind::Other(_) => {
                let kind = source.kind.duplicate();
                Error::Io { path, kind, source }
            },
        }
    }
}

/// Attaching the path an I/O result concerns to its error.
pub trait IoResultExt<T> {
    fn path_ctx(self, path: String) -> Result<T>;
}

impl<T> IoResultExt<T> for core::result::Result<T, IoError> {
    fn path_ctx(self, path: String) -> (r: Result<T>)
        ensures
            match self {
                Ok(v) => r == Ok::<T, Error>(v),
                Err(e) => r == Err::<T, Error>(io_error(path, e)),
            },
    {
        match self {
            Ok(v) => Ok(v),
            Err(e) => Err(Error::io(path, e)),
        }
    }
}

/// `Ok` when the thing at `path` is a directory (`is_dir`), otherwise the
/// `NotADirectory` error for `path`.
pub fn ensure_dir(path: &str, is_dir: bool) -> (r: Result<()>)
    ensures
        is_dir ==> r is Ok,
        !is_dir ==> (r matches Err(Error::NotADirectory { path: p }) && p@ == path@),
{
    if is_dir {
        return Ok(());
    }
    Err(Error::NotADirectory { path: path.to_owned() })
}

impl From<crate::author::Error> for Error {
    fn from(e: crate::author::Error) -> (r: Error) {
        Error::Author(e)
    }
}

impl vstd::std_specs::convert::FromSpecImpl<crate::author::Error> for Error {
    open spec fn obeys_from_spec() -> bool {
        true
    }

    open spec fn from_spec(e: crate::author::Error) -> Error {
        Error::Author(e)
    }
}

impl From<crate::license::Error> for Error {
    fn from(e: crate::license::Error) -> (r: Error) {
        Error::License(e)
    }
}

impl vstd::std_specs::convert::FromSpecImpl<crate::license::Error> for Error {
    open spec fn obeys_from_spec() -> bool {
        true
    }

    open spec fn from_spec(e: crate::license::Error) -> Error {
        Error::License(e)
    }
}

impl From<crate::toml::Error> for Error {
    fn from(e: crate::toml::Error) -> (r: Error) {
        Error::Toml(e)
    }
}

impl vstd::std_specs::convert::FromSpecImpl<crate::toml::Error> for Error {
    open spec fn obeys_from_spec() -> bool {
        true
    }

    open spec fn from_spec(e: crate::toml::Error) -> Error {
        Error::Toml(e)
    }
}

impl From<WhichError> for Error {
    fn from(e: WhichError) -> (r: Error) {
        Error::Which(e)
    }
}

impl vstd::std_specs::convert::FromSpecImpl<WhichError> for Error {
    open spec fn obeys_from_spec() -> bool {
        true
    }

    open spec fn from_spec(e: WhichError) -> Error {
        Error::Which(e)
    }
}

} // verus!
