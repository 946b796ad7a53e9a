//! A coarser error type: the component errors, program lookup failures, and
//! I/O failures without the path they concern.
use vstd::prelude::*;

use crate::{IoError, WhichError};

verus! {

/// An author, license or I/O failure.
#[derive(Debug)]
pub enum Error {
    Author(crate::author::Error),
    License(crate::license::Error),
    Which(WhichError),
    /// An I/O failure shared between several owners.
    IoArc(std::sync::Arc<IoError>),
    Io(IoError),
}

impl From<crate::author::Error> for Error {
    fn from(e: crate::author::Error) -> (r: Error) {
        Error::Author(e)
    }
}

impl vstd::std_specs::convert::FromSpecImpl<crate::author::Error> for Error {
    open spec fn obeys_from_spec() -> bool {
        true
    }

    open spec fn from_spec(e: crate::author::Error) -> Error {
        Error::Author(e)
    }
}

impl From<crate::license::Error> for Error {
    fn from(e: crate::license::Error) -> (r: Error) {
        Error::License(e)
    }
}

impl vstd::std_specs::convert::FromSpecImpl<crate::license::Error> for Error {
    open spec fn obeys_from_spec() -> bool {
        true
    }

    open spec fn from_spec(e: crate::license::Error) -> Error {
        Error::License(e)
    }
}

impl From<WhichError> for Error {
    fn from(e: WhichError) -> (r: Error) {
        Error::Which(e)
    }
}

impl vstd::std_specs::convert::FromSpecImpl<WhichError> for Error {
    open spec fn obeys_from_spec() -> bool {
        true
    }

    open spec fn from_spec(e: WhichError) -> Error {
        Error::Which(e)
    }
}

impl From<std::sync::Arc<IoError>> for Error {
    fn from(e: std::sync::Arc<IoError>) -> (r: Error) {
        Error::IoArc(e)
    }
}

impl vstd::std_specs::convert::FromSpecImpl<std::sync::Arc<IoError>> for Error {
    open spec fn obeys_from_spec() -> bool {
        true
    }

    open spec fn from_spec(e: std::sync::Arc<IoError>) -> Error {
        Error::IoArc(e)
    }
}

impl From<IoError> for Error {
    fn from(e: IoError) -> (r: Error) {
        Error::Io(e)
    }
}

impl vstd::std_specs::convert::FromSpecImpl<IoError> for Error {
    open spec fn obeys_from_spec() -> bool {
        true
    }

    open spec fn from_spec(e: IoError) -> Error {
        Error::Io(e)
    }
}

} // verus!
