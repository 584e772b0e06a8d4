//! Error kinds surfaced by the provisioning workflows.

use vstd::prelude::*;

verus! {

/// One failure kind per class of fault the workflows can hit.  Each
/// variant carries a human-readable message; callers decide how to
/// present it.
#[derive(Debug, Clone)]
pub enum Error {
    /// Filesystem read/write/copy failure.
    Io(String),
    /// An external tool exited non-zero or could not be executed.
    Command(String),
    /// Bad domain syntax or bad port, rejected before any side effect.
    Validation(String),
    /// Unknown domain on lookup or removal.
    NotFound(String),
    /// Insufficient privilege for the requested operation.
    Permission(String),
    /// Duplicate creation where an update was not intended.
    Already(String),
    /// Registry document present but unusable.
    Config(String),
}

impl Error {
    /// The message carried by the error, whatever its kind.
    pub fn message(&self) -> (r: &String)
        ensures
            r@ == self.spec_message(),
    {
        match self {
            Error::Io(m) => m,
            Error::Command(m) => m,
            Error::Validation(m) => m,
            Error::NotFound(m) => m,
            Error::Permission(m) => m,
            Error::Already(m) => m,
            Error::Config(m) => m,
        }
    }

    /// The message, as a mathematical sequence of characters.
    pub open spec fn spec_message(&self) -> Seq<char> {
        match self {
            Error::Io(m) => m@,
            Error::Command(m) => m@,
            Error::Validation(m) => m@,
            Error::NotFound(m) => m@,
            Error::Permission(m) => m@,
            Error::Already(m) => m@,
            Error::Config(m) => m@,
        }
    }
}

pub type Result<T> = core::result::Result<T, Error>;

} // verus!
