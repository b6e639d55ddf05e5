//! Errors of the message-module assembly.

use vstd::prelude::*;

verus! {

/// Why a message module could not be assembled.
#[derive(Clone, Debug, PartialEq, Eq)]
pub enum Error {
    /// A requested message is not written as `package/name`.
    BadMessageName(String),
    /// A requested message is neither a message nor a service of the map.
    UnknownMessage(String),
}

impl Error {
    /// The text that was offending, as the caller gave it.
    pub fn subject(&self) -> (r: &str)
        ensures
            r@ == match *self {
                Error::BadMessageName(s) => s@,
                Error::UnknownMessage(s) => s@,
            },
    {
        match self {
            Error::BadMessageName(s) => s.as_str(),
            Error::UnknownMessage(s) => s.as_str(),
        }
    }

    /// A sentence for a human reader.
    pub fn message(&self) -> (r: String)
        ensures
            r@ == match *self {
                Error::BadMessageName(s) =>
                    "Package string needs to be in package/name format: "@ + s@,
                Error::UnknownMessage(s) => "Could not find requested message: "@ + s@,
            },
    {
        match self {
            Error::BadMessageName(s) => {
                String::from_str("Package string needs to be in package/name format: ").concat(
                    s.as_str(),
                )
            },
            Error::UnknownMessage(s) => {
                String::from_str("Could not find requested message: ").concat(s.as_str())
            },
        }
    }
}

} // verus!
