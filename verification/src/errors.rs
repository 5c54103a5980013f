//! The failure taxonomy shared by every operation of the crate.

use vstd::prelude::*;

verus! {

/// Why an operation failed.
///
/// Validation failures (`InvalidInput`, `AlreadyExists`, `Forbidden`) are
/// produced before any state is touched; `NotFound` covers unknown accounts
/// and absent follow edges; `Storage` stands for a backend failure surfaced
/// unmodified by a caller that drives a real storage backend.
#[derive(Clone, Copy, Debug, PartialEq, Eq, Structural)]
pub enum Error {
    /// A username of the wrong shape, or an attempted self-follow.
    InvalidInput,
    /// A username that is already registered.
    AlreadyExists,
    /// An account or follow edge that does not exist.
    NotFound,
    /// A ban attempted on an account whose role elevation is not zero.
    Forbidden,
    /// A backend input/output or serialization failure, passed through.
    Storage,
}

impl Error {
    /// What `message` returns for each variant.
    pub open spec fn message_spec(self) -> Seq<char> {
        match self {
            Error::InvalidInput => "Invalid input"@,
            Error::AlreadyExists => "User already exists"@,
            Error::NotFound => "Not found"@,
            Error::Forbidden => "User must be of level elevation 0"@,
            Error::Storage => "Storage failure"@,
        }
    }

    /// A human-readable description of the failure.
    pub fn message(&self) -> (r: String)
        ensures
            r@ == self.message_spec(),
    {
        match self {
            Error::InvalidInput => String::from_str("Invalid input"),
            Error::AlreadyExists => String::from_str("User already exists"),
            Error::NotFound => String::from_str("Not found"),
            Error::Forbidden => String::from_str("User must be of level elevation 0"),
            Error::Storage => String::from_str("Storage failure"),
        }
    }
}

} // verus!
