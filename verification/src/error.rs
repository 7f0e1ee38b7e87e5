//! The ways in which an operation on the ledger is turned down.

use vstd::prelude::*;

verus! {

/// Why the ledger refused an operation. A refused operation leaves the ledger
/// as it was.
#[derive(Clone, Copy, Debug, PartialEq, Eq, PartialOrd, Ord, Structural)]
pub enum Error {
    /// An animal of that name is registered already.
    AnimalAlreadyExists,
    /// No animal of that name is registered.
    AnimalNotFound,
    /// The caller has voted for that animal before.
    AlreadyVoted,
    /// The name is not acceptable for another reason. The ledger itself never
    /// reports this.
    InvalidAnimalName,
    /// The caller is not the administrator.
    Unauthorized,
    /// The name is longer than [`crate::model::MAX_NAME_LEN`] bytes.
    AnimalNameTooLong,
    /// The name is empty.
    AnimalNameEmpty,
}

impl Error {
    /// The number under which the error is reported to the host.
    pub open spec fn spec_code(self) -> u32 {
        match self {
            Error::AnimalAlreadyExists => 1,
            Error::AnimalNotFound => 2,
            Error::AlreadyVoted => 3,
            Error::InvalidAnimalName => 4,
            Error::Unauthorized => 5,
            Error::AnimalNameTooLong => 6,
            Error::AnimalNameEmpty => 7,
        }
    }

    /// The number under which the error is reported to the host.
    #[verifier::when_used_as_spec(spec_code)]
    pub fn code(self) -> (n: u32)
        ensures
            n == self.spec_code(),
            1 <= n <= 7,
    {
        match self {
            Error::AnimalAlreadyExists => 1,
            Error::AnimalNotFound => 2,
            Error::AlreadyVoted => 3,
            Error::InvalidAnimalName => 4,
            Error::Unauthorized => 5,
            Error::AnimalNameTooLong => 6,
            Error::AnimalNameEmpty => 7,
        }
    }
}

} // verus!
