//! A voting ledger for a Soroban contract: animals are registered under a
//! name, every identity votes for each animal at most once, and the ledger
//! ranks the animals by their votes.
//!
//! The ledger is an ordinary value that owns its whole state. Names and
//! identities are the host's own `String` and `Address`; what the ledger knows
//! of them is stated in [`host`]. Every operation is specified against the
//! mathematical model in [`model`].

pub mod animal;
pub mod contract;
pub mod error;
pub mod host;
pub mod laws;
pub mod model;
pub mod preserved;
pub mod ranking;
pub mod slots;
pub mod stored;

pub use crate::animal::{Animal, AnimalVotes, UserVotes};
pub use crate::contract::AnimalVotingContract;
pub use crate::error::Error;
