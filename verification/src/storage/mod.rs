//! Storage: what a store keeps, and when it refuses a write.
//!
//! # Concurrency
//!
//! Every mutable aggregate carries a `version` that it bumps on each mutation.
//! `save` rejects a write whose version is not strictly greater than the
//! stored one, which turns a lost update into an
//! [`Error::Conflict`](crate::error::Error::Conflict) instead of silently
//! overwriting a concurrent change.

pub mod memory;

use vstd::prelude::*;

use crate::error::{Error, ErrorView};
use crate::text::{digits, push_digits};

verus! {

/// The state of an idempotent operation.
#[derive(Debug, Clone, PartialEq, Eq)]
pub enum IdempotencyOutcome {
    /// No previous attempt; the caller owns this key and should proceed.
    Started,
    /// A previous attempt is still running. The caller should not proceed.
    InFlight,
    /// A previous attempt finished; here is what it returned.
    Completed(String),
}

/// Why a write is refused for its version, when it is: it is not newer than what is
/// stored.
pub open spec fn stale(
    kind: Seq<char>,
    id: Seq<char>,
    stored: Option<u64>,
    incoming: u64,
) -> Option<ErrorView> {
    match stored {
        Some(version) => if incoming <= version {
            Some(
                ErrorView::Conflict {
                    kind,
                    id,
                    message: "stale write: stored version is "@ + digits(version as nat)
                        + ", attempted to save version "@ + digits(incoming as nat),
                },
            )
        } else {
            None
        },
        None => None,
    }
}

/// Reject a write that is not newer than what is stored.
pub fn check_version(kind: &'static str, id: &str, stored: Option<u64>, incoming: u64) -> (
checked: Result<(), Error>)
    ensures
        match checked {
            Ok(_) => stale(kind@, id@, stored, incoming) is None,
            Err(error) => stale(kind@, id@, stored, incoming) == Some(error@),
        },
{
    if let Some(version) = stored {
        if incoming <= version {
            let mut message = "stale write: stored version is ".to_owned();
            push_digits(&mut message, version);
            message.append(", attempted to save version ");
            push_digits(&mut message, incoming);
            return Err(Error::conflict(kind, id, message.as_str()));
        }
    }
    Ok(())
}

} // verus!
