//! Error type shared by the store operations.

use vstd::prelude::*;

verus! {

/// Why a store operation did not complete.
#[derive(Clone, Debug)]
pub enum DbError {
    /// The camera, state row or trip that the operation needs does not exist.
    NotFound,
    /// A precondition was violated (for example a ring size below one, a
    /// negative index, or a counter that would leave the machine range).
    Logic,
    /// The persistent store failed; the in-memory state was left untouched.
    /// Carries the storage engine's message.
    Storage(String),
}

impl DbError {
    /// Short description, usable by callers that log errors.
    pub fn message(&self) -> (r: String)
        ensures
            self matches DbError::Storage(m) ==> r@ == m@,
    {
        match self {
            DbError::NotFound => String::from_str("not found"),
            DbError::Logic => String::from_str("logic error"),
            DbError::Storage(m) => m.clone(),
        }
    }
}

} // verus!
