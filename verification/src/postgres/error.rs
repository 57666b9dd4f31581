//! The failures of a relational storage.

use vstd::prelude::*;

verus! {

/// What a connection pool was waiting for when it gave up.
#[derive(Debug, Clone, Copy, PartialEq, Eq, Structural)]
pub enum TimeoutType {
    Wait,
    Create,
    Recycle,
}

/// Why a pool of connections could not be made.
#[derive(Debug, PartialEq, Eq)]
pub enum CreateError {
    Config(String),
    Get(GetError),
    Migration(String),
}

/// Why no connection could be had from the pool.
#[derive(Debug, PartialEq, Eq)]
pub enum GetError {
    Timeout(TimeoutType),
    Error(Error),
}

/// Why no transaction could be started.
#[derive(Debug, PartialEq, Eq)]
pub enum TransactionError {
    Unknown(String),
}

/// A failure of the relational database: a value that must be unique
/// is there already, or anything else.
#[derive(Debug, PartialEq, Eq)]
pub enum Error {
    UniqueViolation(String),
    Unknown(String),
}

/// The five characters by which the database reports that a value that
/// must be unique is there already.
pub open spec fn unique_violation() -> Seq<char> {
    "23505"@
}

impl Error {
    /// Tells the failures apart by the five character state that the
    /// database reports, if it reports one, and keeps the message.
    pub fn from_pg(state: Option<&str>, message: String) -> (r: Error)
        ensures
            r == if state matches Some(code) && code@ == unique_violation() {
                Error::UniqueViolation(message)
            } else {
                Error::Unknown(message)
            },
    {
        match state {
            Some(code) => {
                if crate::types::names::compare(code, "23505") == crate::types::names::Order::Equal {
                    Error::UniqueViolation(message)
                } else {
                    Error::Unknown(message)
                }
            },
            None => Error::Unknown(message),
        }
    }
}

impl GetError {
    /// The failure of getting a connection that a failure of the
    /// database amounts to.
    pub fn from_pg(state: Option<&str>, message: String) -> (r: GetError)
        ensures
            r == GetError::Error(
                if state matches Some(code) && code@ == unique_violation() {
                    Error::UniqueViolation(message)
                } else {
                    Error::Unknown(message)
                },
            ),
    {
        GetError::Error(Error::from_pg(state, message))
    }
}

} // verus!
