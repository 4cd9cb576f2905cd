use vstd::prelude::*;

use crate::errors::AxError;

verus! {

/// Why a DNS query could not be started.
#[derive(Clone, Copy, Debug, PartialEq, Eq, Structural)]
pub enum StartQueryError {
    NoFreeSlot,
    InvalidName,
    NameTooLong,
}

/// Why a DNS query has no result.
#[derive(Clone, Copy, Debug, PartialEq, Eq, Structural)]
pub enum QueryResultError {
    /// The answer has not come yet.
    Pending,
    /// The query failed.
    Failed,
}

/// The error of a query that could not be started: no free slot is a busy
/// resource, a bad or too long name is invalid input.
pub fn start_query_error(e: StartQueryError) -> (r: AxError)
    ensures
        r == (match e {
            StartQueryError::NoFreeSlot => AxError::ResourceBusy,
            _ => AxError::InvalidInput,
        }),
{
    match e {
        StartQueryError::NoFreeSlot => AxError::ResourceBusy,
        StartQueryError::InvalidName => AxError::InvalidInput,
        StartQueryError::NameTooLong => AxError::InvalidInput,
    }
}

/// The error while waiting for an answer: a pending query would block (and
/// is polled again), a failed one was refused.
pub fn query_result_error(e: QueryResultError) -> (r: AxError)
    ensures
        r == (match e {
            QueryResultError::Pending => AxError::WouldBlock,
            QueryResultError::Failed => AxError::ConnectionRefused,
        }),
{
    match e {
        QueryResultError::Pending => AxError::WouldBlock,
        QueryResultError::Failed => AxError::ConnectionRefused,
    }
}

} // verus!
