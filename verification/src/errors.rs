//! Error kinds shared by every board and ticket operation.

use vstd::prelude::*;
use vstd::string::StringExecFns;

verus! {

/// Why an operation on a primary entity was refused.
///
/// `InvalidInput` and `NotFound` and `Unauthorized` on the board being
/// updated or deleted abort the whole operation before any mutation;
/// `StorageFailure` carries the message of a failed persistence call.
#[derive(Debug, Clone)]
pub enum AppError {
    InvalidInput,
    NotFound,
    Unauthorized,
    StorageFailure(String),
}

impl AppError {
    /// A short human-readable description of the error.
    pub fn message(&self) -> (r: String)
        ensures
            r@ == match self {
                AppError::InvalidInput => "titleId is invalid"@,
                AppError::NotFound => "Board not found or access denied"@,
                AppError::Unauthorized => "Unauthorized"@,
                AppError::StorageFailure(s) => s@,
            },
    {
        match self {
            AppError::InvalidInput => String::from_str("titleId is invalid"),
            AppError::NotFound => String::from_str("Board not found or access denied"),
            AppError::Unauthorized => String::from_str("Unauthorized"),
            AppError::StorageFailure(s) => s.clone(),
        }
    }
}

/// One ticket-level sub-operation that failed during a multi-ticket
/// reconciliation, recorded without aborting its siblings: the
/// submitted ticket identifier (absent for new tickets) and the
/// storage error.
#[derive(Debug, Clone)]
pub struct TicketFailure {
    pub ticket_id: Option<i64>,
    pub reason: String,
}

} // verus!
