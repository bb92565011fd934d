//! The ways in which an operation of the store or of the statistics fails.

use vstd::prelude::*;

verus! {

/// Why an operation did not give a result. Each failure concerns the one
/// operation that reports it.
#[derive(Clone, Copy, Debug, PartialEq, Eq, Structural)]
pub enum RepoError {
    /// The store cannot take or count any more: no identifier is left for
    /// a new question, or a sum of counts exceeds what a count can hold.
    StorageError,
    /// No question has the identifier that an answer was submitted for.
    NotFound,
    /// The date does not exist in the time zone, or lies outside the years
    /// that the calendar covers.
    InvalidDate,
    /// The name is not that of a time zone.
    InvalidTimezone,
    /// The text is not a timestamp.
    InvalidTimestamp,
}

impl RepoError {
    /// A sentence for the caller to show.
    pub fn message(&self) -> (text: &'static str)
        ensures
            text@ == match *self {
                RepoError::StorageError => "Storage failure"@,
                RepoError::NotFound => "Question not found"@,
                RepoError::InvalidDate => "Invalid date"@,
                RepoError::InvalidTimezone => "Invalid timezone"@,
                RepoError::InvalidTimestamp => "Invalid timestamp"@,
            },
    {
        match self {
            RepoError::StorageError => "Storage failure",
            RepoError::NotFound => "Question not found",
            RepoError::InvalidDate => "Invalid date",
            RepoError::InvalidTimezone => "Invalid timezone",
            RepoError::InvalidTimestamp => "Invalid timestamp",
        }
    }
}

} // verus!
