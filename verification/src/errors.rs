//! The ways in which a ledger operation or an import can fail.

use vstd::prelude::*;
use vstd::string::*;

verus! {

/// Why an operation on the ledger, or the reading of a row, failed.
#[derive(Clone, Copy, Debug, PartialEq, Eq, Structural)]
pub enum ImportError {
    /// No record, or no category, answers to the name that was looked up.
    NotFound,
    /// A file, or a row of it, does not have the shape of its format.
    MalformedFile,
    /// The text of a date is not a date written as year, month and day.
    InvalidDateFormat,
    /// A row fills both its credit and its debit column.
    AmbiguousTransactionType,
    /// The store refused a write: the identifier is already taken.
    StorageError,
}

impl ImportError {
    /// The message shown to the user for each failure.
    pub open spec fn message(self) -> Seq<char> {
        match self {
            ImportError::NotFound => "No record was found with the given identifier."@,
            ImportError::MalformedFile => "The file could not be read in its format."@,
            ImportError::InvalidDateFormat => "Date must be in the YYYY-MM-DD format."@,
            ImportError::AmbiguousTransactionType => "Cannot determine transaction type. Please make sure there is a value in only either the credit or withdrawal column"@,
            ImportError::StorageError => "The record could not be written to the register."@,
        }
    }

    /// The message for the failure.
    pub fn to_string(&self) -> (r: String)
        ensures
            r@ == self.message(),
    {
        match self {
            ImportError::NotFound => String::from_str(
                "No record was found with the given identifier.",
            ),
            ImportError::MalformedFile => String::from_str(
                "The file could not be read in its format.",
            ),
            ImportError::InvalidDateFormat => String::from_str(
                "Date must be in the YYYY-MM-DD format.",
            ),
            ImportError::AmbiguousTransactionType => String::from_str(
                "Cannot determine transaction type. Please make sure there is a value in only either the credit or withdrawal column",
            ),
            ImportError::StorageError => String::from_str(
                "The record could not be written to the register.",
            ),
        }
    }
}

} // verus!
