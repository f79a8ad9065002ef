//! Errors of the transactional-state subsystem.

use vstd::prelude::*;
use vstd::string::*;
use core::fmt::Display;

verus! {

/// Why a transaction over shared state did not go through.
#[derive(Debug)]
pub enum TransactionError {
    /// The transaction failed, for the reason given.
    Failed(String),
    /// An error occurred inside the transaction; the text is that of the
    /// error.
    Inner(String),
    /// The transactional state is inconsistent.
    InconsistentState,
    /// The transaction has been aborted.
    Aborted,
}

impl TransactionError {
    /// Wraps an error that occurred inside a transaction, keeping its text.
    pub fn to_inner<E>(error: E) -> (wrapped: Self) where E: Display
        ensures
            wrapped matches TransactionError::Inner(text) && to_string_from_display_ensures::<E>(
                &error,
                text,
            ),
    {
        TransactionError::Inner(error.to_string())
    }

    /// The text of [`Self::message`].
    pub open spec fn spec_message(&self) -> Seq<char> {
        match self {
            TransactionError::Failed(reason) => "Transaction failed "@ + reason@,
            TransactionError::Inner(_) => "Inner error occured"@,
            TransactionError::InconsistentState => "Transactional state is inconsistent"@,
            TransactionError::Aborted => "Transaction has been aborted"@,
        }
    }

    /// The error in words.
    pub fn message(&self) -> (text: String)
        ensures
            text@ == self.spec_message(),
    {
        match self {
            TransactionError::Failed(reason) => {
                let mut text = String::from_str("Transaction failed ");
                text.append(reason.as_str());
                text
            },
            TransactionError::Inner(_) => String::from_str("Inner error occured"),
            TransactionError::InconsistentState => String::from_str(
                "Transactional state is inconsistent",
            ),
            TransactionError::Aborted => String::from_str("Transaction has been aborted"),
        }
    }
}

} // verus!
