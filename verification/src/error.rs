//! The failures an operation on the ledger can report.

use vstd::prelude::*;
use vstd::string::StringExecFns;

verus! {

/// Why an operation was refused. A refused operation leaves the store as it
/// found it.
#[derive(Clone, Copy, Debug, PartialEq, Eq, Structural)]
pub enum ContractError {
    /// The ledger has not been created yet.
    NotInitialized,
    /// The ledger was already created.
    AlreadyInitialized,
    /// A score above the largest admissible one.
    InvalidScore,
    /// A sum that the integer range cannot hold.
    ArithmeticOverflow,
    /// Kept for refusing a caller; no operation reports it.
    Unauthorized,
}

impl ContractError {
    /// The failure in words.
    pub open spec fn text(self) -> Seq<char> {
        match self {
            ContractError::NotInitialized => "The ledger is not initialized"@,
            ContractError::AlreadyInitialized => "The ledger is already initialized"@,
            ContractError::InvalidScore => "Score must be between 0 and 10"@,
            ContractError::ArithmeticOverflow => "Arithmetic overflow"@,
            ContractError::Unauthorized => "Unauthorized"@,
        }
    }

    /// The failure in words, for a reader.
    pub fn message(&self) -> (r: String)
        ensures
            r@ == self.text(),
    {
        match self {
            ContractError::NotInitialized => String::from_str("The ledger is not initialized"),
            ContractError::AlreadyInitialized => String::from_str(
                "The ledger is already initialized",
            ),
            ContractError::InvalidScore => String::from_str("Score must be between 0 and 10"),
            ContractError::ArithmeticOverflow => String::from_str("Arithmetic overflow"),
            ContractError::Unauthorized => String::from_str("Unauthorized"),
        }
    }
}

} // verus!
