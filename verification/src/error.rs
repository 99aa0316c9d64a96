//! Errors that the state engine returns.

use vstd::prelude::*;
use crate::decimal::{decimal_digits, u128_to_decimal};

verus! {

/// What can go wrong inside the engine. Failures of the durable store, of the
/// network and of the prover belong to the layers around it.
#[derive(Debug)]
pub enum CoreError {
    /// A Merkle path does not lead to the expected root.
    InvalidMerkleProof,
    /// No note is stored under the given key; the payload names the key.
    AccountNotFound(String),
    /// The note holds less than a spend asks for.
    InsufficientBalance { have: u128, need: u128 },
    /// The nullifier is already in the set; the payload is its hex form.
    NullifierUsed(String),
    /// A string or byte sequence is not the encoding of a field element.
    InvalidFieldElement,
    /// The tree holds `2^depth` leaves.
    TreeFull,
    /// The secret key cannot be used.
    InvalidSecretKey,
    /// A record breaks a rule of the account store; the payload names the
    /// rule.
    Database(String),
}

impl CoreError {
    /// A one-line description of the error.
    pub fn message(&self) -> (s: String)
        ensures
            self is InvalidMerkleProof ==> s@ == "Invalid Merkle proof"@,
            self is InvalidFieldElement ==> s@ == "Invalid field element"@,
            self is TreeFull ==> s@ == "Tree full"@,
            self is InvalidSecretKey ==> s@ == "Invalid secret key"@,
            self is AccountNotFound ==> s@ == "Account not found: "@ + self->AccountNotFound_0@,
            self is NullifierUsed ==> s@ == "Nullifier already used: "@ + self->NullifierUsed_0@,
            self is InsufficientBalance ==> s@ == "Insufficient balance: have "@ + decimal_digits(
                self->have as nat,
            ) + ", need "@ + decimal_digits(self->need as nat),
            self is Database ==> s@ == "Database error: "@ + self->Database_0@,
    {
        match self {
            CoreError::InvalidMerkleProof => String::from_str("Invalid Merkle proof"),
            CoreError::InvalidFieldElement => String::from_str("Invalid field element"),
            CoreError::TreeFull => String::from_str("Tree full"),
            CoreError::InvalidSecretKey => String::from_str("Invalid secret key"),
            CoreError::AccountNotFound(key) => String::from_str("Account not found: ").concat(
                key.as_str(),
            ),
            CoreError::NullifierUsed(n) => String::from_str("Nullifier already used: ").concat(
                n.as_str(),
            ),
            CoreError::InsufficientBalance { have, need } => String::from_str(
                "Insufficient balance: have ",
            ).concat(u128_to_decimal(*have).as_str()).concat(", need ").concat(
                u128_to_decimal(*need).as_str(),
            ),
            CoreError::Database(what) => String::from_str("Database error: ").concat(what.as_str()),
        }
    }
}

} // verus!
