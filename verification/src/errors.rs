//! The error taxonomy of the library.

use vstd::prelude::*;

verus! {

/// Every failure a manager or query can report, as a typed value.
///
/// A failing operation returns one of these and leaves all state untouched.
#[derive(Clone, Copy, Debug, PartialEq, Eq, Structural)]
pub enum ContractError {
    /// An entry id that is not a key of the primary map.
    NotFound,
    /// The caller lacks the right to perform the operation.
    Unauthorized,
    /// The owner already bookmarked this number.
    DuplicateNumber,
    /// A public entry other than the most recently published one cannot be
    /// made private, because removing a non-tail element of the public index
    /// would silently reorder it.
    UnsupportedTransition,
    /// A page whose first position lies beyond the end of the index.
    OutOfBounds,
    /// The host rejected the given address.
    InvalidAddress,
}

impl ContractError {
    /// The human-readable message of each failure.
    pub fn message(&self) -> (r: String)
        ensures
            r@ == self.spec_message(),
    {
        proof {
            reveal_strlit("Entry not found");
            reveal_strlit("Unauthorized");
            reveal_strlit("Number already bookmarked");
            reveal_strlit(
                "Updating a public entry to be private is currently unsupported when it's not the last entry marked as public",
            );
            reveal_strlit("out of bounds");
            reveal_strlit("Invalid address");
        }
        match self {
            ContractError::NotFound => "Entry not found".to_owned(),
            ContractError::Unauthorized => "Unauthorized".to_owned(),
            ContractError::DuplicateNumber => "Number already bookmarked".to_owned(),
            ContractError::UnsupportedTransition => "Updating a public entry to be private is currently unsupported when it's not the last entry marked as public".to_owned(),
            ContractError::OutOfBounds => "out of bounds".to_owned(),
            ContractError::InvalidAddress => "Invalid address".to_owned(),
        }
    }

    /// What `message` returns, as a sequence of characters.
    pub open spec fn spec_message(&self) -> Seq<char> {
        match self {
            ContractError::NotFound => "Entry not found"@,
            ContractError::Unauthorized => "Unauthorized"@,
            ContractError::DuplicateNumber => "Number already bookmarked"@,
            ContractError::UnsupportedTransition => "Updating a public entry to be private is currently unsupported when it's not the last entry marked as public"@,
            ContractError::OutOfBounds => "out of bounds"@,
            ContractError::InvalidAddress => "Invalid address"@,
        }
    }
}

} // verus!
