//! Why an operation of the vault was turned down. Every error ends the call
//! with nothing changed.

use vstd::prelude::*;

verus! {

#[derive(Clone, Copy, Debug, PartialEq, Eq, Structural, Hash)]
pub enum VaultError {
    /// `init` on a vault that already holds a pool address.
    AlreadyInitialized,
    /// The vault holds no pool and asset address yet.
    Uninitialized,
    /// The call is not authenticated as the user it acts for.
    Unauthorized,
    /// An amount that is zero or negative.
    InvalidAmount,
    /// A withdrawal of more shares than the user holds.
    InsufficientShares,
    /// The asset ledger or the pool turned a call down.
    CollaboratorFailure,
    /// A share total or an asset amount that does not fit in 128 bits.
    Overflow,
}

/// The text of each error.
pub open spec fn message_of(error: VaultError) -> Seq<char> {
    match error {
        VaultError::AlreadyInitialized => "already initialized"@,
        VaultError::Uninitialized => "not initialized"@,
        VaultError::Unauthorized => "unauthorized"@,
        VaultError::InvalidAmount => "invalid amount"@,
        VaultError::InsufficientShares => "insufficient shares"@,
        VaultError::CollaboratorFailure => "collaborator failure"@,
        VaultError::Overflow => "arithmetic overflow"@,
    }
}

impl VaultError {
    /// A short text for the error, for a host to abort with.
    pub fn message(&self) -> (text: &'static str)
        ensures
            text@ == message_of(*self),
    {
        match self {
            VaultError::AlreadyInitialized => "already initialized",
            VaultError::Uninitialized => "not initialized",
            VaultError::Unauthorized => "unauthorized",
            VaultError::InvalidAmount => "invalid amount",
            VaultError::InsufficientShares => "insufficient shares",
            VaultError::CollaboratorFailure => "collaborator failure",
            VaultError::Overflow => "arithmetic overflow",
        }
    }
}

} // verus!
