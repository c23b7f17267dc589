//! Principals: the users and contracts that hold balances and make calls.

use vstd::prelude::*;

verus! {

/// What stands behind an address.
#[derive(Clone, Copy, Debug, PartialEq, Eq, Structural, Hash)]
pub enum AddressKind {
    /// A user's account.
    Account,
    /// A contract, such as the vault itself, the asset ledger or the pool.
    Contract,
}

/// The identity of a principal: its kind and its 256-bit key, held as two
/// halves. Two addresses name the same principal exactly when all three
/// fields agree.
#[derive(Clone, Copy, Debug, PartialEq, Eq, Structural, Hash)]
pub struct Address {
    pub kind: AddressKind,
    /// The upper 128 bits of the key.
    pub hi: u128,
    /// The lower 128 bits of the key.
    pub lo: u128,
}

} // verus!
