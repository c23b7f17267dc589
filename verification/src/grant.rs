//! The authorization delegate. The vault is a contract, not a person: when a
//! collaborator it calls goes on to move funds in the vault's name, the vault
//! has to approve that nested call beforehand. A grant approves exactly one
//! nested call, with an exact function and exact arguments, and nothing below
//! it. It lives for the invocation that made it and is never stored.

use vstd::prelude::*;
use crate::address::Address;

verus! {

/// The function of a collaborator that a grant can approve.
#[derive(Clone, Copy, Debug, PartialEq, Eq, Structural, Hash)]
pub enum Selector {
    /// `transfer(from, to, amount)` of a token ledger.
    Transfer,
}

/// The name under which a collaborator exports each function.
pub open spec fn selector_name(selector: Selector) -> Seq<char> {
    match selector {
        Selector::Transfer => "transfer"@,
    }
}

impl Selector {
    /// The name under which the collaborator exports the function.
    pub fn name(&self) -> (text: &'static str)
        ensures
            text@ == selector_name(*self),
    {
        match self {
            Selector::Transfer => "transfer",
        }
    }
}

/// The arguments of a `transfer`, in the order of the call.
#[derive(Clone, Copy, Debug, PartialEq, Eq, Structural, Hash)]
pub struct TransferArgs {
    pub from: Address,
    pub to: Address,
    pub amount: i128,
}

/// A grant: the vault, as itself, approves one call of `selector` on `target`
/// with `args`, and at most `max_subcalls` calls nested below it.
#[derive(Clone, Copy, Debug, PartialEq, Eq, Structural, Hash)]
pub struct Authorization {
    pub target: Address,
    pub selector: Selector,
    pub args: TransferArgs,
    pub max_subcalls: u32,
}

impl Authorization {
    /// Whether the grant covers a call of `selector` on `target` with `args`:
    /// only the very call it was made for.
    pub open spec fn covers(self, target: Address, selector: Selector, args: TransferArgs) -> bool {
        self.target == target && self.selector == selector && self.args == args
    }

    /// Whether the grant covers the given call.
    pub fn permits(&self, target: Address, selector: Selector, args: TransferArgs) -> (yes: bool)
        ensures
            yes == self.covers(target, selector, args),
    {
        self.target == target && self.selector == selector && self.args == args
    }
}

/// Makes the grant for one call of `selector` on `target` with `args`. It
/// allows no calls below that one.
pub fn authorize(target: Address, selector: Selector, args: TransferArgs) -> (grant: Authorization)
    ensures
        grant == (Authorization { target, selector, args, max_subcalls: 0 }),
{
    Authorization { target, selector, args, max_subcalls: 0 }
}

} // verus!
