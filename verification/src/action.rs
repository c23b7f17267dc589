//! What the vault asks of its host: the calls to the asset ledger and to the
//! lending pool that belong to a deposit or a withdrawal. The vault decides
//! them; the host carries them out, in order, and reports how that went.

use vstd::prelude::*;
use crate::address::Address;
use crate::grant::Authorization;

verus! {

/// The two requests that the vault sends to the pool.
#[derive(Clone, Copy, Debug, PartialEq, Eq, Structural, Hash)]
pub enum RequestType {
    SupplyCollateral,
    WithdrawCollateral,
}

/// The number by which the pool knows each request type.
pub open spec fn request_code(request_type: RequestType) -> u32 {
    match request_type {
        RequestType::SupplyCollateral => 2,
        RequestType::WithdrawCollateral => 3,
    }
}

impl RequestType {
    /// The number by which the pool knows the request type.
    pub fn code(&self) -> (code: u32)
        ensures
            code == request_code(*self),
    {
        match self {
            RequestType::SupplyCollateral => 2,
            RequestType::WithdrawCollateral => 3,
        }
    }
}

/// One request to the pool: supply or withdraw `amount` of `asset`.
#[derive(Clone, Copy, Debug, PartialEq, Eq, Structural, Hash)]
pub struct Request {
    pub request_type: RequestType,
    pub asset: Address,
    pub amount: i128,
}

/// One step that the host performs for the vault.
#[derive(Clone, Copy, Debug, PartialEq, Eq, Structural, Hash)]
pub enum Action {
    /// Call `transfer(from, to, amount)` on the ledger `token`.
    Transfer { token: Address, from: Address, to: Address, amount: i128 },
    /// Hand the grant to the host's authorization system, for the next call.
    Authorize { grant: Authorization },
    /// Call `submit` on `pool` with the one request.
    Submit {
        pool: Address,
        submitter: Address,
        supportee: Address,
        beneficiary: Address,
        request: Request,
    },
}

/// How the host fared with the actions of one operation.
#[derive(Clone, Copy, Debug, PartialEq, Eq, Structural, Hash)]
pub enum Outcome {
    /// Every action was carried out.
    Completed,
    /// A collaborator turned a call down.
    Failed,
}

/// What the host knows of the call it is serving.
#[derive(Clone, Copy, Debug, PartialEq, Eq, Structural, Hash)]
pub struct Invocation {
    /// The principal that the host has authenticated for this call.
    pub caller: Address,
    /// The vault's own address.
    pub vault: Address,
}

} // verus!
