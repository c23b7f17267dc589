//! The vault as a state machine over mathematical values. The executable
//! vault is specified against this model: its view is a `VaultState`, and each
//! of its operations does what the model's operation of the same name says.

use vstd::prelude::*;
use crate::action::{Action, Invocation, Outcome, Request, RequestType};
use crate::address::Address;
use crate::error::VaultError;
use crate::grant::{Authorization, Selector, TransferArgs};
use crate::rate::{asset_for, shares_for};
use crate::sum::sum_values;

verus! {

/// The shares that `user` holds under `balances`: an absent user holds none.
pub open spec fn balance_in(balances: Map<Address, int>, user: Address) -> int {
    if balances.dom().contains(user) {
        balances[user]
    } else {
        0
    }
}

/// Everything a vault stores: the pool and the asset it was set up with, each
/// depositor's shares, and the total of all shares.
#[verifier::ext_equal]
pub struct VaultState {
    pub pool: Option<Address>,
    pub asset: Option<Address>,
    pub balances: Map<Address, int>,
    pub total_shares: int,
}

impl VaultState {
    /// The state of a vault before `init`: nothing is stored.
    pub open spec fn fresh() -> VaultState {
        VaultState { pool: None, asset: None, balances: Map::empty(), total_shares: 0 }
    }

    /// Whether `init` has been carried out.
    pub open spec fn initialized(self) -> bool {
        self.pool is Some && self.asset is Some
    }

    /// The shares that `user` holds.
    pub open spec fn balance_of(self, user: Address) -> int {
        balance_in(self.balances, user)
    }

    /// What holds of every state that a vault can be in: no balance is
    /// negative, the total is the sum of all balances and fits in 128 bits,
    /// the two addresses are stored together, and before `init` nobody holds
    /// anything.
    pub open spec fn sound(self) -> bool {
        &&& self.balances.dom().finite()
        &&& forall|user: Address|
            self.balances.dom().contains(user) ==> #[trigger] self.balances[user] >= 0
        &&& self.total_shares == sum_values(self.balances)
        &&& 0 <= self.total_shares <= i128::MAX
        &&& (self.pool is Some <==> self.asset is Some)
        &&& (self.pool is None ==> self.balances =~= Map::empty())
    }

    /// The state with `shares` more for `user`.
    pub open spec fn credit(self, user: Address, shares: int) -> VaultState {
        VaultState {
            balances: self.balances.insert(user, self.balance_of(user) + shares),
            total_shares: self.total_shares + shares,
            ..self
        }
    }

    /// The state with `shares` fewer for `user`.
    pub open spec fn debit(self, user: Address, shares: int) -> VaultState {
        VaultState {
            balances: self.balances.insert(user, self.balance_of(user) - shares),
            total_shares: self.total_shares - shares,
            ..self
        }
    }

    /// `init`: stores the two addresses and starts with no balances, unless a
    /// pool address is stored already.
    pub open spec fn init(self, pool: Address, asset: Address) -> Result<VaultState, VaultError> {
        if self.pool is Some {
            Err(VaultError::AlreadyInitialized)
        } else {
            Ok(
                VaultState {
                    pool: Some(pool),
                    asset: Some(asset),
                    balances: Map::empty(),
                    total_shares: 0,
                },
            )
        }
    }

    /// Whether a deposit of `amount` for `user` is admitted, and the shares it
    /// buys. The checks come in this order: the caller is the user, the
    /// amount is positive, the vault is initialized, the new total fits.
    pub open spec fn deposit_shares(self, ctx: Invocation, user: Address, amount: i128) -> Result<
        int,
        VaultError,
    > {
        if ctx.caller != user {
            Err(VaultError::Unauthorized)
        } else if amount <= 0 {
            Err(VaultError::InvalidAmount)
        } else if !self.initialized() {
            Err(VaultError::Uninitialized)
        } else if self.total_shares + shares_for(amount as int) > i128::MAX {
            Err(VaultError::Overflow)
        } else {
            Ok(shares_for(amount as int))
        }
    }

    /// The calls that make up an admitted deposit, in order: the user pays
    /// the vault; the vault approves the pool's pull of exactly that amount
    /// from the vault; the vault supplies the amount to the pool as
    /// collateral, for itself.
    pub open spec fn deposit_actions(self, ctx: Invocation, user: Address, amount: i128) -> Seq<
        Action,
    > {
        let pool = self.pool->0;
        let asset = self.asset->0;
        seq![
            Action::Transfer { token: asset, from: user, to: ctx.vault, amount },
            Action::Authorize {
                grant: Authorization {
                    target: asset,
                    selector: Selector::Transfer,
                    args: TransferArgs { from: ctx.vault, to: pool, amount },
                    max_subcalls: 0,
                },
            },
            Action::Submit {
                pool,
                submitter: ctx.vault,
                supportee: ctx.vault,
                beneficiary: ctx.vault,
                request: Request { request_type: RequestType::SupplyCollateral, asset, amount },
            },
        ]
    }

    /// `deposit`: an admitted deposit whose calls were all carried out credits
    /// the user with the shares bought. Anything else is an error.
    pub open spec fn deposit(
        self,
        ctx: Invocation,
        user: Address,
        amount: i128,
        outcome: Outcome,
    ) -> Result<VaultState, VaultError> {
        match self.deposit_shares(ctx, user, amount) {
            Err(error) => Err(error),
            Ok(shares) => if outcome == Outcome::Failed {
                Err(VaultError::CollaboratorFailure)
            } else {
                Ok(self.credit(user, shares))
            },
        }
    }

    /// Whether a withdrawal of `shares` for `user` is admitted, and the asset
    /// amount it redeems. The checks come in this order: the caller is the
    /// user, the share amount is positive, the vault is initialized, the user
    /// holds that many shares, the asset amount fits.
    pub open spec fn withdraw_amount(self, ctx: Invocation, user: Address, shares: i128) -> Result<
        int,
        VaultError,
    > {
        if ctx.caller != user {
            Err(VaultError::Unauthorized)
        } else if shares <= 0 {
            Err(VaultError::InvalidAmount)
        } else if !self.initialized() {
            Err(VaultError::Uninitialized)
        } else if shares > self.balance_of(user) {
            Err(VaultError::InsufficientShares)
        } else if asset_for(shares as int) > i128::MAX {
            Err(VaultError::Overflow)
        } else {
            Ok(asset_for(shares as int))
        }
    }

    /// The calls that make up an admitted withdrawal, in order: the vault
    /// approves the transfer of exactly the redeemed amount of its position
    /// from the vault to the pool, on the pool's own ledger; the vault
    /// withdraws that amount of collateral from the pool, to be paid out to
    /// the user.
    pub open spec fn withdraw_actions(self, ctx: Invocation, user: Address, shares: i128) -> Seq<
        Action,
    > {
        let pool = self.pool->0;
        let asset = self.asset->0;
        let amount = asset_for(shares as int) as i128;
        seq![
            Action::Authorize {
                grant: Authorization {
                    target: pool,
                    selector: Selector::Transfer,
                    args: TransferArgs { from: ctx.vault, to: pool, amount },
                    max_subcalls: 0,
                },
            },
            Action::Submit {
                pool,
                submitter: ctx.vault,
                supportee: ctx.vault,
                beneficiary: user,
                request: Request { request_type: RequestType::WithdrawCollateral, asset, amount },
            },
        ]
    }

    /// `withdraw`: an admitted withdrawal whose calls were all carried out
    /// takes the shares from the user. Anything else is an error.
    pub open spec fn withdraw(
        self,
        ctx: Invocation,
        user: Address,
        shares: i128,
        outcome: Outcome,
    ) -> Result<VaultState, VaultError> {
        match self.withdraw_amount(ctx, user, shares) {
            Err(error) => Err(error),
            Ok(_) => if outcome == Outcome::Failed {
                Err(VaultError::CollaboratorFailure)
            } else {
                Ok(self.debit(user, shares as int))
            },
        }
    }
}

} // verus!
