//! The vault: pooled deposits of one asset, lent on to a pool, with each
//! depositor's claim kept as shares.
//!
//! The vault never calls the asset ledger or the pool itself. For a deposit
//! or a withdrawal it first says which calls are due (`prepare_deposit`,
//! `prepare_withdraw`); the host carries them out as the vault and reports
//! the outcome; only then does `deposit` or `withdraw` change the balances.
//! The balances are thus the last thing to change, and every failure before
//! that leaves the vault as it was.

use vstd::prelude::*;
use crate::action::{Action, Invocation, Outcome, Request, RequestType};
use crate::address::Address;
use crate::book::{distinct_holders, entries_map, no_negative, Entry, ShareBook};
use crate::error::VaultError;
use crate::grant::{authorize, Selector, TransferArgs};
use crate::model::VaultState;
use crate::rate::{lemma_round_trip_never_gains, to_asset, to_shares};
use crate::sum::sum_values;

verus! {

/// The four things a vault stores.
#[derive(Clone, Copy, Debug, PartialEq, Eq, Structural, Hash)]
pub enum DataKey {
    Pool,
    Asset,
    Balances,
    TotalShares,
}

/// Whether a state holds something under `key`. `init` stores all four
/// together.
pub open spec fn stored(state: VaultState, key: DataKey) -> bool {
    match key {
        DataKey::Pool => state.pool is Some,
        DataKey::Asset => state.asset is Some,
        DataKey::Balances => state.pool is Some,
        DataKey::TotalShares => state.pool is Some,
    }
}

/// Whether stored balances and a stored total can be taken back into a vault:
/// one entry per holder, no negative entry, and the total is their sum.
pub open spec fn restorable(entries: Seq<Entry>, total_shares: int) -> bool {
    &&& distinct_holders(entries)
    &&& no_negative(entries)
    &&& sum_values(entries_map(entries)) == total_shares
}

/// One vault.
pub struct PegasoVault {
    pool: Option<Address>,
    asset: Option<Address>,
    book: ShareBook,
}

impl View for PegasoVault {
    type V = VaultState;

    closed spec fn view(&self) -> VaultState {
        VaultState {
            pool: self.pool,
            asset: self.asset,
            balances: self.book.balances(),
            total_shares: self.book.total(),
        }
    }
}

impl PegasoVault {
    #[verifier::type_invariant]
    spec fn consistent(self) -> bool {
        &&& self.book.wf()
        &&& (self.pool is Some <==> self.asset is Some)
        &&& (self.pool is None ==> self.book.balances() =~= Map::empty())
    }

    proof fn lemma_sound(self)
        requires
            self.consistent(),
        ensures
            self@.sound(),
            self@.total_shares >= 0,
    {
        self.book.lemma_wf();
    }

    /// A vault that stores nothing yet.
    pub fn new() -> (vault: PegasoVault)
        ensures
            vault@ == VaultState::fresh(),
            vault@.sound(),
    {
        let vault = PegasoVault { pool: None, asset: None, book: ShareBook::new() };
        proof {
            vault.lemma_sound();
        }
        vault
    }

    /// Takes stored values back into a vault that is set up: its two
    /// addresses, the balances as a list with one entry per holder, and the
    /// total. Values that no vault can have stored give `None`.
    pub fn restore(
        pool: Address,
        asset: Address,
        entries: Vec<Entry>,
        total_shares: i128,
    ) -> (vault: Option<PegasoVault>)
        ensures
            (match vault {
                Some(vault) => {
                    &&& restorable(entries@, total_shares as int)
                    &&& vault@ == (VaultState {
                        pool: Some(pool),
                        asset: Some(asset),
                        balances: entries_map(entries@),
                        total_shares: total_shares as int,
                    })
                    &&& vault@.sound()
                },
                None => !restorable(entries@, total_shares as int),
            }),
    {
        match ShareBook::from_entries(entries) {
            None => None,
            Some(book) => {
                proof {
                    book.lemma_wf();
                }
                if book.total_shares() == total_shares {
                    let vault = PegasoVault { pool: Some(pool), asset: Some(asset), book };
                    proof {
                        vault.lemma_sound();
                    }
                    Some(vault)
                } else {
                    None
                }
            },
        }
    }

    /// Sets the vault up with its pool and its asset. A vault can be set up
    /// once: on one that holds a pool address already this fails and changes
    /// nothing.
    pub fn init(&mut self, pool: Address, asset: Address) -> (done: Result<(), VaultError>)
        ensures
            (match old(self)@.init(pool, asset) {
                Ok(next) => done is Ok && final(self)@ == next,
                Err(error) => done == Err::<(), VaultError>(error) && final(self)@ == old(self)@,
            }),
            old(self)@.sound(),
            final(self)@.sound(),
    {
        proof {
            use_type_invariant(&*self);
            self.lemma_sound();
        }
        if self.has(DataKey::Pool) {
            return Err(VaultError::AlreadyInitialized);
        }
        *self = PegasoVault { pool: Some(pool), asset: Some(asset), book: ShareBook::new() };
        proof {
            self.lemma_sound();
        }
        Ok(())
    }

    /// Whether the vault stores something under `key`.
    pub fn has(&self, key: DataKey) -> (present: bool)
        ensures
            present == stored(self@, key),
    {
        match key {
            DataKey::Pool => self.pool.is_some(),
            DataKey::Asset => self.asset.is_some(),
            DataKey::Balances => self.pool.is_some(),
            DataKey::TotalShares => self.pool.is_some(),
        }
    }

    /// Whether a deposit of `amount` for `user` is admitted, and the shares
    /// it buys.
    fn check_deposit(&self, ctx: Invocation, user: Address, amount: i128) -> (verdict: Result<
        i128,
        VaultError,
    >)
        ensures
            (match self@.deposit_shares(ctx, user, amount) {
                Ok(shares) => verdict == Ok::<i128, VaultError>(shares as i128) && 0 <= shares
                    <= i128::MAX,
                Err(error) => verdict == Err::<i128, VaultError>(error),
            }),
            self@.sound(),
    {
        proof {
            use_type_invariant(self);
            self.lemma_sound();
        }
        if ctx.caller != user {
            return Err(VaultError::Unauthorized);
        }
        if amount <= 0 {
            return Err(VaultError::InvalidAmount);
        }
        if self.pool.is_none() || self.asset.is_none() {
            return Err(VaultError::Uninitialized);
        }
        let shares: i128 = to_shares(amount);
        proof {
            lemma_round_trip_never_gains(amount as int);
        }
        if shares > i128::MAX - self.book.total_shares() {
            return Err(VaultError::Overflow);
        }
        Ok(shares)
    }

    /// The calls that the host has to carry out, in order, before a deposit
    /// of `amount` for `user` can be booked; or why the deposit is turned
    /// down. The vault is not changed.
    pub fn prepare_deposit(&self, ctx: Invocation, user: Address, amount: i128) -> (plan: Result<
        Vec<Action>,
        VaultError,
    >)
        ensures
            (match self@.deposit_shares(ctx, user, amount) {
                Ok(_) => plan matches Ok(actions) && actions@ == self@.deposit_actions(
                    ctx,
                    user,
                    amount,
                ),
                Err(error) => plan matches Err(refusal) && refusal == error,
            }),
    {
        match self.check_deposit(ctx, user, amount) {
            Err(error) => Err(error),
            Ok(_) => {
                let pool = self.pool.unwrap();
                let asset = self.asset.unwrap();
                let grant = authorize(
                    asset,
                    Selector::Transfer,
                    TransferArgs { from: ctx.vault, to: pool, amount },
                );
                let mut actions: Vec<Action> = Vec::new();
                actions.push(Action::Transfer { token: asset, from: user, to: ctx.vault, amount });
                actions.push(Action::Authorize { grant });
                actions.push(
                    Action::Submit {
                        pool,
                        submitter: ctx.vault,
                        supportee: ctx.vault,
                        beneficiary: ctx.vault,
                        request: Request {
                            request_type: RequestType::SupplyCollateral,
                            asset,
                            amount,
                        },
                    },
                );
                assert(actions@ =~= self@.deposit_actions(ctx, user, amount));
                Ok(actions)
            },
        }
    }

    /// Books a deposit of `amount` for `user`, once the host has carried out
    /// the calls of `prepare_deposit` and reports their `outcome`. The user
    /// is credited with the shares that `amount` buys, and the total grows by
    /// as much. A deposit that is turned down, or whose calls failed, changes
    /// nothing.
    pub fn deposit(
        &mut self,
        ctx: Invocation,
        user: Address,
        amount: i128,
        outcome: Outcome,
    ) -> (done: Result<(), VaultError>)
        ensures
            (match old(self)@.deposit(ctx, user, amount, outcome) {
                Ok(next) => done is Ok && final(self)@ == next,
                Err(error) => done == Err::<(), VaultError>(error) && final(self)@ == old(self)@,
            }),
            old(self)@.sound(),
            final(self)@.sound(),
    {
        proof {
            use_type_invariant(&*self);
            self.lemma_sound();
        }
        let shares: i128 = match self.check_deposit(ctx, user, amount) {
            Err(error) => {
                return Err(error);
            },
            Ok(shares) => shares,
        };
        if outcome == Outcome::Failed {
            return Err(VaultError::CollaboratorFailure);
        }
        let mut book = ShareBook::new();
        core::mem::swap(&mut book, &mut self.book);
        let current: i128 = book.balance_of(user);
        book.set(user, current + shares);
        self.book = book;
        proof {
            self.lemma_sound();
        }
        Ok(())
    }

    /// Whether a withdrawal of `shares` for `user` is admitted, and the asset
    /// amount it redeems.
    fn check_withdraw(&self, ctx: Invocation, user: Address, shares: i128) -> (verdict: Result<
        i128,
        VaultError,
    >)
        ensures
            (match self@.withdraw_amount(ctx, user, shares) {
                Ok(amount) => verdict == Ok::<i128, VaultError>(amount as i128) && 0 <= amount
                    <= i128::MAX,
                Err(error) => verdict == Err::<i128, VaultError>(error),
            }),
            self@.sound(),
    {
        proof {
            use_type_invariant(self);
            self.lemma_sound();
        }
        if ctx.caller != user {
            return Err(VaultError::Unauthorized);
        }
        if shares <= 0 {
            return Err(VaultError::InvalidAmount);
        }
        if self.pool.is_none() || self.asset.is_none() {
            return Err(VaultError::Uninitialized);
        }
        if shares > self.book.balance_of(user) {
            return Err(VaultError::InsufficientShares);
        }
        match to_asset(shares) {
            Some(amount) => Ok(amount),
            None => Err(VaultError::Overflow),
        }
    }

    /// The calls that the host has to carry out, in order, before a
    /// withdrawal of `shares` for `user` can be booked; or why the withdrawal
    /// is turned down. The vault is not changed.
    pub fn prepare_withdraw(&self, ctx: Invocation, user: Address, shares: i128) -> (plan: Result<
        Vec<Action>,
        VaultError,
    >)
        ensures
            (match self@.withdraw_amount(ctx, user, shares) {
                Ok(_) => plan matches Ok(actions) && actions@ == self@.withdraw_actions(
                    ctx,
                    user,
                    shares,
                ),
                Err(error) => plan matches Err(refusal) && refusal == error,
            }),
    {
        match self.check_withdraw(ctx, user, shares) {
            Err(error) => Err(error),
            Ok(amount) => {
                let pool = self.pool.unwrap();
                let asset = self.asset.unwrap();
                let grant = authorize(
                    pool,
                    Selector::Transfer,
                    TransferArgs { from: ctx.vault, to: pool, amount },
                );
                let mut actions: Vec<Action> = Vec::new();
                actions.push(Action::Authorize { grant });
                actions.push(
                    Action::Submit {
                        pool,
                        submitter: ctx.vault,
                        supportee: ctx.vault,
                        beneficiary: user,
                        request: Request {
                            request_type: RequestType::WithdrawCollateral,
                            asset,
                            amount,
                        },
                    },
                );
                assert(actions@ =~= self@.withdraw_actions(ctx, user, shares));
                Ok(actions)
            },
        }
    }

    /// Books a withdrawal of `shares` for `user`, once the host has carried
    /// out the calls of `prepare_withdraw` and reports their `outcome`. The
    /// shares leave the user's balance and the total. A withdrawal that is
    /// turned down, or whose calls failed, changes nothing.
    pub fn withdraw(
        &mut self,
        ctx: Invocation,
        user: Address,
        shares: i128,
        outcome: Outcome,
    ) -> (done: Result<(), VaultError>)
        ensures
            (match old(self)@.withdraw(ctx, user, shares, outcome) {
                Ok(next) => done is Ok && final(self)@ == next,
                Err(error) => done == Err::<(), VaultError>(error) && final(self)@ == old(self)@,
            }),
            old(self)@.sound(),
            final(self)@.sound(),
    {
        proof {
            use_type_invariant(&*self);
            self.lemma_sound();
        }
        match self.check_withdraw(ctx, user, shares) {
            Err(error) => {
                return Err(error);
            },
            Ok(_) => {},
        }
        if outcome == Outcome::Failed {
            return Err(VaultError::CollaboratorFailure);
        }
        let mut book = ShareBook::new();
        core::mem::swap(&mut book, &mut self.book);
        let current: i128 = book.balance_of(user);
        book.set(user, current - shares);
        self.book = book;
        proof {
            self.lemma_sound();
        }
        Ok(())
    }

    /// The shares that `user` holds: zero for a user the vault does not
    /// know, and on a vault that is not set up.
    pub fn balance(&self, user: Address) -> (shares: i128)
        ensures
            shares == self@.balance_of(user),
            shares >= 0,
    {
        proof {
            use_type_invariant(self);
        }
        self.book.balance_of(user)
    }

    /// The total of all shares, which is the sum of all balances: zero on a
    /// vault that is not set up.
    pub fn total_shares(&self) -> (total: i128)
        ensures
            total == self@.total_shares,
            total == sum_values(self@.balances),
            total >= 0,
    {
        proof {
            use_type_invariant(self);
            self.lemma_sound();
        }
        self.book.total_shares()
    }

    /// The asset that the vault takes.
    pub fn get_asset(&self) -> (asset: Result<Address, VaultError>)
        ensures
            (match self@.asset {
                Some(address) => asset == Ok::<Address, VaultError>(address),
                None => asset == Err::<Address, VaultError>(VaultError::Uninitialized),
            }),
    {
        match self.asset {
            Some(address) => Ok(address),
            None => Err(VaultError::Uninitialized),
        }
    }

    /// The pool that the vault lends to.
    pub fn get_pool(&self) -> (pool: Result<Address, VaultError>)
        ensures
            (match self@.pool {
                Some(address) => pool == Ok::<Address, VaultError>(address),
                None => pool == Err::<Address, VaultError>(VaultError::Uninitialized),
            }),
    {
        match self.pool {
            Some(address) => Ok(address),
            None => Err(VaultError::Uninitialized),
        }
    }
}

} // verus!
