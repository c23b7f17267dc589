//! What holds of the vault whatever is asked of it, proved of the model that
//! the executable vault is specified against.

use vstd::prelude::*;
use crate::action::{Invocation, Outcome};
use crate::address::Address;
use crate::error::VaultError;
use crate::model::VaultState;
use crate::rate::{asset_for, lemma_round_trip_never_gains, shares_for};
use crate::sum::{lemma_sum_bounds_each, lemma_sum_empty, lemma_sum_insert, sum_values};

verus! {

/// One call of an operation that can change a vault.
pub enum Op {
    Init { pool: Address, asset: Address },
    Deposit { ctx: Invocation, user: Address, amount: i128, outcome: Outcome },
    Withdraw { ctx: Invocation, user: Address, shares: i128, outcome: Outcome },
}

/// The state after one call: the state that the operation gives, or the same
/// state where the operation fails.
pub open spec fn step(state: VaultState, op: Op) -> VaultState {
    let result = match op {
        Op::Init { pool, asset } => state.init(pool, asset),
        Op::Deposit { ctx, user, amount, outcome } => state.deposit(ctx, user, amount, outcome),
        Op::Withdraw { ctx, user, shares, outcome } => state.withdraw(ctx, user, shares, outcome),
    };
    match result {
        Ok(next) => next,
        Err(_) => state,
    }
}

/// The state of a vault after the given calls, in order, from a vault that
/// stores nothing.
pub open spec fn run(ops: Seq<Op>) -> VaultState
    decreases ops.len(),
{
    if ops.len() == 0 {
        VaultState::fresh()
    } else {
        step(run(ops.drop_last()), ops.last())
    }
}

/// A vault that stores nothing is sound.
pub proof fn lemma_fresh_is_sound()
    ensures
        VaultState::fresh().sound(),
{
    lemma_sum_empty::<Address>();
}

/// `init` leads from a sound state to a sound state.
pub proof fn lemma_init_keeps_sound(state: VaultState, pool: Address, asset: Address)
    requires
        state.sound(),
    ensures
        state.init(pool, asset) matches Ok(next) ==> next.sound(),
{
    lemma_sum_empty::<Address>();
}

/// `deposit` leads from a sound state to a sound state: the total stays the
/// sum of the balances, and no balance turns negative.
pub proof fn lemma_deposit_keeps_sound(
    state: VaultState,
    ctx: Invocation,
    user: Address,
    amount: i128,
    outcome: Outcome,
)
    requires
        state.sound(),
    ensures
        state.deposit(ctx, user, amount, outcome) matches Ok(next) ==> next.sound(),
{
    if state.deposit(ctx, user, amount, outcome) is Ok {
        let shares = shares_for(amount as int);
        lemma_round_trip_never_gains(amount as int);
        lemma_sum_insert(state.balances, user, state.balance_of(user) + shares);
    }
}

/// `withdraw` leads from a sound state to a sound state: the total stays the
/// sum of the balances, and no balance turns negative.
pub proof fn lemma_withdraw_keeps_sound(
    state: VaultState,
    ctx: Invocation,
    user: Address,
    shares: i128,
    outcome: Outcome,
)
    requires
        state.sound(),
    ensures
        state.withdraw(ctx, user, shares, outcome) matches Ok(next) ==> next.sound(),
{
    if state.withdraw(ctx, user, shares, outcome) is Ok {
        lemma_sum_bounds_each(state.balances, user);
        lemma_sum_insert(state.balances, user, state.balance_of(user) - shares);
    }
}

/// Every call leads from a sound state to a sound state, whether it succeeds
/// or fails.
pub proof fn lemma_step_keeps_sound(state: VaultState, op: Op)
    requires
        state.sound(),
    ensures
        step(state, op).sound(),
{
    match op {
        Op::Init { pool, asset } => lemma_init_keeps_sound(state, pool, asset),
        Op::Deposit { ctx, user, amount, outcome } => lemma_deposit_keeps_sound(
            state,
            ctx,
            user,
            amount,
            outcome,
        ),
        Op::Withdraw { ctx, user, shares, outcome } => lemma_withdraw_keeps_sound(
            state,
            ctx,
            user,
            shares,
            outcome,
        ),
    }
}

/// In every state that a vault can reach, the total of shares is the sum of
/// all balances, and no balance is negative.
pub proof fn lemma_reachable_states_are_sound(ops: Seq<Op>)
    ensures
        run(ops).sound(),
        run(ops).total_shares == sum_values(run(ops).balances),
        forall|user: Address| run(ops).balance_of(user) >= 0,
    decreases ops.len(),
{
    if ops.len() == 0 {
        lemma_fresh_is_sound();
    } else {
        lemma_reachable_states_are_sound(ops.drop_last());
        lemma_step_keeps_sound(run(ops.drop_last()), ops.last());
    }
}

/// A vault is set up once. After an `init` that succeeded, every further
/// `init` fails with `AlreadyInitialized`, whatever it is called with and
/// whatever happened in between, and leaves what the vault stores unchanged.
pub proof fn lemma_second_init_fails(
    state: VaultState,
    pool: Address,
    asset: Address,
    between: Seq<Op>,
    other_pool: Address,
    other_asset: Address,
)
    requires
        state.init(pool, asset) is Ok,
    ensures
        ({
            let first = state.init(pool, asset)->Ok_0;
            let later = follow(first, between);
            &&& later.init(other_pool, other_asset) == Err::<VaultState, VaultError>(
                VaultError::AlreadyInitialized,
            )
            &&& step(later, Op::Init { pool: other_pool, asset: other_asset }) == later
            &&& later.pool == Some(pool)
            &&& later.asset == Some(asset)
        }),
    decreases between.len(),
{
    if between.len() > 0 {
        lemma_second_init_fails(state, pool, asset, between.drop_last(), other_pool, other_asset);
    }
}

/// The state after the given calls, in order, from `state`.
pub open spec fn follow(state: VaultState, ops: Seq<Op>) -> VaultState
    decreases ops.len(),
{
    if ops.len() == 0 {
        state
    } else {
        step(follow(state, ops.drop_last()), ops.last())
    }
}

/// A deposit of an amount that is not positive, by the user it is for, fails
/// with `InvalidAmount`, before any call is due and with nothing changed.
pub proof fn lemma_deposit_needs_positive_amount(
    state: VaultState,
    ctx: Invocation,
    user: Address,
    amount: i128,
    outcome: Outcome,
)
    requires
        ctx.caller == user,
        amount <= 0,
    ensures
        state.deposit_shares(ctx, user, amount) == Err::<int, VaultError>(
            VaultError::InvalidAmount,
        ),
        state.deposit(ctx, user, amount, outcome) == Err::<VaultState, VaultError>(
            VaultError::InvalidAmount,
        ),
        step(state, Op::Deposit { ctx, user, amount, outcome }) == state,
{
}

/// On a vault that is set up, a withdrawal of more shares than the user
/// holds, by that user, fails with `InsufficientShares`, before any call is
/// due and with nothing changed.
pub proof fn lemma_withdraw_needs_shares(
    state: VaultState,
    ctx: Invocation,
    user: Address,
    shares: i128,
    outcome: Outcome,
)
    requires
        state.sound(),
        state.initialized(),
        ctx.caller == user,
        shares > state.balance_of(user),
    ensures
        state.withdraw_amount(ctx, user, shares) == Err::<int, VaultError>(
            VaultError::InsufficientShares,
        ),
        state.withdraw(ctx, user, shares, outcome) == Err::<VaultState, VaultError>(
            VaultError::InsufficientShares,
        ),
        step(state, Op::Withdraw { ctx, user, shares, outcome }) == state,
{
}

/// A deposit that is withdrawn again at once gives back no more than was
/// paid in. Where a deposit of `amount` has succeeded and has bought at least
/// one share, the withdrawal of just those shares is admitted, asks the pool
/// for an amount that is at most `amount` and at least `amount - 1`, and
/// leaves the user's balance and the total where they were before the
/// deposit.
pub proof fn lemma_deposit_then_withdraw(
    state: VaultState,
    ctx: Invocation,
    user: Address,
    amount: i128,
)
    requires
        state.sound(),
        state.deposit(ctx, user, amount, Outcome::Completed) is Ok,
        shares_for(amount as int) > 0,
    ensures
        ({
            let shares = shares_for(amount as int);
            let paid_in = state.deposit(ctx, user, amount, Outcome::Completed)->Ok_0;
            let paid_out = paid_in.withdraw(ctx, user, shares as i128, Outcome::Completed);
            &&& 0 < shares <= i128::MAX
            &&& paid_in.withdraw_amount(ctx, user, shares as i128) == Ok::<int, VaultError>(
                asset_for(shares),
            )
            &&& amount - 1 <= asset_for(shares) <= amount
            &&& paid_out is Ok
            &&& paid_out->Ok_0.balance_of(user) == state.balance_of(user)
            &&& paid_out->Ok_0.total_shares == state.total_shares
        }),
{
    lemma_round_trip_never_gains(amount as int);
}

/// A call changes no balance but that of the user it is for, whether it
/// succeeds or fails; `init` changes none.
pub proof fn lemma_others_untouched(state: VaultState, op: Op, other: Address)
    requires
        state.sound(),
        (match op {
            Op::Init { .. } => true,
            Op::Deposit { user, .. } => user != other,
            Op::Withdraw { user, .. } => user != other,
        }),
    ensures
        step(state, op).balance_of(other) == state.balance_of(other),
{
}

/// Two deposits for different users, one after the other, do not mix: after
/// both, each user holds what that user held before and the shares of that
/// user's own deposit, if it succeeded. This is so whichever of the two comes
/// first; and where both succeed in one order, both succeed in the other and
/// the vault ends in the same state.
pub proof fn lemma_deposits_do_not_cross(
    state: VaultState,
    ctx_a: Invocation,
    user_a: Address,
    amount_a: i128,
    outcome_a: Outcome,
    ctx_b: Invocation,
    user_b: Address,
    amount_b: i128,
    outcome_b: Outcome,
)
    requires
        state.sound(),
        user_a != user_b,
    ensures
        ({
            let a = Op::Deposit { ctx: ctx_a, user: user_a, amount: amount_a, outcome: outcome_a };
            let b = Op::Deposit { ctx: ctx_b, user: user_b, amount: amount_b, outcome: outcome_b };
            let after_a = step(state, a);
            let after_b = step(state, b);
            let a_then_b = step(after_a, b);
            let b_then_a = step(after_b, a);
            let gain_a = shares_for(amount_a as int);
            let gain_b = shares_for(amount_b as int);
            &&& a_then_b.balance_of(user_a) == after_a.balance_of(user_a)
            &&& a_then_b.balance_of(user_b) == state.balance_of(user_b) + (if after_a.deposit(
                ctx_b,
                user_b,
                amount_b,
                outcome_b,
            ) is Ok {
                gain_b
            } else {
                0
            })
            &&& b_then_a.balance_of(user_b) == after_b.balance_of(user_b)
            &&& b_then_a.balance_of(user_a) == state.balance_of(user_a) + (if after_b.deposit(
                ctx_a,
                user_a,
                amount_a,
                outcome_a,
            ) is Ok {
                gain_a
            } else {
                0
            })
            &&& (state.deposit(ctx_a, user_a, amount_a, outcome_a) is Ok && after_a.deposit(
                ctx_b,
                user_b,
                amount_b,
                outcome_b,
            ) is Ok) ==> {
                &&& state.deposit(ctx_b, user_b, amount_b, outcome_b) is Ok
                &&& after_b.deposit(ctx_a, user_a, amount_a, outcome_a) is Ok
                &&& a_then_b == b_then_a
                &&& a_then_b.balance_of(user_a) == state.balance_of(user_a) + gain_a
                &&& a_then_b.balance_of(user_b) == state.balance_of(user_b) + gain_b
            }
        }),
{
    let a = Op::Deposit { ctx: ctx_a, user: user_a, amount: amount_a, outcome: outcome_a };
    let b = Op::Deposit { ctx: ctx_b, user: user_b, amount: amount_b, outcome: outcome_b };
    if amount_a > 0 {
        lemma_round_trip_never_gains(amount_a as int);
    }
    if amount_b > 0 {
        lemma_round_trip_never_gains(amount_b as int);
    }
    if state.deposit(ctx_a, user_a, amount_a, outcome_a) is Ok && step(state, a).deposit(
        ctx_b,
        user_b,
        amount_b,
        outcome_b,
    ) is Ok {
        assert(step(step(state, a), b).balances =~= step(step(state, b), a).balances);
    }
}

} // verus!
