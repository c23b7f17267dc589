//! The exchange-rate policy: a fixed rate between the deposited asset and the
//! vault's shares. One share is worth `RATE / SCALAR` units of the asset, and
//! both conversions round toward zero.

use vstd::prelude::*;

verus! {

/// Asset units that `SCALAR` shares are worth.
pub const RATE: i128 = 10_500_000;

/// Fixed-point scale of `RATE`.
pub const SCALAR: i128 = 10_000_000;

/// The quotient of `n` by a positive `d`, rounded toward zero.
pub open spec fn div_toward_zero(n: int, d: int) -> int {
    if n >= 0 {
        n / d
    } else {
        -((-n) / d)
    }
}

/// Shares that `amount` units of the asset buy: `amount * SCALAR / RATE`,
/// rounded toward zero.
pub open spec fn shares_for(amount: int) -> int {
    div_toward_zero(amount * SCALAR, RATE as int)
}

/// Asset units that `shares` shares redeem: `shares * RATE / SCALAR`,
/// rounded toward zero.
pub open spec fn asset_for(shares: int) -> int {
    div_toward_zero(shares * RATE, SCALAR as int)
}

/// Converts an asset amount to shares. The result is never larger in
/// magnitude than `amount`, so every `i128` amount has one.
pub fn to_shares(amount: i128) -> (shares: i128)
    ensures
        shares == shares_for(amount as int),
{
    let whole: i128 = amount / RATE;
    let part: i128 = amount % RATE;
    whole * SCALAR + (part * SCALAR) / RATE
}

/// Converts shares to an asset amount, or `None` where that amount does not
/// fit in an `i128`.
pub fn to_asset(shares: i128) -> (asset: Option<i128>)
    ensures
        (match asset {
            Some(amount) => amount == asset_for(shares as int),
            None => asset_for(shares as int) < i128::MIN || asset_for(shares as int) > i128::MAX,
        }),
{
    let whole: i128 = shares / SCALAR;
    let part: i128 = shares % SCALAR;
    let fraction: i128 = (part * RATE) / SCALAR;
    match whole.checked_mul(RATE) {
        Some(scaled) => scaled.checked_add(fraction),
        None => None,
    }
}

/// Converting an amount to shares and back never yields more than the amount,
/// and loses at most one unit of it to rounding.
pub proof fn lemma_round_trip_never_gains(amount: int)
    requires
        amount >= 0,
    ensures
        amount - 1 <= asset_for(shares_for(amount)) <= amount,
        0 <= shares_for(amount) <= amount,
{
}

} // verus!
