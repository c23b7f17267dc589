use pegaso_vault::rate::{to_asset, to_shares, RATE, SCALAR};

#[test]
fn the_rate_is_one_point_zero_five() {
    assert_eq!(RATE, 10_500_000);
    assert_eq!(SCALAR, 10_000_000);
}

#[test]
fn shares_are_the_scaled_amount_rounded_down() {
    assert_eq!(to_shares(1_000_000), 952_380);
    assert_eq!(to_shares(0), 0);
    assert_eq!(to_shares(1), 0);
    assert_eq!(to_shares(2), 1);
    assert_eq!(to_shares(20), 19);
    assert_eq!(to_shares(21), 20);
    assert_eq!(to_shares(22), 20);
    assert_eq!(to_shares(23), 21);
    assert_eq!(to_shares(10_500_000), 10_000_000);
    assert_eq!(to_shares(10_499_999), 9_999_999);
    assert_eq!(to_shares(10_500_001), 10_000_000);
}

#[test]
fn asset_is_the_scaled_shares_rounded_down() {
    assert_eq!(to_asset(500_000), Some(525_000));
    assert_eq!(to_asset(0), Some(0));
    assert_eq!(to_asset(1), Some(1));
    assert_eq!(to_asset(19), Some(19));
    assert_eq!(to_asset(20), Some(21));
    assert_eq!(to_asset(39), Some(40));
    assert_eq!(to_asset(40), Some(42));
    assert_eq!(to_asset(10_000_000), Some(10_500_000));
    assert_eq!(to_asset(952_380), Some(999_999));
}

#[test]
fn conversions_round_toward_zero_below_zero_too() {
    assert_eq!(to_shares(-1), 0);
    assert_eq!(to_shares(-21), -20);
    assert_eq!(to_shares(-22), -20);
    assert_eq!(to_shares(-1_000_000), -952_380);
    assert_eq!(to_asset(-1), Some(-1));
    assert_eq!(to_asset(-20), Some(-21));
    assert_eq!(to_asset(-39), Some(-40));
    assert_eq!(to_asset(-500_000), Some(-525_000));
}

#[test]
fn shares_of_the_largest_amounts() {
    let top = i128::MAX / 21 * 20 + (i128::MAX % 21) * 20 / 21;
    assert_eq!(to_shares(i128::MAX), top);
    assert_eq!(to_shares(i128::MIN), -top - 1);
    assert_eq!(top, 162_039_222_343_304_030_220_654_574_967_508_672_120);
}

#[test]
fn asset_amounts_that_do_not_fit() {
    assert_eq!(to_asset(i128::MAX), None);
    assert_eq!(to_asset(i128::MIN), None);
    // The largest share count whose asset amount still fits.
    let last = 162_039_222_343_304_030_220_654_574_967_508_672_121_i128;
    assert_eq!(to_asset(last), Some(i128::MAX));
    assert_eq!(to_asset(last + 1), None);
    assert_eq!(to_asset(-last), Some(-i128::MAX));
    assert_eq!(to_asset(-last - 1), Some(i128::MIN));
    assert_eq!(to_asset(-last - 2), None);
}

#[test]
fn there_and_back_loses_at_most_one_unit() {
    for amount in 0..10_000_i128 {
        let back = to_asset(to_shares(amount)).unwrap();
        assert!(back <= amount);
        assert!(back >= amount - 1);
    }
    for amount in [i128::MAX, i128::MAX - 1, i128::MAX / 2, 10_i128.pow(30) + 7] {
        let back = to_asset(to_shares(amount)).unwrap();
        assert!(back <= amount);
        assert!(back >= amount - 1);
    }
}
