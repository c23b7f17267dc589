use pegaso_vault::action::{Invocation, Outcome};
use pegaso_vault::address::{Address, AddressKind};
use pegaso_vault::book::Entry;
use pegaso_vault::vault::{DataKey, PegasoVault};

fn holder(lo: u128) -> Address {
    Address { kind: AddressKind::Account, hi: 1, lo }
}

fn site(lo: u128) -> Address {
    Address { kind: AddressKind::Contract, hi: 2, lo }
}

fn entry(lo: u128, shares: i128) -> Entry {
    Entry { holder: holder(lo), shares }
}

#[test]
fn stored_values_come_back_as_they_were() {
    let entries = vec![entry(1, 952_380), entry(2, 0), entry(3, 20)];
    let vault = PegasoVault::restore(site(1), site(2), entries, 952_400).unwrap();
    assert_eq!(vault.get_pool(), Ok(site(1)));
    assert_eq!(vault.get_asset(), Ok(site(2)));
    assert_eq!(vault.balance(holder(1)), 952_380);
    assert_eq!(vault.balance(holder(2)), 0);
    assert_eq!(vault.balance(holder(3)), 20);
    assert_eq!(vault.balance(holder(4)), 0);
    assert_eq!(vault.total_shares(), 952_400);
    assert!(vault.has(DataKey::Balances));
}

#[test]
fn a_restored_vault_goes_on_where_it_stopped() {
    let user = holder(1);
    let ctx = Invocation { caller: user, vault: site(3) };

    let mut before = PegasoVault::new();
    before.init(site(1), site(2)).unwrap();
    before.deposit(ctx, user, 1_000_000, Outcome::Completed).unwrap();

    let stored = vec![Entry { holder: user, shares: before.balance(user) }];
    let mut after =
        PegasoVault::restore(site(1), site(2), stored, before.total_shares()).unwrap();
    after.withdraw(ctx, user, 500_000, Outcome::Completed).unwrap();
    assert_eq!(after.balance(user), 452_380);
    assert_eq!(after.total_shares(), 452_380);
}

#[test]
fn no_balances_and_no_shares_is_a_vault_just_set_up() {
    let vault = PegasoVault::restore(site(1), site(2), vec![], 0).unwrap();
    assert_eq!(vault.total_shares(), 0);
    assert_eq!(vault.balance(holder(1)), 0);
    assert!(PegasoVault::restore(site(1), site(2), vec![], 1).is_none());
}

#[test]
fn a_total_that_is_not_the_sum_is_refused() {
    let entries = vec![entry(1, 10), entry(2, 20)];
    assert!(PegasoVault::restore(site(1), site(2), entries.clone(), 31).is_none());
    assert!(PegasoVault::restore(site(1), site(2), entries.clone(), 29).is_none());
    assert!(PegasoVault::restore(site(1), site(2), entries.clone(), -30).is_none());
    assert!(PegasoVault::restore(site(1), site(2), entries, 30).is_some());
}

#[test]
fn a_holder_with_two_entries_is_refused() {
    let entries = vec![entry(1, 10), entry(2, 20), entry(1, 5)];
    assert!(PegasoVault::restore(site(1), site(2), entries, 35).is_none());
    let entries = vec![entry(1, 10), entry(2, 20), entry(1, 5)];
    assert!(PegasoVault::restore(site(1), site(2), entries, 25).is_none());
    let twice = vec![entry(1, 0), entry(1, 0)];
    assert!(PegasoVault::restore(site(1), site(2), twice, 0).is_none());
}

#[test]
fn a_negative_entry_is_refused() {
    let entries = vec![entry(1, 10), entry(2, -1)];
    assert!(PegasoVault::restore(site(1), site(2), entries, 9).is_none());
}

#[test]
fn entries_that_sum_beyond_128_bits_are_refused() {
    let entries = vec![entry(1, i128::MAX), entry(2, 1)];
    assert!(PegasoVault::restore(site(1), site(2), entries, i128::MAX).is_none());
    let entries = vec![entry(1, i128::MAX), entry(2, 0)];
    let vault = PegasoVault::restore(site(1), site(2), entries, i128::MAX).unwrap();
    assert_eq!(vault.total_shares(), i128::MAX);
}
