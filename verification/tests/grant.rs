use pegaso_vault::action::RequestType;
use pegaso_vault::address::{Address, AddressKind};
use pegaso_vault::grant::{authorize, Authorization, Selector, TransferArgs};

fn party(lo: u128) -> Address {
    Address { kind: AddressKind::Contract, hi: 0, lo }
}

#[test]
fn a_grant_names_one_call_and_nothing_below_it() {
    let args = TransferArgs { from: party(3), to: party(1), amount: 1_000_000 };
    let grant = authorize(party(2), Selector::Transfer, args);
    assert_eq!(
        grant,
        Authorization { target: party(2), selector: Selector::Transfer, args, max_subcalls: 0 }
    );
    assert_eq!(grant.max_subcalls, 0);
}

#[test]
fn a_grant_covers_the_exact_call_only() {
    let args = TransferArgs { from: party(3), to: party(1), amount: 1_000_000 };
    let grant = authorize(party(2), Selector::Transfer, args);

    assert!(grant.permits(party(2), Selector::Transfer, args));
    // Another contract.
    assert!(!grant.permits(party(1), Selector::Transfer, args));
    // A larger and a smaller amount.
    assert!(!grant.permits(
        party(2),
        Selector::Transfer,
        TransferArgs { amount: 1_000_001, ..args }
    ));
    assert!(!grant.permits(party(2), Selector::Transfer, TransferArgs { amount: 999_999, ..args }));
    // Another recipient, another sender.
    assert!(!grant.permits(party(2), Selector::Transfer, TransferArgs { to: party(9), ..args }));
    assert!(!grant.permits(party(2), Selector::Transfer, TransferArgs { from: party(9), ..args }));
    // The same key as an account is another principal.
    let as_account = Address { kind: AddressKind::Account, ..party(1) };
    assert!(!grant.permits(party(2), Selector::Transfer, TransferArgs { to: as_account, ..args }));
}

#[test]
fn the_function_is_called_transfer() {
    assert_eq!(Selector::Transfer.name(), "transfer");
}

#[test]
fn the_pool_knows_the_requests_by_number() {
    assert_eq!(RequestType::SupplyCollateral.code(), 2);
    assert_eq!(RequestType::WithdrawCollateral.code(), 3);
}
