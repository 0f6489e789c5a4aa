use gitgold::supply::DEFAULT_SUPPLY_CAP;
use gitgold::{Address, BalanceTracker, LedgerError, SupplyTracker};

#[test]
fn supply_mint_and_burn() {
    let mut supply = SupplyTracker::new(1_000);
    assert_eq!(supply.mint(1_000), Ok(()));
    assert_eq!(supply.mint(1), Err(LedgerError::SupplyCapExceeded));
    supply.burn(400);
    assert_eq!(supply.total_minted(), 1_000);
    assert_eq!(supply.total_burned(), 400);
    assert_eq!(supply.circulating(), 600);
    assert_eq!(supply.mint(0), Ok(()));
}

#[test]
fn default_supply_cap_is_a_hundred_million_tokens() {
    let supply = SupplyTracker::default_config();
    assert_eq!(supply.cap(), 100_000_000 * gitgold::types::MICRO_PER_TOKEN);
    assert_eq!(supply.cap(), DEFAULT_SUPPLY_CAP);
    assert_eq!(supply.total_minted(), 0);
}

#[test]
fn balances_credit_debit_transfer() {
    let mut b = BalanceTracker::new();
    let alice = Address::new("alice");
    let bob = Address::new("bob");
    assert_eq!(b.balance(&alice), 0);
    b.credit(&alice, 10);
    b.credit(&alice, 5);
    assert_eq!(b.balance(&alice), 15);
    assert_eq!(b.debit(&alice, 16), Err(LedgerError::InsufficientBalance { needed: 16, available: 15 }));
    assert_eq!(b.debit(&alice, 6), Ok(()));
    assert_eq!(b.balance(&alice), 9);
    assert_eq!(b.transfer(&alice, &bob, 9), Ok(()));
    assert_eq!(b.balance(&alice), 0);
    assert_eq!(b.balance(&bob), 9);
    assert_eq!(
        b.transfer(&alice, &bob, 1),
        Err(LedgerError::InsufficientBalance { needed: 1, available: 0 })
    );
    assert_eq!(b.balance(&bob), 9);
}
