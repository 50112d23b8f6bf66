use token_ledger::address::Address;
use token_ledger::fungible::ERC20Token;
use token_ledger::guard::{Event, LedgerError};
use token_ledger::num::U256;
use token_ledger::collections::RobinhoodToken;

fn addr(n: u128) -> Address {
    Address::new(0, n)
}

fn amount(v: u64) -> U256 {
    U256::from_u64(v)
}

fn setup(owner: Address) -> ERC20Token {
    let mut t = ERC20Token::new();
    t.initialize("Token".to_string(), "TKN".to_string(), 18, U256::zero(), owner).unwrap();
    t
}

#[test]
fn mint_then_transfer_and_shortfall() {
    let owner = addr(1);
    let a = addr(10);
    let b = addr(11);
    let mut t = setup(owner);
    t.mint(owner, a, amount(100)).unwrap();
    assert_eq!(t.balance_of(a), amount(100));
    assert_eq!(t.total_supply(), amount(100));
    assert_eq!(t.transfer(a, b, amount(40)), Ok(true));
    assert_eq!(t.balance_of(a), amount(60));
    assert_eq!(t.balance_of(b), amount(40));
    assert_eq!(
        t.transfer(a, b, amount(61)),
        Err(LedgerError::InsufficientBalance { from: a, available: amount(60), required: amount(61) })
    );
    assert_eq!(t.balance_of(a), amount(60));
    assert_eq!(t.balance_of(b), amount(40));
}

#[test]
fn allowance_spend_then_shortfall() {
    let owner = addr(1);
    let o = addr(20);
    let s = addr(21);
    let r = addr(22);
    let mut t = setup(owner);
    t.mint(owner, o, amount(100)).unwrap();
    assert_eq!(t.approve(o, s, amount(50)), Ok(true));
    assert_eq!(t.transfer_from(s, o, r, amount(30)), Ok(true));
    assert_eq!(t.allowance(o, s), amount(20));
    assert_eq!(t.balance_of(r), amount(30));
    assert_eq!(
        t.transfer_from(s, o, r, amount(21)),
        Err(LedgerError::InsufficientAllowance { spender: s, available: amount(20), required: amount(21) })
    );
    assert_eq!(t.allowance(o, s), amount(20));
    assert_eq!(t.balance_of(o), amount(70));
}

#[test]
fn unlimited_allowance_is_never_spent() {
    let owner = addr(1);
    let o = addr(20);
    let s = addr(21);
    let mut t = setup(owner);
    t.mint(owner, o, amount(1000)).unwrap();
    t.approve(o, s, U256::max_value()).unwrap();
    for _ in 0..5 {
        t.transfer_from(s, o, s, amount(7)).unwrap();
        assert_eq!(t.allowance(o, s), U256::max_value());
    }
    t.burn_from(s, o, amount(5)).unwrap();
    assert_eq!(t.allowance(o, s), U256::max_value());
    assert_eq!(t.balance_of(o), amount(1000 - 35 - 5));
}

#[test]
fn supply_equals_sum_of_balances() {
    let owner = addr(1);
    let (a, b, c) = (addr(2), addr(3), addr(4));
    let mut t = setup(owner);
    t.mint(owner, a, amount(500)).unwrap();
    t.mint(owner, b, amount(250)).unwrap();
    t.transfer(a, c, amount(125)).unwrap();
    t.transfer(c, c, amount(100)).unwrap();
    t.burn(b, amount(50)).unwrap();
    let _ = t.burn(c, amount(1000));
    let sum = t.balance_of(a).checked_add(&t.balance_of(b)).unwrap().checked_add(&t.balance_of(c)).unwrap();
    assert_eq!(t.total_supply(), sum);
    assert_eq!(t.total_supply(), amount(700));
    assert_eq!(t.balance_of(c), amount(125));
}

#[test]
fn underflow_is_refused() {
    let owner = addr(1);
    let a = addr(2);
    let mut t = setup(owner);
    t.mint(owner, a, amount(5)).unwrap();
    assert_eq!(
        t.burn(a, amount(6)),
        Err(LedgerError::InsufficientBalance { from: a, available: amount(5), required: amount(6) })
    );
    t.approve(a, owner, amount(3)).unwrap();
    assert_eq!(
        t.decrease_allowance(a, owner, amount(4)),
        Err(LedgerError::InsufficientAllowance { spender: owner, available: amount(3), required: amount(4) })
    );
    assert_eq!(t.balance_of(a), amount(5));
    assert_eq!(t.allowance(a, owner), amount(3));
}

#[test]
fn pause_blocks_transfers_and_burns() {
    let owner = addr(1);
    let a = addr(2);
    let mut t = setup(owner);
    t.mint(owner, a, amount(10)).unwrap();
    t.approve(a, owner, amount(10)).unwrap();
    t.pause(owner).unwrap();
    assert!(t.is_paused());
    assert_eq!(t.transfer(a, owner, amount(1)), Err(LedgerError::EnforcedPause));
    assert_eq!(t.transfer_from(owner, a, owner, amount(1)), Err(LedgerError::EnforcedPause));
    assert_eq!(t.burn(a, amount(1)), Err(LedgerError::EnforcedPause));
    assert_eq!(t.burn_from(owner, a, amount(1)), Err(LedgerError::EnforcedPause));
    assert_eq!(t.pause(owner), Err(LedgerError::EnforcedPause));
    assert_eq!(t.unpause(owner), Ok(()));
    assert_eq!(t.unpause(owner), Err(LedgerError::ExpectedPause));
    assert_eq!(t.transfer(a, owner, amount(1)), Ok(true));
}

#[test]
fn zero_addresses_are_refused() {
    let owner = addr(1);
    let a = addr(2);
    let zero = Address::zero();
    let mut t = setup(owner);
    t.mint(owner, a, amount(10)).unwrap();
    assert_eq!(t.mint(owner, zero, amount(1)), Err(LedgerError::InvalidReceiver { receiver: zero }));
    assert_eq!(t.transfer(a, zero, amount(1)), Err(LedgerError::InvalidReceiver { receiver: zero }));
    assert_eq!(t.transfer(zero, a, amount(1)), Err(LedgerError::InvalidSender { sender: zero }));
    assert_eq!(t.approve(a, zero, amount(1)), Err(LedgerError::InvalidReceiver { receiver: zero }));
    assert_eq!(t.approve(zero, a, amount(1)), Err(LedgerError::InvalidSender { sender: zero }));
    assert_eq!(t.total_supply(), amount(10));
}

#[test]
fn owner_gating_and_renounce() {
    let owner = addr(1);
    let other = addr(2);
    let mut t = setup(owner);
    assert_eq!(t.mint(other, other, amount(1)), Err(LedgerError::Unauthorized { account: other }));
    assert_eq!(t.pause(other), Err(LedgerError::Unauthorized { account: other }));
    assert_eq!(
        t.transfer_ownership(owner, Address::zero()),
        Err(LedgerError::InvalidReceiver { receiver: Address::zero() })
    );
    t.transfer_ownership(owner, other).unwrap();
    assert_eq!(t.owner(), other);
    assert_eq!(t.renounce_ownership(owner), Err(LedgerError::Unauthorized { account: owner }));
    t.renounce_ownership(other).unwrap();
    assert_eq!(t.owner(), Address::zero());
    assert_eq!(t.mint(other, other, amount(1)), Err(LedgerError::Unauthorized { account: other }));
    assert_eq!(t.pause(other), Err(LedgerError::Unauthorized { account: other }));
    assert_eq!(t.total_supply(), U256::zero());
}

#[test]
fn initialize_once_with_initial_supply() {
    let owner = addr(7);
    let mut t = ERC20Token::new();
    t.initialize("Token".to_string(), "TKN".to_string(), 6, amount(1000), owner).unwrap();
    assert_eq!(t.name(), "Token".to_string());
    assert_eq!(t.symbol(), "TKN".to_string());
    assert_eq!(t.decimals(), 6);
    assert_eq!(t.balance_of(owner), amount(1000));
    assert_eq!(t.total_supply(), amount(1000));
    assert_eq!(
        t.events().clone(),
        vec![
            Event::Transfer { from: Address::zero(), to: owner, value: amount(1000) },
            Event::OwnershipTransferred { previous_owner: Address::zero(), new_owner: owner },
        ]
    );
    assert_eq!(
        t.initialize("X".to_string(), "X".to_string(), 1, U256::zero(), owner),
        Err(LedgerError::AlreadyInitialized)
    );
}

#[test]
fn increase_and_decrease_allowance() {
    let owner = addr(1);
    let s = addr(2);
    let mut t = setup(owner);
    t.increase_allowance(owner, s, amount(10)).unwrap();
    t.increase_allowance(owner, s, amount(5)).unwrap();
    assert_eq!(t.allowance(owner, s), amount(15));
    t.decrease_allowance(owner, s, amount(15)).unwrap();
    assert_eq!(t.allowance(owner, s), U256::zero());
    t.approve(owner, s, U256::max_value()).unwrap();
    assert_eq!(t.increase_allowance(owner, s, amount(1)), Err(LedgerError::Overflow));
}

#[test]
fn mint_past_the_largest_supply_overflows() {
    let owner = addr(1);
    let a = addr(2);
    let mut t = setup(owner);
    t.mint(owner, a, U256::max_value()).unwrap();
    assert_eq!(t.mint(owner, a, amount(1)), Err(LedgerError::Overflow));
    assert_eq!(t.total_supply(), U256::max_value());
}

#[test]
fn open_token_mints_and_burns_for_anyone() {
    let a = addr(5);
    let b = addr(6);
    let mut t = RobinhoodToken::new();
    t.mint(a, amount(30)).unwrap();
    t.mint_to(b, amount(12)).unwrap();
    t.burn(a, amount(10)).unwrap();
    assert_eq!(t.erc20().balance_of(a), amount(20));
    assert_eq!(t.erc20().balance_of(b), amount(12));
    assert_eq!(t.erc20().total_supply(), amount(32));
    assert_eq!(
        t.burn(b, amount(13)),
        Err(LedgerError::InsufficientBalance { from: b, available: amount(12), required: amount(13) })
    );
}

#[test]
fn wide_amounts_add_and_compare() {
    let big = U256 { l0: u64::MAX, l1: 0, l2: 0, l3: 0 };
    let one = amount(1);
    let sum = big.checked_add(&one).unwrap();
    assert_eq!(sum, U256 { l0: 0, l1: 1, l2: 0, l3: 0 });
    assert!(big.lt(&sum));
    assert_eq!(sum.sub(&one), big);
    assert_eq!(U256::max_value().checked_add(&one), None);
    assert_eq!(one.checked_sub(&sum), None);
}

#[test]
fn zero_caller_cannot_act_as_missing_owner() {
    let zero = Address::zero();
    let mut t = ERC20Token::new();
    assert_eq!(t.mint(zero, addr(3), amount(5)), Err(LedgerError::Unauthorized { account: zero }));
    let owner = addr(1);
    t.initialize("T".to_string(), "T".to_string(), 0, U256::zero(), owner).unwrap();
    t.renounce_ownership(owner).unwrap();
    assert_eq!(t.transfer_ownership(zero, owner), Err(LedgerError::Unauthorized { account: zero }));
    assert_eq!(t.total_supply(), U256::zero());
}
