use token_ledger::address::Address;
use token_ledger::collections::{SuperPositionNFT, SuperPositionNFTError, SINGLE_METADATA_URI};
use token_ledger::guard::{Event, LedgerError};
use token_ledger::nft::ERC721Token;
use token_ledger::num::U256;

fn addr(n: u128) -> Address {
    Address::new(0, n)
}

fn id(v: u64) -> U256 {
    U256::from_u64(v)
}

fn setup(owner: Address, max: u64) -> ERC721Token {
    let mut t = ERC721Token::new();
    t.initialize("Coll".to_string(), "CL".to_string(), "ipfs://base/".to_string(), id(max), owner).unwrap();
    t
}

fn tokens_of(t: &ERC721Token, o: Address) -> Vec<u64> {
    let n = t.balance_of(o).unwrap().l0;
    (0..n).map(|i| t.token_of_owner_by_index(o, id(i)).unwrap().l0).collect()
}

#[test]
fn burn_moves_last_token_into_the_gap() {
    let owner = addr(1);
    let a = addr(10);
    let mut t = setup(owner, 0);
    assert_eq!(t.mint(owner, a), Ok(id(1)));
    assert_eq!(t.mint(owner, a), Ok(id(2)));
    assert_eq!(t.balance_of(a), Ok(id(2)));
    assert_eq!(tokens_of(&t, a), vec![1, 2]);
    t.burn(a, id(1)).unwrap();
    assert_eq!(t.balance_of(a), Ok(id(1)));
    assert_eq!(tokens_of(&t, a), vec![2]);
    assert_eq!(t.token_of_owner_by_index(a, id(0)), Ok(id(2)));
    assert_eq!(t.token_of_owner_by_index(a, id(1)), Err(LedgerError::IndexOutOfBounds));
    assert_eq!(t.owner_of(id(1)), Err(LedgerError::NonexistentToken { token_id: id(1) }));
    assert_eq!(t.total_supply(), id(1));
}

#[test]
fn max_supply_stops_the_third_mint() {
    let owner = addr(1);
    let a = addr(10);
    let mut t = setup(owner, 2);
    t.mint(owner, a).unwrap();
    t.mint(owner, a).unwrap();
    assert_eq!(t.mint(owner, a), Err(LedgerError::MaxSupplyReached { max_supply: id(2) }));
    assert_eq!(t.total_supply(), id(2));
}

#[test]
fn non_owner_mint_is_unauthorized() {
    let owner = addr(1);
    let other = addr(2);
    let mut t = setup(owner, 0);
    assert_eq!(t.mint(other, other), Err(LedgerError::Unauthorized { account: other }));
    assert_eq!(t.total_supply(), U256::zero());
    assert_eq!(t.balance_of(other), Ok(U256::zero()));
}

#[test]
fn renounced_collection_cannot_mint() {
    let owner = addr(1);
    let mut t = setup(owner, 0);
    t.renounce_ownership(owner).unwrap();
    assert_eq!(t.owner(), Address::zero());
    assert_eq!(t.mint(owner, owner), Err(LedgerError::Unauthorized { account: owner }));
    assert_eq!(t.pause(owner), Err(LedgerError::Unauthorized { account: owner }));
    assert_eq!(t.set_base_uri(owner, "x".to_string()), Err(LedgerError::Unauthorized { account: owner }));
    assert_eq!(t.mint_batch(owner, owner, id(2)), Err(LedgerError::Unauthorized { account: owner }));
}

#[test]
fn paused_collection_refuses_moves() {
    let owner = addr(1);
    let a = addr(10);
    let b = addr(11);
    let mut t = setup(owner, 0);
    t.mint(owner, a).unwrap();
    t.pause(owner).unwrap();
    assert_eq!(t.transfer_from(a, a, b, id(1)), Err(LedgerError::EnforcedPause));
    assert_eq!(t.burn(a, id(1)), Err(LedgerError::EnforcedPause));
    assert_eq!(t.mint(owner, a), Err(LedgerError::EnforcedPause));
    assert_eq!(t.pause(owner), Err(LedgerError::EnforcedPause));
    t.unpause(owner).unwrap();
    t.transfer_from(a, a, b, id(1)).unwrap();
    assert_eq!(t.owner_of(id(1)), Ok(b));
}

#[test]
fn transfers_keep_enumerations_dense() {
    let owner = addr(1);
    let a = addr(10);
    let b = addr(11);
    let mut t = setup(owner, 0);
    assert_eq!(t.mint_batch(owner, a, id(4)), Ok(vec![id(1), id(2), id(3), id(4)]));
    t.transfer_from(a, a, b, id(2)).unwrap();
    assert_eq!(tokens_of(&t, a), vec![1, 4, 3]);
    assert_eq!(tokens_of(&t, b), vec![2]);
    t.transfer_from(a, a, a, id(1)).unwrap();
    assert_eq!(tokens_of(&t, a), vec![3, 4, 1]);
    assert_eq!(t.owner_of(id(1)), Ok(a));
    t.transfer_from(b, b, a, id(2)).unwrap();
    assert_eq!(tokens_of(&t, a), vec![3, 4, 1, 2]);
    assert_eq!(tokens_of(&t, b), Vec::<u64>::new());
    assert_eq!(t.total_supply(), id(4));
    for i in 1..5u64 {
        let holder = t.owner_of(id(i)).unwrap();
        assert_eq!(tokens_of(&t, holder).iter().filter(|x| **x == i).count(), 1);
    }
}

#[test]
fn approvals_gate_transfers() {
    let owner = addr(1);
    let a = addr(10);
    let b = addr(11);
    let c = addr(12);
    let mut t = setup(owner, 0);
    t.mint(owner, a).unwrap();
    assert_eq!(t.transfer_from(b, a, c, id(1)), Err(LedgerError::InsufficientApproval { operator: b, token_id: id(1) }));
    assert_eq!(t.approve(b, c, id(1)), Err(LedgerError::InvalidApprover { approver: b }));
    assert_eq!(t.approve(a, a, id(1)), Err(LedgerError::ApprovalToCurrentOwner));
    t.approve(a, b, id(1)).unwrap();
    assert_eq!(t.get_approved(id(1)), Ok(b));
    assert_eq!(t.transfer_from(b, c, b, id(1)), Err(LedgerError::IncorrectOwner { sender: c, token_id: id(1), owner: a }));
    assert_eq!(t.transfer_from(b, a, Address::zero(), id(1)), Err(LedgerError::InvalidReceiver { receiver: Address::zero() }));
    t.transfer_from(b, a, c, id(1)).unwrap();
    assert_eq!(t.get_approved(id(1)), Ok(Address::zero()));
    assert_eq!(t.set_approval_for_all(c, Address::zero(), true), Err(LedgerError::InvalidOperator { operator: Address::zero() }));
    assert_eq!(t.set_approval_for_all(c, c, true), Err(LedgerError::ApproveToCaller));
    t.set_approval_for_all(c, a, true).unwrap();
    assert!(t.is_approved_for_all(c, a));
    t.approve(a, b, id(1)).unwrap();
    t.burn(a, id(1)).unwrap();
    assert_eq!(t.get_approved(id(1)), Err(LedgerError::NonexistentToken { token_id: id(1) }));
    assert_eq!(t.balance_of(c), Ok(U256::zero()));
}

#[test]
fn queries_and_metadata() {
    let owner = addr(1);
    let a = addr(10);
    let mut t = setup(owner, 0);
    assert_eq!(t.balance_of(Address::zero()), Err(LedgerError::InvalidOwner { owner: Address::zero() }));
    t.mint_batch(owner, a, id(42)).unwrap();
    assert_eq!(t.token_uri(id(42)), Ok("ipfs://base/42".to_string()));
    assert_eq!(t.token_uri(id(7)), Ok("ipfs://base/7".to_string()));
    assert_eq!(t.token_uri(id(43)), Err(LedgerError::NonexistentToken { token_id: id(43) }));
    assert_eq!(t.token_by_index(id(0)), Ok(id(1)));
    assert_eq!(t.token_by_index(id(41)), Ok(id(42)));
    assert_eq!(t.token_by_index(id(42)), Err(LedgerError::IndexOutOfBounds));
    assert_eq!(t.name(), "Coll".to_string());
    assert_eq!(t.symbol(), "CL".to_string());
    t.set_base_uri(owner, "https://x/".to_string()).unwrap();
    assert_eq!(t.base_uri(), "https://x/".to_string());
    assert_eq!(t.token_uri(id(10)), Ok("https://x/10".to_string()));
    assert!(t.supports_interface([0x80, 0xac, 0x58, 0xcd]));
    assert!(t.supports_interface([0x01, 0xff, 0xc9, 0xa7]));
    assert!(t.supports_interface([0x5b, 0x5e, 0x13, 0x9f]));
    assert!(t.supports_interface([0x78, 0x0e, 0x9d, 0x63]));
    assert!(!t.supports_interface([0xff, 0xff, 0xff, 0xff]));
    assert_eq!(t.max_supply(), U256::zero());
}

#[test]
fn token_uri_renders_wide_ids() {
    let owner = addr(1);
    let a = addr(10);
    let mut t = setup(owner, 0);
    t.mint_batch(owner, a, id(10)).unwrap();
    assert_eq!(t.token_uri(id(10)), Ok("ipfs://base/10".to_string()));
    assert_eq!(t.token_uri(id(1)), Ok("ipfs://base/1".to_string()));
}

#[test]
fn batch_respects_the_cap_and_the_receiver() {
    let owner = addr(1);
    let a = addr(10);
    let mut t = setup(owner, 3);
    assert_eq!(t.mint_batch(owner, a, id(4)), Err(LedgerError::MaxSupplyReached { max_supply: id(3) }));
    assert_eq!(t.mint_batch(owner, Address::zero(), id(1)), Err(LedgerError::InvalidReceiver { receiver: Address::zero() }));
    assert_eq!(t.mint_batch(owner, a, U256::zero()), Ok(vec![]));
    assert_eq!(t.mint_batch(owner, a, id(3)), Ok(vec![id(1), id(2), id(3)]));
    assert_eq!(t.total_supply(), id(3));
    assert_eq!(t.mint(owner, a), Err(LedgerError::MaxSupplyReached { max_supply: id(3) }));
}

#[test]
fn events_record_mints_and_transfers() {
    let owner = addr(1);
    let a = addr(10);
    let b = addr(11);
    let mut t = setup(owner, 0);
    t.mint(owner, a).unwrap();
    t.transfer_from(a, a, b, id(1)).unwrap();
    assert_eq!(
        t.events().clone(),
        vec![
            Event::OwnershipTransferred { previous_owner: Address::zero(), new_owner: owner },
            Event::TokenTransfer { from: Address::zero(), to: a, token_id: id(1) },
            Event::TokenTransfer { from: a, to: b, token_id: id(1) },
        ]
    );
    assert_eq!(
        t.initialize("a".to_string(), "b".to_string(), "c".to_string(), U256::zero(), a),
        Err(LedgerError::AlreadyInitialized)
    );
}

#[test]
fn badge_collection_shares_one_uri() {
    let art = addr(99);
    let a = addr(10);
    let b = addr(11);
    let mut c = SuperPositionNFT::new();
    c.initialize(art).unwrap();
    assert_eq!(c.initialize(art), Err(SuperPositionNFTError::AlreadyInitialized));
    c.mint(a).unwrap();
    c.mint_to(b).unwrap();
    c.safe_mint(b).unwrap();
    assert_eq!(c.erc721().owner_of(id(1)), Ok(a));
    assert_eq!(c.erc721().owner_of(id(3)), Ok(b));
    assert_eq!(c.erc721().owner_of(id(0)), Err(LedgerError::NonexistentToken { token_id: id(0) }));
    assert_eq!(c.token_uri(id(1)), Ok(SINGLE_METADATA_URI.to_string()));
    assert_eq!(c.token_uri(id(5)), Err(LedgerError::NonexistentToken { token_id: id(5) }));
    assert_eq!(c.burn(a, id(2)), Err(LedgerError::InsufficientApproval { operator: a, token_id: id(2) }));
    c.burn(b, id(2)).unwrap();
    assert_eq!(c.erc721().total_supply(), id(2));
    assert_eq!(tokens_of(c.erc721(), b), vec![3]);
}

#[test]
fn zero_caller_is_never_the_owner() {
    let zero = Address::zero();
    let owner = addr(1);
    let mut fresh = ERC721Token::new();
    assert_eq!(fresh.mint(zero, owner), Err(LedgerError::Unauthorized { account: zero }));
    let mut t = setup(owner, 0);
    assert_eq!(t.mint(owner, owner), Ok(id(1)));
    t.renounce_ownership(owner).unwrap();
    assert_eq!(t.transfer_ownership(zero, zero), Err(LedgerError::Unauthorized { account: zero }));
    assert_eq!(t.mint(zero, owner), Err(LedgerError::Unauthorized { account: zero }));
    assert_eq!(t.pause(zero), Err(LedgerError::Unauthorized { account: zero }));
    assert_eq!(t.owner(), zero);
}

#[test]
fn oversized_batch_is_refused() {
    let owner = addr(1);
    let a = addr(10);
    let mut t = setup(owner, 0);
    let huge = U256 { l0: 0, l1: 1, l2: 0, l3: 0 };
    assert_eq!(t.mint_batch(owner, a, huge), Err(LedgerError::BatchTooLarge { count: huge }));
    assert_eq!(
        t.mint_batch(owner, Address::zero(), huge),
        Err(LedgerError::InvalidReceiver { receiver: Address::zero() })
    );
    assert_eq!(t.total_supply(), U256::zero());
    assert_eq!(t.mint(owner, a), Ok(id(1)));
}
