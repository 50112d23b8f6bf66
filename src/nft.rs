//! The non-fungible ledger: per-token owners and approvals, with each owner's
//! tokens kept as a dense enumeration (position -> token id, token id -> position).
use vstd::prelude::*;
use crate::address::{Address, AddressPair, zero_address};
use crate::fungible::{sum_amounts, lemma_set_sum, lemma_value_le_sum, zero_u256};
use crate::guard::{AccessGuard, Event, LedgerError};
use crate::num::{U256, u256_max, lemma_u256_bounds, lemma_u256_view_injective};
use crate::table::{Table, TableKey};
use crate::decimal::{decimal, decimal_string};
use vstd::string::*;

verus! {

/// A position in one owner's enumeration.
#[derive(Clone, Copy, Debug, PartialEq, Eq, Structural, Hash)]
pub struct OwnedSlot {
    pub owner: Address,
    pub index: U256,
}

impl TableKey for OwnedSlot {
    fn same(&self, other: &Self) -> (r: bool) {
        *self == *other
    }
}

/// The non-fungible token: an ERC-721 style ledger with owner enumeration,
/// behind the owner / pause guard.
pub struct ERC721Token {
    name: String,
    symbol: String,
    base_uri: String,
    total_supply: U256,
    max_supply: U256,
    next_token_id: U256,
    owners: Table<U256, Address>,
    balances: Table<Address, U256>,
    token_approvals: Table<U256, Address>,
    operator_approvals: Table<AddressPair, bool>,
    owned_tokens: Table<OwnedSlot, U256>,
    owned_tokens_index: Table<U256, U256>,
    guard: AccessGuard,
    events: Vec<Event>,
}

impl ERC721Token {
    /// The owner of `t`; zero where `t` does not exist.
    pub closed spec fn owner_spec(&self, t: U256) -> Address {
        self.owners.value_or(t, zero_address())
    }

    /// How many tokens `o` holds.
    pub closed spec fn balance(&self, o: Address) -> nat {
        self.balances.value_or(o, zero_u256())@
    }

    /// The token at position `p` of `o`'s enumeration.
    pub closed spec fn slot(&self, o: Address, p: U256) -> U256 {
        self.owned_tokens.value_or(OwnedSlot { owner: o, index: p }, zero_u256())
    }

    /// The position of `t` in its owner's enumeration.
    pub closed spec fn position(&self, t: U256) -> U256 {
        self.owned_tokens_index.value_or(t, zero_u256())
    }

    pub closed spec fn approved_spec(&self, t: U256) -> Address {
        self.token_approvals.value_or(t, zero_address())
    }

    pub closed spec fn operator_spec(&self, owner: Address, operator: Address) -> bool {
        self.operator_approvals.value_or(AddressPair { owner, delegate: operator }, false)
    }

    pub closed spec fn supply(&self) -> nat {
        self.total_supply@
    }

    pub closed spec fn max_supply_spec(&self) -> nat {
        self.max_supply@
    }

    pub closed spec fn next_id(&self) -> nat {
        self.next_token_id@
    }

    pub closed spec fn access(&self) -> AccessGuard {
        self.guard
    }

    pub closed spec fn event_log(&self) -> Seq<Event> {
        self.events@
    }

    pub closed spec fn meta(&self) -> (Seq<char>, Seq<char>, Seq<char>) {
        (self.name@, self.symbol@, self.base_uri@)
    }

    pub open spec fn exists_token(&self, t: U256) -> bool {
        self.owner_spec(t) != zero_address()
    }

    /// Every position below an owner's balance holds a token of that owner,
    /// which points back to that position.
    pub open spec fn positions_consistent(&self) -> bool {
        forall|o: Address, p: U256|
            p@ < self.balance(o) ==> self.owner_spec(#[trigger] self.slot(o, p)) == o
                && self.position(self.slot(o, p)) == p
    }

    /// Every existing token sits in its owner's enumeration, at its recorded position.
    pub open spec fn tokens_enumerated(&self) -> bool {
        forall|t: U256| #[trigger]
            self.exists_token(t) ==> self.position(t)@ < self.balance(self.owner_spec(t))
                && self.slot(self.owner_spec(t), self.position(t)) == t
    }

    pub closed spec fn wf(&self) -> bool {
        &&& self.owners.wf()
        &&& self.balances.wf()
        &&& self.token_approvals.wf()
        &&& self.operator_approvals.wf()
        &&& self.owned_tokens.wf()
        &&& self.owned_tokens_index.wf()
        &&& self.positions_consistent()
        &&& self.tokens_enumerated()
        &&& self.balance(zero_address()) == 0
        &&& forall|t: U256| #[trigger] self.exists_token(t) ==> t@ < self.next_id()
        &&& self.total_supply@ == sum_amounts(self.balances.entries@)
        &&& self.lifecycle_ok()
    }

    /// Before initialization there is no owner and no id has been handed out;
    /// after it, ids are handed out from 1 on.
    pub open spec fn lifecycle_ok(&self) -> bool {
        &&& !self.access().initialized ==> self.access().owner == zero_address() && self.next_id() == 0
        &&& self.access().initialized ==> self.next_id() >= 1
    }

    /// An empty, uninitialized ledger.
    pub fn new() -> (r: ERC721Token)
        ensures
            r.wf(),
            r.supply() == 0,
            r.max_supply_spec() == 0,
            r.next_id() == 0,
            forall|t: U256| !r.exists_token(t),
            forall|a: Address| r.balance(a) == 0,
            r.access() == (AccessGuard { owner: zero_address(), paused: false, initialized: false }),
            r.event_log().len() == 0,
    {
        ERC721Token {
            name: String::new(),
            symbol: String::new(),
            base_uri: String::new(),
            total_supply: U256::zero(),
            max_supply: U256::zero(),
            next_token_id: U256::zero(),
            owners: Table::new(),
            balances: Table::new(),
            token_approvals: Table::new(),
            operator_approvals: Table::new(),
            owned_tokens: Table::new(),
            owned_tokens_index: Table::new(),
            guard: AccessGuard::new(),
            events: Vec::new(),
        }
    }
}

impl ERC721Token {
    /// The tables keep distinct keys.
    pub closed spec fn tables_wf(&self) -> bool {
        &&& self.owners.wf()
        &&& self.balances.wf()
        &&& self.token_approvals.wf()
        &&& self.operator_approvals.wf()
        &&& self.owned_tokens.wf()
        &&& self.owned_tokens_index.wf()
    }

    /// All but the two enumeration tables are as in `other`.
    pub closed spec fn same_but_enumeration(&self, other: &Self) -> bool {
        &&& self.name == other.name
        &&& self.symbol == other.symbol
        &&& self.base_uri == other.base_uri
        &&& self.total_supply == other.total_supply
        &&& self.max_supply == other.max_supply
        &&& self.next_token_id == other.next_token_id
        &&& self.owners == other.owners
        &&& self.balances == other.balances
        &&& self.token_approvals == other.token_approvals
        &&& self.operator_approvals == other.operator_approvals
        &&& self.guard == other.guard
        &&& self.events == other.events
    }

    /// Positions below each balance (plus `extra` for `o0`) are consistent.
    pub open spec fn positions_below(&self, o0: Address, extra: int) -> bool {
        forall|o: Address, p: U256|
            p@ < self.balance(o) + (if o == o0 {
                extra
            } else {
                0
            }) ==> self.owner_spec(#[trigger] self.slot(o, p)) == o && self.position(self.slot(o, p))
                == p
    }

    /// No position below each balance (plus `extra` for `o0`) holds `t0`.
    pub open spec fn slots_avoid(&self, o0: Address, extra: int, t0: U256) -> bool {
        forall|o: Address, p: U256|
            p@ < self.balance(o) + (if o == o0 {
                extra
            } else {
                0
            }) ==> #[trigger] self.slot(o, p) != t0
    }

    /// Every existing token but `t0` sits at its position, below its owner's
    /// balance (plus `extra` for `o0`).
    pub open spec fn enumerated_except(&self, o0: Address, extra: int, t0: U256) -> bool {
        forall|t: U256| #[trigger]
            self.exists_token(t) && t != t0 ==> self.position(t)@ < self.balance(self.owner_spec(t))
                + (if self.owner_spec(t) == o0 {
                extra
            } else {
                0
            }) && self.slot(self.owner_spec(t), self.position(t)) == t
    }

    /// Every existing token sits at its position, below its owner's balance
    /// (plus `extra` for `o0`).
    pub open spec fn enumerated_with(&self, o0: Address, extra: int) -> bool {
        forall|t: U256| #[trigger]
            self.exists_token(t) ==> self.position(t)@ < self.balance(self.owner_spec(t)) + (if self.owner_spec(t)
                == o0 {
                extra
            } else {
                0
            }) && self.slot(self.owner_spec(t), self.position(t)) == t
    }

    /// Takes `token_id` out of `owner`'s enumeration, whose balance has already
    /// been lowered by one: the last token moves into the freed position.
    #[verifier::rlimit(60)]
    fn remove_token_from_owner_enumeration(&mut self, owner: Address, token_id: U256)
        requires
            old(self).tables_wf(),
            owner != zero_address(),
            old(self).owner_spec(token_id) == owner,
            old(self).positions_below(owner, 1),
            old(self).enumerated_with(owner, 1),
        ensures
            final(self).tables_wf(),
            final(self).same_but_enumeration(old(self)),
            final(self).positions_below(owner, 0),
            final(self).slots_avoid(owner, 0, token_id),
            final(self).enumerated_except(owner, 0, token_id),
            forall|u: U256| #[trigger]
                final(self).position(u) == if u == token_id {
                    zero_u256()
                } else if old(self).owner_spec(u) == owner && old(self).position(u)@ == old(self).balance(owner) {
                    old(self).position(token_id)
                } else {
                    old(self).position(u)
                },
            forall|p: U256| p@ == old(self).balance(owner) ==> #[trigger] final(self).slot(owner, p) == zero_u256(),
            forall|q: U256|
                q@ == old(self).balance(owner) && old(self).position(token_id) != q ==> final(self).slot(
                    owner,
                    old(self).position(token_id),
                ) == #[trigger] old(self).slot(owner, q),
            forall|o: Address, p: U256|
                !(o == owner && (p == old(self).position(token_id) || p@ == old(self).balance(owner)))
                    ==> #[trigger] final(self).slot(o, p) == old(self).slot(o, p),
    {
        let last_index = self.balances.get_or(&owner, U256::zero());
        let token_index = self.owned_tokens_index.get_or(&token_id, U256::zero());
        proof {
            assert(old(self).exists_token(token_id));
            lemma_u256_view_injective(token_index, last_index);
        }
        if !token_index.eq_value(&last_index) {
            let last_token_id = self.owned_tokens.get_or(&OwnedSlot { owner, index: last_index }, U256::zero());
            proof {
                assert(old(self).slot(owner, last_index) == last_token_id);
            }
            self.owned_tokens.set(OwnedSlot { owner, index: token_index }, last_token_id);
            self.owned_tokens_index.set(last_token_id, token_index);
        }
        self.owned_tokens.set(OwnedSlot { owner, index: last_index }, U256::zero());
        self.owned_tokens_index.set(token_id, U256::zero());
        proof {
            assert forall|o: Address, p: U256| p@ < self.balance(o) implies self.owner_spec(
                #[trigger] self.slot(o, p),
            ) == o && self.position(self.slot(o, p)) == p && self.slot(o, p) != token_id by {
                lemma_u256_view_injective(p, last_index);
                lemma_u256_view_injective(p, token_index);
                let u = old(self).slot(o, p);
                let lt = old(self).slot(owner, last_index);
                assert(old(self).owner_spec(u) == o && old(self).position(u) == p);
                assert(old(self).owner_spec(lt) == owner && old(self).position(lt) == last_index);
                if o == owner && p == token_index {
                    assert(self.slot(o, p) == lt);
                } else {
                    assert(self.slot(o, p) == u);
                    assert(u != token_id);
                    assert(u != lt);
                }
            }
            assert forall|t: U256| #[trigger] self.exists_token(t) && t != token_id implies self.position(t)@
                < self.balance(self.owner_spec(t)) && self.slot(self.owner_spec(t), self.position(t))
                == t by {
                assert(old(self).exists_token(t));
                lemma_u256_view_injective(old(self).position(t), last_index);
                lemma_u256_view_injective(old(self).position(t), token_index);
            }
            assert forall|u: U256| #[trigger]
                self.position(u) == if u == token_id {
                    zero_u256()
                } else if old(self).owner_spec(u) == owner && old(self).position(u)@ == old(self).balance(owner) {
                    old(self).position(token_id)
                } else {
                    old(self).position(u)
                } by {
                let lt = old(self).slot(owner, last_index);
                assert(old(self).owner_spec(lt) == owner && old(self).position(lt) == last_index);
                lemma_u256_view_injective(old(self).position(u), last_index);
                if u != token_id && old(self).owner_spec(u) == owner && old(self).position(u)@ == old(self).balance(owner) {
                    assert(old(self).exists_token(u));
                    assert(u == lt);
                }
            }
            assert forall|p: U256| p@ == old(self).balance(owner) implies #[trigger] self.slot(owner, p)
                == zero_u256() by {
                lemma_u256_view_injective(p, last_index);
            }
            assert forall|q: U256|
                q@ == old(self).balance(owner) && old(self).position(token_id) != q implies self.slot(
                owner,
                old(self).position(token_id),
            ) == #[trigger] old(self).slot(owner, q) by {
                lemma_u256_view_injective(q, last_index);
                lemma_u256_view_injective(token_index, last_index);
            }
            assert forall|o: Address, p: U256|
                !(o == owner && (p == old(self).position(token_id) || p@ == old(self).balance(owner)))
                    implies #[trigger] self.slot(o, p) == old(self).slot(o, p) by {
                lemma_u256_view_injective(p, last_index);
            }
        }
    }

    /// Puts `token_id` at the end of `owner`'s enumeration, whose balance has
    /// already been raised by one.
    fn add_token_to_owner_enumeration(&mut self, owner: Address, token_id: U256)
        requires
            old(self).tables_wf(),
            owner != zero_address(),
            old(self).owner_spec(token_id) == owner,
            old(self).balance(owner) >= 1,
            old(self).positions_below(owner, -1),
            old(self).slots_avoid(owner, -1, token_id),
            old(self).enumerated_except(owner, -1, token_id),
        ensures
            final(self).tables_wf(),
            final(self).same_but_enumeration(old(self)),
            final(self).positions_consistent(),
            final(self).tokens_enumerated(),
            final(self).position(token_id)@ == old(self).balance(owner) - 1,
            forall|u: U256| u != token_id ==> #[trigger] final(self).position(u) == old(self).position(u),
            forall|p: U256| p@ == old(self).balance(owner) - 1 ==> #[trigger] final(self).slot(owner, p) == token_id,
            forall|o: Address, p: U256|
                !(o == owner && p@ == old(self).balance(owner) - 1) ==> #[trigger] final(self).slot(o, p)
                    == old(self).slot(o, p),
    {
        let length = self.balances.get_or(&owner, U256::zero());
        let one = U256::from_u64(1);
        let index = length.sub(&one);
        self.owned_tokens.set(OwnedSlot { owner, index }, token_id);
        self.owned_tokens_index.set(token_id, index);
        proof {
            assert forall|o: Address, p: U256| p@ < self.balance(o) implies self.owner_spec(
                #[trigger] self.slot(o, p),
            ) == o && self.position(self.slot(o, p)) == p by {
                lemma_u256_view_injective(p, index);
                let u = old(self).slot(o, p);
                if o == owner && p == index {
                    assert(self.slot(o, p) == token_id);
                } else {
                    assert(self.slot(o, p) == u);
                    assert(u != token_id);
                }
            }
            assert forall|t: U256| #[trigger] self.exists_token(t) implies self.position(t)@
                < self.balance(self.owner_spec(t)) && self.slot(self.owner_spec(t), self.position(t))
                == t by {
                if t != token_id {
                    assert(old(self).exists_token(t));
                    lemma_u256_view_injective(old(self).position(t), index);
                }
            }
        }
    }
}

impl ERC721Token {
    /// Owners are `old`'s, but `t` is held by `new_owner`.
    pub open spec fn owner_set(&self, old: &Self, t: U256, new_owner: Address) -> bool {
        forall|u: U256| #[trigger]
            self.owner_spec(u) == if u == t {
                new_owner
            } else {
                old.owner_spec(u)
            }
    }

    /// Balances are `old`'s, one lower for `dec` and one higher for `inc`;
    /// the zero address stands for neither.
    pub open spec fn balances_adjusted(&self, old: &Self, dec: Address, inc: Address) -> bool {
        forall|a: Address| #[trigger]
            self.balance(a) == old.balance(a) - (if a == dec && dec != zero_address() {
                1int
            } else {
                0
            }) + (if a == inc && inc != zero_address() {
                1int
            } else {
                0
            })
    }

    /// Enumerations after `t` left `from`'s, whose last token took its place
    /// and whose old last slot is cleared, and joined the end of `to`'s; the
    /// zero address stands for neither, and other owners' are untouched.
    pub open spec fn positions_moved(&self, old: &Self, t: U256, from: Address, to: Address) -> bool {
        &&& forall|u: U256| u != t ==> #[trigger] self.position(u) == if old.owner_spec(u) == from
            && old.position(u)@ == old.balance(from) - 1 {
            old.position(t)
        } else {
            old.position(u)
        }
        &&& to != zero_address() ==> self.position(t)@ == self.balance(to) - 1
        &&& to != zero_address() ==> forall|q: U256|
            q@ == self.balance(to) - 1 ==> #[trigger] self.slot(to, q) == t
        &&& from != zero_address() && from != to ==> forall|p: U256|
            p@ == old.balance(from) - 1 ==> #[trigger] self.slot(from, p) == zero_u256()
        &&& from != zero_address() && from != to ==> forall|q: U256|
            q@ == old.balance(from) - 1 && old.position(t) != q ==> self.slot(from, old.position(t))
                == #[trigger] old.slot(from, q)
        &&& forall|o: Address, p: U256| o != from && o != to ==> #[trigger] self.slot(o, p) == old.slot(o, p)
    }

    /// Single-token approvals are `old`'s, but the one of `t` is cleared.
    pub open spec fn approval_cleared(&self, old: &Self, t: U256) -> bool {
        forall|u: U256| #[trigger]
            self.approved_spec(u) == if u == t {
                zero_address()
            } else {
                old.approved_spec(u)
            }
    }

    /// Operator approvals, the supply bounds, the id counter, the guard and the
    /// metadata are as in `old`.
    pub open spec fn same_settings(&self, old: &Self) -> bool {
        &&& forall|o: Address, op: Address| #[trigger]
            self.operator_spec(o, op) == old.operator_spec(o, op)
        &&& self.max_supply_spec() == old.max_supply_spec()
        &&& self.next_id() == old.next_id()
        &&& self.access() == old.access()
        &&& self.meta() == old.meta()
    }

    /// The error an internal transfer gives, if any.
    pub open spec fn transfer_error(&self, from: Address, to: Address, t: U256) -> Option<LedgerError> {
        if !self.exists_token(t) {
            Some(LedgerError::NonexistentToken { token_id: t })
        } else if self.owner_spec(t) != from {
            Some(LedgerError::IncorrectOwner { sender: from, token_id: t, owner: self.owner_spec(t) })
        } else if to == zero_address() {
            Some(LedgerError::InvalidReceiver { receiver: to })
        } else {
            None
        }
    }

    fn set_balance(&mut self, a: Address, v: U256)
        requires
            old(self).tables_wf(),
        ensures
            final(self).tables_wf(),
            final(self).balances@ == old(self).balances@.insert(a, v),
            sum_amounts(final(self).balances.entries@) == sum_amounts(old(self).balances.entries@)
                - old(self).balance(a) + v@,
            final(self).owners == old(self).owners,
            final(self).owned_tokens == old(self).owned_tokens,
            final(self).owned_tokens_index == old(self).owned_tokens_index,
            final(self).token_approvals == old(self).token_approvals,
            final(self).operator_approvals == old(self).operator_approvals,
            final(self).total_supply == old(self).total_supply,
            final(self).max_supply == old(self).max_supply,
            final(self).next_token_id == old(self).next_token_id,
            final(self).guard == old(self).guard,
            final(self).events == old(self).events,
            final(self).name == old(self).name,
            final(self).symbol == old(self).symbol,
            final(self).base_uri == old(self).base_uri,
    {
        let ghost t0 = self.balances;
        self.balances.set(a, v);
        proof {
            lemma_set_sum(t0, self.balances, a, v);
        }
    }

    #[verifier::rlimit(60)]
    fn mint_internal(&mut self, to: Address, token_id: U256) -> (r: Result<(), LedgerError>)
        requires
            old(self).wf(),
            !old(self).exists_token(token_id),
            token_id@ < old(self).next_id(),
        ensures
            final(self).wf(),
            match r {
                Ok(()) => {
                    &&& to != zero_address()
                    &&& old(self).supply() + 1 <= u256_max()
                    &&& final(self).owner_set(old(self), token_id, to)
                    &&& final(self).balances_adjusted(old(self), zero_address(), to)
                    &&& final(self).positions_moved(old(self), token_id, zero_address(), to)
                    &&& final(self).supply() == old(self).supply() + 1
                    &&& forall|u: U256| #[trigger] final(self).approved_spec(u) == old(self).approved_spec(u)
                    &&& final(self).same_settings(old(self))
                    &&& final(self).event_log() == old(self).event_log().push(
                        Event::TokenTransfer { from: zero_address(), to, token_id },
                    )
                },
                Err(e) => *final(self) == *old(self) && if to == zero_address() {
                    e == (LedgerError::InvalidReceiver { receiver: to })
                } else {
                    old(self).supply() + 1 > u256_max() && e == LedgerError::Overflow
                },
            },
    {
        if to.is_zero() {
            return Err(LedgerError::InvalidReceiver { receiver: to });
        }
        let total = match self.total_supply.checked_add(&U256::from_u64(1)) {
            Some(t) => t,
            None => {
                return Err(LedgerError::Overflow);
            },
        };
        let ghost s0 = *self;
        self.owners.set(token_id, to);
        let to_balance = self.balances.get_or(&to, U256::zero());
        proof {
            lemma_value_le_sum(self.balances, to);
        }
        self.set_balance(to, to_balance.add(&U256::from_u64(1)));
        self.total_supply = total;
        self.events.push(Event::TokenTransfer { from: Address::zero(), to, token_id });
        let ghost s1 = *self;
        proof {
            assert forall|o: Address, p: U256|
                p@ < s1.balance(o) + (if o == to { -1int } else { 0 }) implies s1.owner_spec(
                #[trigger] s1.slot(o, p),
            ) == o && s1.position(s1.slot(o, p)) == p && s1.slot(o, p) != token_id by {
                assert(s0.slot(o, p) == s1.slot(o, p));
            }
            assert forall|t: U256| #[trigger] s1.exists_token(t) && t != token_id implies s1.position(t)@
                < s1.balance(s1.owner_spec(t)) + (if s1.owner_spec(t) == to { -1int } else { 0 })
                && s1.slot(s1.owner_spec(t), s1.position(t)) == t by {
                assert(s0.exists_token(t));
            }
        }
        self.add_token_to_owner_enumeration(to, token_id);
        proof {
            assert forall|t: U256| #[trigger] self.exists_token(t) implies t@ < self.next_id() by {
                if t != token_id {
                    assert(s0.exists_token(t));
                }
            }
            assert forall|u: U256| #[trigger] s1.position(u) == s0.position(u) by {}
            assert forall|a: Address| #[trigger] self.balance(a) == s1.balance(a) by {}
        }
        Ok(())
    }

    /// The owner of `token_id`.
    pub fn owner_of(&self, token_id: U256) -> (r: Result<Address, LedgerError>)
        requires
            self.wf(),
        ensures
            match r {
                Ok(a) => self.exists_token(token_id) && a == self.owner_spec(token_id),
                Err(e) => !self.exists_token(token_id) && e == (LedgerError::NonexistentToken {
                    token_id,
                }),
            },
    {
        let owner = self.owners.get_or(&token_id, Address::zero());
        if owner.is_zero() {
            return Err(LedgerError::NonexistentToken { token_id });
        }
        Ok(owner)
    }

    fn require_token_exists(&self, token_id: U256) -> (r: Result<(), LedgerError>)
        requires
            self.wf(),
        ensures
            r is Ok == self.exists_token(token_id),
            r is Err ==> r == Err::<(), LedgerError>(LedgerError::NonexistentToken { token_id }),
    {
        if self.owners.get_or(&token_id, Address::zero()).is_zero() {
            return Err(LedgerError::NonexistentToken { token_id });
        }
        Ok(())
    }

    #[verifier::rlimit(100)]
    fn burn_internal(&mut self, token_id: U256) -> (r: Result<(), LedgerError>)
        requires
            old(self).wf(),
        ensures
            final(self).wf(),
            match r {
                Ok(()) => {
                    &&& old(self).exists_token(token_id)
                    &&& final(self).owner_set(old(self), token_id, zero_address())
                    &&& final(self).balances_adjusted(old(self), old(self).owner_spec(token_id), zero_address())
                    &&& final(self).positions_moved(old(self), token_id, old(self).owner_spec(token_id), zero_address())
                    &&& final(self).supply() == old(self).supply() - 1
                    &&& final(self).approval_cleared(old(self), token_id)
                    &&& final(self).same_settings(old(self))
                    &&& final(self).event_log() == old(self).event_log().push(
                        Event::TokenTransfer { from: old(self).owner_spec(token_id), to: zero_address(), token_id },
                    )
                },
                Err(e) => *final(self) == *old(self) && !old(self).exists_token(token_id) && e
                    == (LedgerError::NonexistentToken { token_id }),
            },
    {
        let owner = self.owner_of(token_id)?;
        let ghost s0 = *self;
        proof {
            assert(s0.exists_token(token_id));
            lemma_value_le_sum(self.balances, owner);
        }
        self.token_approvals.set(token_id, Address::zero());
        let balance = self.balances.get_or(&owner, U256::zero());
        self.set_balance(owner, balance.sub(&U256::from_u64(1)));
        self.total_supply = self.total_supply.sub(&U256::from_u64(1));
        self.events.push(Event::TokenTransfer { from: owner, to: Address::zero(), token_id });
        let ghost s1 = *self;
        proof {
            assert forall|o: Address, p: U256|
                p@ < s1.balance(o) + (if o == owner { 1int } else { 0 }) implies s1.owner_spec(
                #[trigger] s1.slot(o, p),
            ) == o && s1.position(s1.slot(o, p)) == p by {
                assert(s0.slot(o, p) == s1.slot(o, p));
            }
            assert forall|t: U256| #[trigger] s1.exists_token(t) implies s1.position(t)@
                < s1.balance(s1.owner_spec(t)) + (if s1.owner_spec(t) == owner { 1int } else { 0 })
                && s1.slot(s1.owner_spec(t), s1.position(t)) == t by {
                assert(s0.exists_token(t));
            }
        }
        self.remove_token_from_owner_enumeration(owner, token_id);
        let ghost s2 = *self;
        self.owners.set(token_id, Address::zero());
        proof {
            assert forall|o: Address, p: U256| p@ < self.balance(o) implies self.owner_spec(
                #[trigger] self.slot(o, p),
            ) == o && self.position(self.slot(o, p)) == p by {
                assert(s2.slot(o, p) == self.slot(o, p));
            }
            assert forall|t: U256| #[trigger] self.exists_token(t) implies self.position(t)@
                < self.balance(self.owner_spec(t)) && self.slot(self.owner_spec(t), self.position(t))
                == t by {
                assert(s2.exists_token(t));
            }
            assert forall|t: U256| #[trigger] self.exists_token(t) implies t@ < self.next_id() by {
                assert(s0.exists_token(t));
            }
            assert forall|u: U256| #[trigger] self.approved_spec(u) == if u == token_id {
                zero_address()
            } else {
                s0.approved_spec(u)
            } by {}
            assert forall|o: Address, op: Address| #[trigger] self.operator_spec(o, op) == s0.operator_spec(o, op) by {}
            assert forall|u: U256| #[trigger] s1.position(u) == s0.position(u) by {}
            assert forall|u: U256| #[trigger] s1.owner_spec(u) == s0.owner_spec(u) by {}
            assert forall|u: U256| #[trigger] self.position(u) == s2.position(u) by {}
            assert forall|o: Address, p: U256| #[trigger] s1.slot(o, p) == s0.slot(o, p) by {}
            assert forall|o: Address, p: U256| #[trigger] self.slot(o, p) == s2.slot(o, p) by {}
            assert forall|p: U256| p@ == s0.balance(owner) - 1 implies #[trigger] self.slot(owner, p)
                == zero_u256() by {
                assert(s2.slot(owner, p) == zero_u256());
            }
            assert forall|q: U256| q@ == s0.balance(owner) - 1 && s0.position(token_id) != q implies self.slot(
                owner,
                s0.position(token_id),
            ) == #[trigger] s0.slot(owner, q) by {
                assert(s1.slot(owner, q) == s0.slot(owner, q));
            }
            assert forall|o: Address, p: U256| o != owner implies #[trigger] self.slot(o, p) == s0.slot(o, p) by {
                assert(s2.slot(o, p) == s1.slot(o, p));
            }
        }
        Ok(())
    }

    /// Moves `token_id` from `from` to `to`. Each side's balance is updated
    /// before its enumeration, so a transfer to oneself keeps the index whole.
    #[verifier::rlimit(100)]
    fn transfer_internal(&mut self, from: Address, to: Address, token_id: U256) -> (r: Result<
        (),
        LedgerError,
    >)
        requires
            old(self).wf(),
        ensures
            final(self).wf(),
            match r {
                Ok(()) => {
                    &&& old(self).transfer_error(from, to, token_id).is_none()
                    &&& final(self).owner_set(old(self), token_id, to)
                    &&& final(self).balances_adjusted(old(self), from, to)
                    &&& final(self).positions_moved(old(self), token_id, from, to)
                    &&& final(self).supply() == old(self).supply()
                    &&& final(self).approval_cleared(old(self), token_id)
                    &&& final(self).same_settings(old(self))
                    &&& final(self).event_log() == old(self).event_log().push(
                        Event::TokenTransfer { from, to, token_id },
                    )
                },
                Err(e) => *final(self) == *old(self) && old(self).transfer_error(from, to, token_id)
                    == Some(e),
            },
    {
        let owner = self.owner_of(token_id)?;
        if owner != from {
            return Err(LedgerError::IncorrectOwner { sender: from, token_id, owner });
        }
        if to.is_zero() {
            return Err(LedgerError::InvalidReceiver { receiver: to });
        }
        let ghost s0 = *self;
        proof {
            assert(s0.exists_token(token_id));
        }
        self.token_approvals.set(token_id, Address::zero());
        let from_balance = self.balances.get_or(&from, U256::zero());
        self.set_balance(from, from_balance.sub(&U256::from_u64(1)));
        self.events.push(Event::TokenTransfer { from, to, token_id });
        let ghost s1 = *self;
        proof {
            assert forall|o: Address, p: U256|
                p@ < s1.balance(o) + (if o == from { 1int } else { 0 }) implies s1.owner_spec(
                #[trigger] s1.slot(o, p),
            ) == o && s1.position(s1.slot(o, p)) == p by {
                assert(s0.slot(o, p) == s1.slot(o, p));
            }
            assert forall|t: U256| #[trigger] s1.exists_token(t) implies s1.position(t)@
                < s1.balance(s1.owner_spec(t)) + (if s1.owner_spec(t) == from { 1int } else { 0 })
                && s1.slot(s1.owner_spec(t), s1.position(t)) == t by {
                assert(s0.exists_token(t));
            }
        }
        self.remove_token_from_owner_enumeration(from, token_id);
        let ghost s2 = *self;
        self.owners.set(token_id, to);
        let to_balance = self.balances.get_or(&to, U256::zero());
        proof {
            lemma_value_le_sum(self.balances, to);
            lemma_u256_bounds(self.total_supply);
        }
        self.set_balance(to, to_balance.add(&U256::from_u64(1)));
        let ghost s3 = *self;
        proof {
            assert forall|o: Address, p: U256|
                p@ < s3.balance(o) + (if o == to { -1int } else { 0 }) implies s3.owner_spec(
                #[trigger] s3.slot(o, p),
            ) == o && s3.position(s3.slot(o, p)) == p && s3.slot(o, p) != token_id by {
                assert(s2.slot(o, p) == s3.slot(o, p));
            }
            assert forall|t: U256| #[trigger] s3.exists_token(t) && t != token_id implies s3.position(t)@
                < s3.balance(s3.owner_spec(t)) + (if s3.owner_spec(t) == to { -1int } else { 0 })
                && s3.slot(s3.owner_spec(t), s3.position(t)) == t by {
                assert(s2.exists_token(t));
            }
        }
        self.add_token_to_owner_enumeration(to, token_id);
        proof {
            assert forall|t: U256| #[trigger] self.exists_token(t) implies t@ < self.next_id() by {
                assert(s0.exists_token(t));
            }
            assert forall|u: U256| #[trigger] self.approved_spec(u) == if u == token_id {
                zero_address()
            } else {
                s0.approved_spec(u)
            } by {}
            assert forall|o: Address, op: Address| #[trigger] self.operator_spec(o, op) == s0.operator_spec(o, op) by {}
            assert forall|a: Address| #[trigger] self.balance(a) == s3.balance(a) by {}
            assert forall|u: U256| #[trigger] self.owner_spec(u) == s3.owner_spec(u) by {}
            assert forall|u: U256| #[trigger] s1.position(u) == s0.position(u) by {}
            assert forall|u: U256| #[trigger] s1.owner_spec(u) == s0.owner_spec(u) by {}
            assert forall|u: U256| #[trigger] s3.position(u) == s2.position(u) by {}
            assert forall|o: Address, p: U256| #[trigger] s1.slot(o, p) == s0.slot(o, p) by {}
            assert forall|o: Address, p: U256| #[trigger] s3.slot(o, p) == s2.slot(o, p) by {}
            assert forall|q: U256| q@ == self.balance(to) - 1 implies #[trigger] self.slot(to, q) == token_id by {}
            if from != to {
                assert forall|p: U256| p@ == s0.balance(from) - 1 implies #[trigger] self.slot(from, p)
                    == zero_u256() by {
                    assert(s3.slot(from, p) == s2.slot(from, p));
                }
                assert forall|q: U256| q@ == s0.balance(from) - 1 && s0.position(token_id) != q implies self.slot(
                    from,
                    s0.position(token_id),
                ) == #[trigger] s0.slot(from, q) by {
                    assert(s1.slot(from, q) == s0.slot(from, q));
                    assert(s3.slot(from, s0.position(token_id)) == s2.slot(from, s0.position(token_id)));
                }
            }
            assert forall|o: Address, p: U256| o != from && o != to implies #[trigger] self.slot(o, p)
                == s0.slot(o, p) by {
                assert(s3.slot(o, p) == s2.slot(o, p));
                assert(s1.slot(o, p) == s0.slot(o, p));
            }
        }
        Ok(())
    }
}

impl ERC721Token {
    /// `spender` owns `t`, operates for its owner, or holds its single-token approval.
    pub open spec fn authorized(&self, spender: Address, t: U256) -> bool {
        spender == self.owner_spec(t) || self.operator_spec(self.owner_spec(t), spender)
            || self.approved_spec(t) == spender
    }

    /// The error `transfer_from` gives, if any.
    pub open spec fn transfer_from_error(&self, caller: Address, from: Address, to: Address, t: U256) -> Option<
        LedgerError,
    > {
        if self.access().paused {
            Some(LedgerError::EnforcedPause)
        } else if !self.exists_token(t) {
            Some(LedgerError::NonexistentToken { token_id: t })
        } else if !self.authorized(caller, t) {
            Some(LedgerError::InsufficientApproval { operator: caller, token_id: t })
        } else {
            self.transfer_error(from, to, t)
        }
    }

    /// The error `burn` gives, if any.
    pub open spec fn burn_error(&self, caller: Address, t: U256) -> Option<LedgerError> {
        if self.access().paused {
            Some(LedgerError::EnforcedPause)
        } else if !self.exists_token(t) {
            Some(LedgerError::NonexistentToken { token_id: t })
        } else if !self.authorized(caller, t) {
            Some(LedgerError::InsufficientApproval { operator: caller, token_id: t })
        } else {
            None
        }
    }

    /// The error `mint` gives, if any.
    pub open spec fn mint_error(&self, caller: Address, to: Address) -> Option<LedgerError> {
        if !self.access().is_owner(caller) {
            Some(LedgerError::Unauthorized { account: caller })
        } else if self.access().paused {
            Some(LedgerError::EnforcedPause)
        } else if self.max_supply_spec() > 0 && self.supply() >= self.max_supply_spec() {
            Some(LedgerError::MaxSupplyReached { max_supply: self.max_supply_word() })
        } else if self.next_id() + 1 > u256_max() {
            Some(LedgerError::Overflow)
        } else if to == zero_address() {
            Some(LedgerError::InvalidReceiver { receiver: to })
        } else if self.supply() + 1 > u256_max() {
            Some(LedgerError::Overflow)
        } else {
            None
        }
    }

    /// The error `approve` gives, if any.
    pub open spec fn approve_error(&self, caller: Address, to: Address, t: U256) -> Option<LedgerError> {
        if !self.exists_token(t) {
            Some(LedgerError::NonexistentToken { token_id: t })
        } else if to == self.owner_spec(t) {
            Some(LedgerError::ApprovalToCurrentOwner)
        } else if caller != self.owner_spec(t) && !self.operator_spec(self.owner_spec(t), caller) {
            Some(LedgerError::InvalidApprover { approver: caller })
        } else {
            None
        }
    }

    /// The error `set_approval_for_all` gives, if any.
    pub open spec fn operator_error(&self, caller: Address, operator: Address) -> Option<LedgerError> {
        if operator == zero_address() {
            Some(LedgerError::InvalidOperator { operator })
        } else if operator == caller {
            Some(LedgerError::ApproveToCaller)
        } else {
            None
        }
    }

    pub closed spec fn max_supply_word(&self) -> U256 {
        self.max_supply
    }

    /// Every owner's enumeration, positions included, is as in `old`.
    pub open spec fn same_enumeration(&self, old: &Self) -> bool {
        &&& forall|o: Address, p: U256| #[trigger] self.slot(o, p) == old.slot(o, p)
        &&& forall|u: U256| #[trigger] self.position(u) == old.position(u)
    }

    /// Owners, balances, approvals, enumerations, the supply, the cap, the id
    /// counter and the guard are as in `old`; the log grew by `ev`.
    pub open spec fn only_logged(&self, old: &Self, ev: Event) -> bool {
        &&& self.same_enumeration(old)
        &&& self.access() == old.access()
        &&& self.max_supply_spec() == old.max_supply_spec()
        &&& self.next_id() == old.next_id()
        &&& forall|u: U256| #[trigger] self.owner_spec(u) == old.owner_spec(u)
        &&& forall|a: Address| #[trigger] self.balance(a) == old.balance(a)
        &&& forall|u: U256| #[trigger] self.approved_spec(u) == old.approved_spec(u)
        &&& self.supply() == old.supply()
        &&& self.event_log() == old.event_log().push(ev)
    }

    /// Whether `spender` may move or burn `token_id`.
    pub fn is_approved_or_owner(&self, spender: Address, token_id: U256) -> (r: Result<bool, LedgerError>)
        requires
            self.wf(),
        ensures
            match r {
                Ok(b) => self.exists_token(token_id) && b == self.authorized(spender, token_id),
                Err(e) => !self.exists_token(token_id) && e == (LedgerError::NonexistentToken {
                    token_id,
                }),
            },
    {
        let owner = self.owner_of(token_id)?;
        Ok(spender == owner || self.is_approved_for_all(owner, spender)
            || self.token_approvals.get_or(&token_id, Address::zero()) == spender)
    }

    pub fn is_approved_for_all(&self, owner: Address, operator: Address) -> (r: bool)
        requires
            self.wf(),
        ensures
            r == self.operator_spec(owner, operator),
    {
        self.operator_approvals.get_or(&AddressPair { owner, delegate: operator }, false)
    }

    /// How many tokens `owner` holds; the zero address is refused.
    pub fn balance_of(&self, owner: Address) -> (r: Result<U256, LedgerError>)
        requires
            self.wf(),
        ensures
            match r {
                Ok(b) => owner != zero_address() && b@ == self.balance(owner),
                Err(e) => owner == zero_address() && e == (LedgerError::InvalidOwner { owner }),
            },
    {
        if owner.is_zero() {
            return Err(LedgerError::InvalidOwner { owner });
        }
        Ok(self.balances.get_or(&owner, U256::zero()))
    }

    /// The single-token approval of `token_id`.
    pub fn get_approved(&self, token_id: U256) -> (r: Result<Address, LedgerError>)
        requires
            self.wf(),
        ensures
            match r {
                Ok(a) => self.exists_token(token_id) && a == self.approved_spec(token_id),
                Err(e) => !self.exists_token(token_id) && e == (LedgerError::NonexistentToken {
                    token_id,
                }),
            },
    {
        self.require_token_exists(token_id)?;
        Ok(self.token_approvals.get_or(&token_id, Address::zero()))
    }

    /// Lets `to` move `token_id`; by its owner or one of the owner's operators.
    pub fn approve(&mut self, caller: Address, to: Address, token_id: U256) -> (r: Result<(), LedgerError>)
        requires
            old(self).wf(),
        ensures
            final(self).wf(),
            match r {
                Ok(()) => {
                    &&& old(self).approve_error(caller, to, token_id).is_none()
                    &&& forall|u: U256| #[trigger] final(self).approved_spec(u) == if u == token_id {
                        to
                    } else {
                        old(self).approved_spec(u)
                    }
                    &&& forall|u: U256| #[trigger] final(self).owner_spec(u) == old(self).owner_spec(u)
                    &&& forall|a: Address| #[trigger] final(self).balance(a) == old(self).balance(a)
                    &&& final(self).supply() == old(self).supply()
                    &&& final(self).same_enumeration(old(self))
                    &&& final(self).same_settings(old(self))
                    &&& final(self).event_log() == old(self).event_log().push(
                        Event::TokenApproval { owner: old(self).owner_spec(token_id), spender: to, token_id },
                    )
                },
                Err(e) => *final(self) == *old(self) && old(self).approve_error(caller, to, token_id)
                    == Some(e),
            },
    {
        let owner = self.owner_of(token_id)?;
        if to == owner {
            return Err(LedgerError::ApprovalToCurrentOwner);
        }
        if caller != owner && !self.is_approved_for_all(owner, caller) {
            return Err(LedgerError::InvalidApprover { approver: caller });
        }
        let ghost s0 = *self;
        self.token_approvals.set(token_id, to);
        self.events.push(Event::TokenApproval { owner, spender: to, token_id });
        proof {
            assert forall|o: Address, p: U256| p@ < self.balance(o) implies self.owner_spec(
                #[trigger] self.slot(o, p),
            ) == o && self.position(self.slot(o, p)) == p by {
                assert(s0.slot(o, p) == self.slot(o, p));
            }
            assert forall|t: U256| #[trigger] self.exists_token(t) implies self.position(t)@
                < self.balance(self.owner_spec(t)) && self.slot(self.owner_spec(t), self.position(t))
                == t && t@ < self.next_id() by {
                assert(s0.exists_token(t));
            }
            assert forall|o: Address, op: Address| #[trigger] self.operator_spec(o, op) == s0.operator_spec(o, op) by {}
        }
        Ok(())
    }

    /// Makes `operator` an operator of all of `caller`'s tokens, or stops it being one.
    pub fn set_approval_for_all(&mut self, caller: Address, operator: Address, approved: bool) -> (r: Result<
        (),
        LedgerError,
    >)
        requires
            old(self).wf(),
        ensures
            final(self).wf(),
            match r {
                Ok(()) => {
                    &&& old(self).operator_error(caller, operator).is_none()
                    &&& forall|o: Address, op: Address| #[trigger] final(self).operator_spec(o, op)
                        == if o == caller && op == operator {
                        approved
                    } else {
                        old(self).operator_spec(o, op)
                    }
                    &&& final(self).only_logged(old(self), Event::ApprovalForAll { owner: caller, operator, approved })
                    &&& final(self).meta() == old(self).meta()
                },
                Err(e) => *final(self) == *old(self) && old(self).operator_error(caller, operator)
                    == Some(e),
            },
    {
        if operator.is_zero() {
            return Err(LedgerError::InvalidOperator { operator });
        }
        if operator == caller {
            return Err(LedgerError::ApproveToCaller);
        }
        let ghost s0 = *self;
        self.operator_approvals.set(AddressPair { owner: caller, delegate: operator }, approved);
        self.events.push(Event::ApprovalForAll { owner: caller, operator, approved });
        proof {
            assert forall|o: Address, p: U256| p@ < self.balance(o) implies self.owner_spec(
                #[trigger] self.slot(o, p),
            ) == o && self.position(self.slot(o, p)) == p by {
                assert(s0.slot(o, p) == self.slot(o, p));
            }
            assert forall|t: U256| #[trigger] self.exists_token(t) implies self.position(t)@
                < self.balance(self.owner_spec(t)) && self.slot(self.owner_spec(t), self.position(t))
                == t && t@ < self.next_id() by {
                assert(s0.exists_token(t));
            }
        }
        Ok(())
    }
}

/// Two states with the same tables, supply and id counter are alike well formed.
proof fn lemma_same_ledger(a: ERC721Token, b: ERC721Token)
    requires
        a.wf(),
        b.owners == a.owners,
        b.balances == a.balances,
        b.token_approvals == a.token_approvals,
        b.operator_approvals == a.operator_approvals,
        b.owned_tokens == a.owned_tokens,
        b.owned_tokens_index == a.owned_tokens_index,
        b.total_supply == a.total_supply,
        b.next_token_id@ >= a.next_token_id@,
        b.lifecycle_ok(),
    ensures
        b.wf(),
        forall|u: U256| #[trigger] b.owner_spec(u) == a.owner_spec(u),
        forall|x: Address| #[trigger] b.balance(x) == a.balance(x),
        forall|u: U256| #[trigger] b.approved_spec(u) == a.approved_spec(u),
        forall|o: Address, op: Address| #[trigger] b.operator_spec(o, op) == a.operator_spec(o, op),
        forall|o: Address, p: U256| #[trigger] b.slot(o, p) == a.slot(o, p),
        forall|u: U256| #[trigger] b.position(u) == a.position(u),
        b.supply() == a.supply(),
{
    assert forall|o: Address, p: U256| p@ < b.balance(o) implies b.owner_spec(#[trigger] b.slot(o, p))
        == o && b.position(b.slot(o, p)) == p by {
        assert(a.slot(o, p) == b.slot(o, p));
    }
    assert forall|t: U256| #[trigger] b.exists_token(t) implies b.position(t)@ < b.balance(
        b.owner_spec(t),
    ) && b.slot(b.owner_spec(t), b.position(t)) == t && t@ < b.next_id() by {
        assert(a.exists_token(t));
    }
}

impl ERC721Token {
    /// The guard became `g`, one event was recorded, and nothing else changed.
    pub open spec fn guard_step(&self, old: &Self, g: AccessGuard, ev: Event) -> bool {
        &&& self.access() == g
        &&& self.same_enumeration(old)
        &&& forall|u: U256| #[trigger] self.owner_spec(u) == old.owner_spec(u)
        &&& forall|a: Address| #[trigger] self.balance(a) == old.balance(a)
        &&& forall|u: U256| #[trigger] self.approved_spec(u) == old.approved_spec(u)
        &&& forall|o: Address, op: Address| #[trigger] self.operator_spec(o, op) == old.operator_spec(o, op)
        &&& self.supply() == old.supply()
        &&& self.max_supply_spec() == old.max_supply_spec()
        &&& self.next_id() == old.next_id()
        &&& self.meta() == old.meta()
        &&& self.event_log() == old.event_log().push(ev)
    }

    pub fn pause(&mut self, caller: Address) -> (r: Result<(), LedgerError>)
        requires
            old(self).wf(),
        ensures
            final(self).wf(),
            match r {
                Ok(()) => old(self).access().pause_error(caller).is_none() && final(self).guard_step(
                    old(self),
                    AccessGuard { paused: true, ..old(self).access() },
                    Event::Paused { account: caller },
                ),
                Err(e) => old(self).access().pause_error(caller) == Some(e) && *final(self)
                    == *old(self),
            },
    {
        let ev = self.guard.pause(caller)?;
        self.events.push(ev);
        proof {
            lemma_same_ledger(*old(self), *self);
        }
        Ok(())
    }

    pub fn unpause(&mut self, caller: Address) -> (r: Result<(), LedgerError>)
        requires
            old(self).wf(),
        ensures
            final(self).wf(),
            match r {
                Ok(()) => old(self).access().unpause_error(caller).is_none() && final(self).guard_step(
                    old(self),
                    AccessGuard { paused: false, ..old(self).access() },
                    Event::Unpaused { account: caller },
                ),
                Err(e) => old(self).access().unpause_error(caller) == Some(e) && *final(self)
                    == *old(self),
            },
    {
        let ev = self.guard.unpause(caller)?;
        self.events.push(ev);
        proof {
            lemma_same_ledger(*old(self), *self);
        }
        Ok(())
    }

    pub fn transfer_ownership(&mut self, caller: Address, new_owner: Address) -> (r: Result<(), LedgerError>)
        requires
            old(self).wf(),
        ensures
            final(self).wf(),
            match r {
                Ok(()) => old(self).access().transfer_ownership_error(caller, new_owner).is_none()
                    && final(self).guard_step(
                    old(self),
                    AccessGuard { owner: new_owner, ..old(self).access() },
                    Event::OwnershipTransferred { previous_owner: old(self).access().owner, new_owner },
                ),
                Err(e) => old(self).access().transfer_ownership_error(caller, new_owner) == Some(e)
                    && *final(self) == *old(self),
            },
    {
        let ev = self.guard.transfer_ownership(caller, new_owner)?;
        self.events.push(ev);
        proof {
            lemma_same_ledger(*old(self), *self);
        }
        Ok(())
    }

    /// Gives up ownership for good: the owner becomes the zero address.
    pub fn renounce_ownership(&mut self, caller: Address) -> (r: Result<(), LedgerError>)
        requires
            old(self).wf(),
        ensures
            final(self).wf(),
            match r {
                Ok(()) => old(self).access().is_owner(caller) && final(self).guard_step(
                    old(self),
                    AccessGuard { owner: zero_address(), ..old(self).access() },
                    Event::OwnershipTransferred {
                        previous_owner: old(self).access().owner,
                        new_owner: zero_address(),
                    },
                ),
                Err(e) => !old(self).access().is_owner(caller) && e == (LedgerError::Unauthorized {
                    account: caller,
                }) && *final(self) == *old(self),
            },
    {
        let ev = self.guard.renounce_ownership(caller)?;
        self.events.push(ev);
        proof {
            lemma_same_ledger(*old(self), *self);
        }
        Ok(())
    }

    /// Replaces the base of the token URIs; the owner only.
    pub fn set_base_uri(&mut self, caller: Address, new_base_uri: String) -> (r: Result<(), LedgerError>)
        requires
            old(self).wf(),
        ensures
            final(self).wf(),
            match r {
                Ok(()) => {
                    &&& old(self).access().is_owner(caller)
                    &&& final(self).meta() == (old(self).meta().0, old(self).meta().1, new_base_uri@)
                    &&& final(self).only_logged(old(self), Event::BaseUriUpdated)
                    &&& final(self).access() == old(self).access()
                },
                Err(e) => !old(self).access().is_owner(caller) && e == (LedgerError::Unauthorized {
                    account: caller,
                }) && *final(self) == *old(self),
            },
    {
        self.guard.require_owner(caller)?;
        self.base_uri = new_base_uri;
        self.events.push(Event::BaseUriUpdated);
        proof {
            lemma_same_ledger(*old(self), *self);
        }
        Ok(())
    }

    /// Moves `token_id` from `from` to `to`; by its owner, an operator of the
    /// owner, or the holder of its approval.
    pub fn transfer_from(&mut self, caller: Address, from: Address, to: Address, token_id: U256) -> (r:
        Result<(), LedgerError>)
        requires
            old(self).wf(),
        ensures
            final(self).wf(),
            match r {
                Ok(()) => {
                    &&& old(self).transfer_from_error(caller, from, to, token_id).is_none()
                    &&& final(self).owner_set(old(self), token_id, to)
                    &&& final(self).balances_adjusted(old(self), from, to)
                    &&& final(self).positions_moved(old(self), token_id, from, to)
                    &&& final(self).supply() == old(self).supply()
                    &&& final(self).approval_cleared(old(self), token_id)
                    &&& final(self).same_settings(old(self))
                    &&& final(self).event_log() == old(self).event_log().push(
                        Event::TokenTransfer { from, to, token_id },
                    )
                },
                Err(e) => *final(self) == *old(self) && old(self).transfer_from_error(
                    caller,
                    from,
                    to,
                    token_id,
                ) == Some(e),
            },
    {
        self.guard.require_not_paused()?;
        if !self.is_approved_or_owner(caller, token_id)? {
            return Err(LedgerError::InsufficientApproval { operator: caller, token_id });
        }
        self.transfer_internal(from, to, token_id)
    }

    /// As `transfer_from`; the receiver is not called back.
    pub fn safe_transfer_from(&mut self, caller: Address, from: Address, to: Address, token_id: U256) -> (r:
        Result<(), LedgerError>)
        requires
            old(self).wf(),
        ensures
            final(self).wf(),
            match r {
                Ok(()) => {
                    &&& old(self).transfer_from_error(caller, from, to, token_id).is_none()
                    &&& final(self).owner_set(old(self), token_id, to)
                    &&& final(self).balances_adjusted(old(self), from, to)
                    &&& final(self).positions_moved(old(self), token_id, from, to)
                    &&& final(self).supply() == old(self).supply()
                    &&& final(self).approval_cleared(old(self), token_id)
                    &&& final(self).same_settings(old(self))
                    &&& final(self).event_log() == old(self).event_log().push(
                        Event::TokenTransfer { from, to, token_id },
                    )
                },
                Err(e) => *final(self) == *old(self) && old(self).transfer_from_error(
                    caller,
                    from,
                    to,
                    token_id,
                ) == Some(e),
            },
    {
        self.transfer_from(caller, from, to, token_id)
    }

    /// As `safe_transfer_from`; `data` is not used.
    pub fn safe_transfer_from_with_data(
        &mut self,
        caller: Address,
        from: Address,
        to: Address,
        token_id: U256,
        data: Vec<u8>,
    ) -> (r: Result<(), LedgerError>)
        requires
            old(self).wf(),
        ensures
            final(self).wf(),
            match r {
                Ok(()) => {
                    &&& old(self).transfer_from_error(caller, from, to, token_id).is_none()
                    &&& final(self).owner_set(old(self), token_id, to)
                    &&& final(self).balances_adjusted(old(self), from, to)
                    &&& final(self).positions_moved(old(self), token_id, from, to)
                    &&& final(self).supply() == old(self).supply()
                    &&& final(self).approval_cleared(old(self), token_id)
                    &&& final(self).same_settings(old(self))
                    &&& final(self).event_log() == old(self).event_log().push(
                        Event::TokenTransfer { from, to, token_id },
                    )
                },
                Err(e) => *final(self) == *old(self) && old(self).transfer_from_error(
                    caller,
                    from,
                    to,
                    token_id,
                ) == Some(e),
            },
    {
        self.safe_transfer_from(caller, from, to, token_id)
    }

    /// Destroys `token_id`; by its owner, an operator of the owner, or the
    /// holder of its approval. Its id is never handed out again.
    pub fn burn(&mut self, caller: Address, token_id: U256) -> (r: Result<(), LedgerError>)
        requires
            old(self).wf(),
        ensures
            final(self).wf(),
            match r {
                Ok(()) => {
                    &&& old(self).burn_error(caller, token_id).is_none()
                    &&& final(self).owner_set(old(self), token_id, zero_address())
                    &&& final(self).balances_adjusted(old(self), old(self).owner_spec(token_id), zero_address())
                    &&& final(self).positions_moved(old(self), token_id, old(self).owner_spec(token_id), zero_address())
                    &&& final(self).supply() == old(self).supply() - 1
                    &&& final(self).approval_cleared(old(self), token_id)
                    &&& final(self).same_settings(old(self))
                    &&& final(self).event_log() == old(self).event_log().push(
                        Event::TokenTransfer { from: old(self).owner_spec(token_id), to: zero_address(), token_id },
                    )
                },
                Err(e) => *final(self) == *old(self) && old(self).burn_error(caller, token_id) == Some(e),
            },
    {
        self.guard.require_not_paused()?;
        if !self.is_approved_or_owner(caller, token_id)? {
            return Err(LedgerError::InsufficientApproval { operator: caller, token_id });
        }
        self.burn_internal(token_id)
    }
}

/// The transfer records of ids minted to `to`, in order.
pub open spec fn mint_records(to: Address, ids: Seq<U256>) -> Seq<Event> {
    ids.map_values(|id: U256| Event::TokenTransfer { from: zero_address(), to, token_id: id })
}

impl ERC721Token {
    /// The error `mint_batch` gives, if any. Where the cap is set and the
    /// supply plus `count` passes 2^256 - 1, that is an `Overflow`, not
    /// `MaxSupplyReached`.
    pub open spec fn mint_batch_error(&self, caller: Address, to: Address, count: U256) -> Option<LedgerError> {
        if !self.access().is_owner(caller) {
            Some(LedgerError::Unauthorized { account: caller })
        } else if self.access().paused {
            Some(LedgerError::EnforcedPause)
        } else if self.max_supply_spec() > 0 && self.supply() + count@ > u256_max() {
            Some(LedgerError::Overflow)
        } else if self.max_supply_spec() > 0 && self.supply() + count@ > self.max_supply_spec() {
            Some(LedgerError::MaxSupplyReached { max_supply: self.max_supply_word() })
        } else if count@ > 0 && to == zero_address() {
            Some(LedgerError::InvalidReceiver { receiver: to })
        } else if count@ > usize::MAX {
            Some(LedgerError::BatchTooLarge { count })
        } else if self.next_id() + count@ > u256_max() {
            Some(LedgerError::Overflow)
        } else if self.supply() + count@ > u256_max() {
            Some(LedgerError::Overflow)
        } else {
            None
        }
    }

    /// `self` is `old` with the `n` ids from `old`'s counter on minted to `to`.
    pub open spec fn minted_run(&self, old: &Self, to: Address, n: nat) -> bool {
        &&& self.next_id() == old.next_id() + n
        &&& self.supply() == old.supply() + n
        &&& forall|u: U256| #[trigger]
            self.owner_spec(u) == if old.next_id() <= u@ < old.next_id() + n {
                to
            } else {
                old.owner_spec(u)
            }
        &&& forall|a: Address| #[trigger]
            self.balance(a) == old.balance(a) + (if a == to {
                n
            } else {
                0
            })
        &&& forall|u: U256|
            (old.next_id() <= u@ < old.next_id() + n ==> #[trigger] self.position(u)@ == old.balance(to)
                + u@ - old.next_id()) && (!(old.next_id() <= u@ < old.next_id() + n) ==> self.position(u)
                == old.position(u))
        &&& forall|u: U256| #[trigger] self.approved_spec(u) == old.approved_spec(u)
        &&& forall|o: Address, op: Address| #[trigger] self.operator_spec(o, op) == old.operator_spec(o, op)
        &&& self.max_supply_spec() == old.max_supply_spec()
        &&& self.access() == old.access()
        &&& self.meta() == old.meta()
        &&& self.event_log().len() == old.event_log().len() + n
    }

    /// Mints the next id to `to`; the owner only.
    pub fn mint(&mut self, caller: Address, to: Address) -> (r: Result<U256, LedgerError>)
        requires
            old(self).wf(),
        ensures
            final(self).wf(),
            match r {
                Ok(token_id) => {
                    &&& old(self).mint_error(caller, to).is_none()
                    &&& token_id@ == old(self).next_id()
                    &&& !old(self).exists_token(token_id)
                    &&& final(self).minted_run(old(self), to, 1)
                    &&& final(self).owner_set(old(self), token_id, to)
                    &&& final(self).event_log() == old(self).event_log().push(
                        Event::TokenTransfer { from: zero_address(), to, token_id },
                    )
                },
                Err(e) => *final(self) == *old(self) && old(self).mint_error(caller, to) == Some(e),
            },
    {
        self.guard.require_owner(caller)?;
        self.guard.require_not_paused()?;
        if !self.max_supply.is_zero() && !self.total_supply.lt(&self.max_supply) {
            return Err(LedgerError::MaxSupplyReached { max_supply: self.max_supply });
        }
        let token_id = self.next_token_id;
        let next = match token_id.checked_add(&U256::from_u64(1)) {
            Some(n) => n,
            None => {
                return Err(LedgerError::Overflow);
            },
        };
        proof {
            assert(!old(self).exists_token(token_id));
        }
        self.next_token_id = next;
        proof {
            lemma_same_ledger(*old(self), *self);
        }
        let ghost s1 = *self;
        match self.mint_internal(to, token_id) {
            Ok(()) => {
                proof {
                    assert forall|u: U256| #[trigger] self.owner_spec(u) == if old(self).next_id() <= u@
                        < old(self).next_id() + 1 {
                        to
                    } else {
                        old(self).owner_spec(u)
                    } by {
                        lemma_u256_view_injective(u, token_id);
                    }
                    assert forall|u: U256|
                        (old(self).next_id() <= u@ < old(self).next_id() + 1 ==> #[trigger] self.position(u)@
                            == old(self).balance(to) + u@ - old(self).next_id()) && (!(old(self).next_id()
                            <= u@ < old(self).next_id() + 1) ==> self.position(u) == old(self).position(u)) by {
                        lemma_u256_view_injective(u, token_id);
                    }
                }
                Ok(token_id)
            },
            Err(e) => {
                self.next_token_id = token_id;
                Err(e)
            },
        }
    }

    /// Mints `count` consecutive ids to `to`, all or none; the owner only.
    #[verifier::rlimit(80)]
    pub fn mint_batch(&mut self, caller: Address, to: Address, count: U256) -> (r: Result<Vec<U256>, LedgerError>)
        requires
            old(self).wf(),
        ensures
            final(self).wf(),
            match r {
                Ok(ids) => {
                    &&& old(self).mint_batch_error(caller, to, count).is_none()
                    &&& ids@.len() == count@
                    &&& forall|j: int| 0 <= j < ids@.len() ==> (#[trigger] ids@[j])@ == old(self).next_id() + j
                    &&& final(self).minted_run(old(self), to, count@)
                    &&& final(self).event_log() == old(self).event_log() + mint_records(to, ids@)
                },
                Err(e) => *final(self) == *old(self) && old(self).mint_batch_error(caller, to, count)
                    == Some(e),
            },
    {
        self.guard.require_owner(caller)?;
        self.guard.require_not_paused()?;
        if !self.max_supply.is_zero() {
            match self.total_supply.checked_add(&count) {
                None => {
                    return Err(LedgerError::Overflow);
                },
                Some(after) => {
                    if self.max_supply.lt(&after) {
                        return Err(LedgerError::MaxSupplyReached { max_supply: self.max_supply });
                    }
                },
            }
        }
        if !count.is_zero() && to.is_zero() {
            return Err(LedgerError::InvalidReceiver { receiver: to });
        }
        if !(count.l1 == 0 && count.l2 == 0 && count.l3 == 0 && (count.l0 as u128) <= (usize::MAX as u128)) {
            proof {
                lemma_u256_bounds(count);
            }
            return Err(LedgerError::BatchTooLarge { count });
        }
        let n: usize = count.l0 as usize;
        let n_word = U256::from_u64(count.l0);
        if self.next_token_id.checked_add(&n_word).is_none() {
            return Err(LedgerError::Overflow);
        }
        if self.total_supply.checked_add(&n_word).is_none() {
            return Err(LedgerError::Overflow);
        }
        let mut ids: Vec<U256> = Vec::new();
        let mut i: usize = 0;
        proof {
            assert(self.access().initialized);
        }
        while i < n
            invariant
                self.wf(),
                i <= n,
                n == count@,
                self.event_log() == old(self).event_log() + mint_records(to, ids@),
                self.access().initialized,
                n > 0 ==> to != zero_address(),
                n > 0 ==> old(self).next_id() + n <= u256_max(),
                old(self).supply() + n <= u256_max(),
                ids@.len() == i,
                forall|j: int| 0 <= j < i ==> (#[trigger] ids@[j])@ == old(self).next_id() + j,
                self.minted_run(old(self), to, i as nat),
            decreases n - i,
        {
            let token_id = self.next_token_id;
            let ghost s0 = *self;
            proof {
                assert(!s0.exists_token(token_id));
            }
            self.next_token_id = token_id.add(&U256::from_u64(1));
            proof {
                lemma_same_ledger(s0, *self);
            }
            let ghost s1 = *self;
            match self.mint_internal(to, token_id) {
                Ok(()) => {},
                Err(e) => {
                    return Err(e);
                },
            }
            proof {
                assert forall|u: U256| #[trigger] self.owner_spec(u) == if old(self).next_id() <= u@
                    < old(self).next_id() + i + 1 {
                    to
                } else {
                    old(self).owner_spec(u)
                } by {
                    lemma_u256_view_injective(u, token_id);
                }
                assert forall|u: U256|
                    (old(self).next_id() <= u@ < old(self).next_id() + i + 1 ==> #[trigger] self.position(u)@
                        == old(self).balance(to) + u@ - old(self).next_id()) && (!(old(self).next_id() <= u@
                        < old(self).next_id() + i + 1) ==> self.position(u) == old(self).position(u)) by {
                    lemma_u256_view_injective(u, token_id);
                    assert(s1.position(u) == s0.position(u));
                }
            }
            let ghost before = ids@;
            ids.push(token_id);
            proof {
                assert(mint_records(to, ids@) =~= mint_records(to, before).push(
                    Event::TokenTransfer { from: zero_address(), to, token_id },
                ));
                assert(self.event_log() =~= old(self).event_log() + mint_records(to, ids@));
            }
            i = i + 1;
        }
        Ok(ids)
    }
}

impl ERC721Token {
    /// Sets the metadata, the supply cap (0 for none) and the owner. Once only.
    /// Token ids start at 1.
    pub fn initialize(
        &mut self,
        name: String,
        symbol: String,
        base_uri: String,
        max_supply: U256,
        owner: Address,
    ) -> (r: Result<(), LedgerError>)
        requires
            old(self).wf(),
        ensures
            final(self).wf(),
            match r {
                Ok(()) => {
                    &&& !old(self).access().initialized
                    &&& final(self).meta() == (name@, symbol@, base_uri@)
                    &&& final(self).max_supply_spec() == max_supply@
                    &&& final(self).access() == (AccessGuard { owner, paused: false, initialized: true })
                    &&& final(self).next_id() == 1
                    &&& forall|t: U256| !#[trigger] final(self).exists_token(t)
                    &&& forall|u: U256| #[trigger] final(self).owner_spec(u) == old(self).owner_spec(u)
                    &&& forall|a: Address| #[trigger] final(self).balance(a) == old(self).balance(a)
                    &&& forall|u: U256| #[trigger] final(self).approved_spec(u) == old(self).approved_spec(u)
                    &&& forall|o: Address, op: Address| #[trigger] final(self).operator_spec(o, op)
                        == old(self).operator_spec(o, op)
                    &&& final(self).supply() == old(self).supply()
                    &&& final(self).same_enumeration(old(self))
                    &&& final(self).event_log() == old(self).event_log().push(
                        Event::OwnershipTransferred { previous_owner: zero_address(), new_owner: owner },
                    )
                },
                Err(e) => old(self).access().initialized && e == LedgerError::AlreadyInitialized
                    && *final(self) == *old(self),
            },
    {
        if self.guard.initialized {
            return Err(LedgerError::AlreadyInitialized);
        }
        self.name = name;
        self.symbol = symbol;
        self.base_uri = base_uri;
        self.max_supply = max_supply;
        self.guard = AccessGuard { owner, paused: false, initialized: true };
        self.next_token_id = U256::from_u64(1);
        self.events.push(Event::OwnershipTransferred { previous_owner: Address::zero(), new_owner: owner });
        proof {
            lemma_same_ledger(*old(self), *self);
            assert forall|t: U256| !#[trigger] self.exists_token(t) by {
                assert(!old(self).exists_token(t));
            }
        }
        Ok(())
    }

    pub fn name(&self) -> (r: String)
        ensures
            r@ == self.meta().0,
    {
        self.name.clone()
    }

    pub fn symbol(&self) -> (r: String)
        ensures
            r@ == self.meta().1,
    {
        self.symbol.clone()
    }

    pub fn base_uri(&self) -> (r: String)
        ensures
            r@ == self.meta().2,
    {
        self.base_uri.clone()
    }

    /// The base URI followed by the token id in decimal.
    pub fn token_uri(&self, token_id: U256) -> (r: Result<String, LedgerError>)
        requires
            self.wf(),
        ensures
            match r {
                Ok(uri) => self.exists_token(token_id) && uri@ == self.meta().2 + decimal(token_id@),
                Err(e) => !self.exists_token(token_id) && e == (LedgerError::NonexistentToken {
                    token_id,
                }),
            },
    {
        self.require_token_exists(token_id)?;
        let digits = decimal_string(&token_id);
        Ok(self.base_uri.clone().concat(digits.as_str()))
    }

    pub fn total_supply(&self) -> (r: U256)
        ensures
            r@ == self.supply(),
    {
        self.total_supply
    }

    /// The supply cap; 0 means none.
    pub fn max_supply(&self) -> (r: U256)
        ensures
            r@ == self.max_supply_spec(),
            r == self.max_supply_word(),
    {
        self.max_supply
    }

    pub fn is_paused(&self) -> (r: bool)
        ensures
            r == self.access().paused,
    {
        self.guard.paused
    }

    pub fn owner(&self) -> (r: Address)
        ensures
            r == self.access().owner,
    {
        self.guard.owner
    }

    /// The events recorded so far, oldest first.
    pub fn events(&self) -> (r: &Vec<Event>)
        ensures
            r@ == self.event_log(),
    {
        &self.events
    }

    /// The id at `index` of the collection, ids being handed out from 1 on.
    pub fn token_by_index(&self, index: U256) -> (r: Result<U256, LedgerError>)
        requires
            self.wf(),
        ensures
            match r {
                Ok(t) => index@ < self.supply() && t@ == index@ + 1,
                Err(e) => index@ >= self.supply() && e == LedgerError::IndexOutOfBounds,
            },
    {
        if !index.lt(&self.total_supply) {
            return Err(LedgerError::IndexOutOfBounds);
        }
        proof {
            lemma_u256_bounds(self.total_supply);
        }
        Ok(index.add(&U256::from_u64(1)))
    }

    /// The token at position `index` of `owner`'s enumeration.
    pub fn token_of_owner_by_index(&self, owner: Address, index: U256) -> (r: Result<U256, LedgerError>)
        requires
            self.wf(),
        ensures
            match r {
                Ok(t) => index@ < self.balance(owner) && t == self.slot(owner, index),
                Err(e) => index@ >= self.balance(owner) && e == LedgerError::IndexOutOfBounds,
            },
    {
        let balance = self.balances.get_or(&owner, U256::zero());
        if !index.lt(&balance) {
            return Err(LedgerError::IndexOutOfBounds);
        }
        Ok(self.owned_tokens.get_or(&OwnedSlot { owner, index }, U256::zero()))
    }
}

/// The interface ids the collection answers to: ERC-165, ERC-721,
/// ERC-721 metadata and ERC-721 enumeration.
pub open spec fn is_supported_interface(id: Seq<u8>) -> bool {
    id == seq![0x01u8, 0xffu8, 0xc9u8, 0xa7u8] || id == seq![0x80u8, 0xacu8, 0x58u8, 0xcdu8]
        || id == seq![0x5bu8, 0x5eu8, 0x13u8, 0x9fu8] || id == seq![0x78u8, 0x0eu8, 0x9du8, 0x63u8]
}

impl ERC721Token {
    pub fn supports_interface(&self, interface_id: [u8; 4]) -> (r: bool)
        ensures
            r == is_supported_interface(interface_id@),
    {
        let a = interface_id[0];
        let b = interface_id[1];
        let c = interface_id[2];
        let d = interface_id[3];
        let r = (a == 0x01 && b == 0xff && c == 0xc9 && d == 0xa7) || (a == 0x80 && b == 0xac && c
            == 0x58 && d == 0xcd) || (a == 0x5b && b == 0x5e && c == 0x13 && d == 0x9f) || (a == 0x78
            && b == 0x0e && c == 0x9d && d == 0x63);
        proof {
            let s = interface_id@;
            assert(s.len() == 4);
            assert(r ==> is_supported_interface(s)) by {
                if a == 0x01 && b == 0xff && c == 0xc9 && d == 0xa7 {
                    assert(s =~= seq![0x01u8, 0xffu8, 0xc9u8, 0xa7u8]);
                } else if a == 0x80 && b == 0xac && c == 0x58 && d == 0xcd {
                    assert(s =~= seq![0x80u8, 0xacu8, 0x58u8, 0xcdu8]);
                } else if a == 0x5b && b == 0x5e && c == 0x13 && d == 0x9f {
                    assert(s =~= seq![0x5bu8, 0x5eu8, 0x13u8, 0x9fu8]);
                } else if a == 0x78 && b == 0x0e && c == 0x9d && d == 0x63 {
                    assert(s =~= seq![0x78u8, 0x0eu8, 0x9du8, 0x63u8]);
                }
            }
        }
        r
    }
}

/// Enumeration consistency: in a well-formed ledger, which every operation
/// keeps well formed, each position below an owner's balance holds a token of
/// that owner whose recorded position is that position; an owner's balance is
/// the length of its enumeration.
pub proof fn law_enumeration_consistent(l: &ERC721Token, o: Address, p: U256)
    requires
        l.wf(),
        p@ < l.balance(o),
    ensures
        l.position(l.slot(o, p)) == p,
        l.owner_spec(l.slot(o, p)) == o,
{
}

/// Existence bijection: a token has a non-zero owner exactly when it appears in
/// some owner's enumeration, and then it appears at one position of one owner only.
pub proof fn law_existence_bijection(l: &ERC721Token, t: U256)
    requires
        l.wf(),
    ensures
        l.exists_token(t) <==> exists|o: Address, p: U256| p@ < l.balance(o) && #[trigger] l.slot(o, p) == t,
        forall|o1: Address, p1: U256, o2: Address, p2: U256|
            p1@ < l.balance(o1) && p2@ < l.balance(o2) && #[trigger] l.slot(o1, p1) == t
                && #[trigger] l.slot(o2, p2) == t ==> o1 == o2 && p1 == p2,
{
    if l.exists_token(t) {
        let o = l.owner_spec(t);
        let p = l.position(t);
        assert(p@ < l.balance(o) && l.slot(o, p) == t);
    }
    assert forall|o: Address, p: U256| p@ < l.balance(o) && #[trigger] l.slot(o, p) == t implies l.exists_token(t) by {
        if o == zero_address() {
            assert(l.balance(o) == 0);
        }
    }
}

/// Renouncing is final: with no owner, every owner-gated call is refused as
/// unauthorized, whoever calls, so ownership can never be taken back.
pub proof fn law_renounce_is_final(l: &ERC721Token, caller: Address, to: Address, new_owner: Address)
    requires
        l.access().owner == zero_address(),
    ensures
        l.mint_error(caller, to) == Some(LedgerError::Unauthorized { account: caller }),
        l.access().pause_error(caller) == Some(LedgerError::Unauthorized { account: caller }),
        l.access().unpause_error(caller) == Some(LedgerError::Unauthorized { account: caller }),
        l.access().transfer_ownership_error(caller, new_owner) == Some(
            LedgerError::Unauthorized { account: caller },
        ),
{
}

/// Pause gating: while paused, transfers and burns fail with `EnforcedPause`,
/// and so do mints and a second pause by the owner; only `unpause` goes through.
pub proof fn law_pause_gating(l: &ERC721Token, caller: Address, from: Address, to: Address, t: U256)
    requires
        l.access().paused,
    ensures
        l.transfer_from_error(caller, from, to, t) == Some(LedgerError::EnforcedPause),
        l.burn_error(caller, t) == Some(LedgerError::EnforcedPause),
        l.access().is_owner(caller) ==> l.mint_error(caller, to) == Some(LedgerError::EnforcedPause),
        l.access().is_owner(caller) ==> l.mint_batch_error(caller, to, U256 { l0: 1, l1: 0, l2: 0, l3: 0 })
            == Some(LedgerError::EnforcedPause),
        l.access().is_owner(caller) ==> l.access().pause_error(caller) == Some(LedgerError::EnforcedPause),
        l.access().is_owner(caller) ==> l.access().unpause_error(caller).is_none(),
{
}

impl ERC721Token {
    /// The error `mint_next` gives, if any.
    pub open spec fn mint_next_error(&self, to: Address) -> Option<LedgerError> {
        if self.next_id() + 1 > u256_max() {
            Some(LedgerError::Overflow)
        } else if to == zero_address() {
            Some(LedgerError::InvalidReceiver { receiver: to })
        } else if self.supply() + 1 > u256_max() {
            Some(LedgerError::Overflow)
        } else {
            None
        }
    }

    /// Mints the next id to `to`, with no owner, pause or cap check.
    pub(crate) fn mint_next(&mut self, to: Address) -> (r: Result<U256, LedgerError>)
        requires
            old(self).wf(),
            old(self).access().initialized,
        ensures
            final(self).wf(),
            match r {
                Ok(token_id) => {
                    &&& old(self).mint_next_error(to).is_none()
                    &&& token_id@ == old(self).next_id()
                    &&& final(self).minted_run(old(self), to, 1)
                    &&& final(self).event_log() == old(self).event_log().push(
                        Event::TokenTransfer { from: zero_address(), to, token_id },
                    )
                },
                Err(e) => *final(self) == *old(self) && old(self).mint_next_error(to) == Some(e),
            },
    {
        let token_id = self.next_token_id;
        let next = match token_id.checked_add(&U256::from_u64(1)) {
            Some(n) => n,
            None => {
                return Err(LedgerError::Overflow);
            },
        };
        proof {
            assert(!old(self).exists_token(token_id));
        }
        self.next_token_id = next;
        proof {
            lemma_same_ledger(*old(self), *self);
        }
        match self.mint_internal(to, token_id) {
            Ok(()) => {
                proof {
                    assert forall|u: U256| #[trigger] self.owner_spec(u) == if old(self).next_id() <= u@
                        < old(self).next_id() + 1 {
                        to
                    } else {
                        old(self).owner_spec(u)
                    } by {
                        lemma_u256_view_injective(u, token_id);
                    }
                    assert forall|u: U256|
                        (old(self).next_id() <= u@ < old(self).next_id() + 1 ==> #[trigger] self.position(u)@
                            == old(self).balance(to) + u@ - old(self).next_id()) && (!(old(self).next_id()
                            <= u@ < old(self).next_id() + 1) ==> self.position(u) == old(self).position(u)) by {
                        lemma_u256_view_injective(u, token_id);
                    }
                }
                Ok(token_id)
            },
            Err(e) => {
                self.next_token_id = token_id;
                Err(e)
            },
        }
    }
}

} // verus!
