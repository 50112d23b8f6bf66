//! The fungible-balance ledger: balances, allowances and total supply.
use vstd::prelude::*;
use crate::address::{Address, AddressPair, zero_address};
use crate::guard::{AccessGuard, Event, LedgerError};
use crate::num::{U256, u256_max, lemma_u256_bounds};
use crate::table::Table;

verus! {

/// The sum of the amounts held in a list of balance entries.
pub open spec fn sum_amounts(s: Seq<(Address, U256)>) -> nat
    decreases s.len(),
{
    if s.len() == 0 {
        0
    } else {
        sum_amounts(s.drop_last()) + s.last().1@
    }
}

pub proof fn lemma_sum_push(s: Seq<(Address, U256)>, x: (Address, U256))
    ensures
        sum_amounts(s.push(x)) == sum_amounts(s) + x.1@,
{
    assert(s.push(x).drop_last() =~= s);
}

pub proof fn lemma_sum_update(s: Seq<(Address, U256)>, i: int, x: (Address, U256))
    requires
        0 <= i < s.len(),
    ensures
        sum_amounts(s.update(i, x)) == sum_amounts(s) - s[i].1@ + x.1@,
    decreases s.len(),
{
    if i == s.len() - 1 {
        assert(s.update(i, x).drop_last() =~= s.drop_last());
    } else {
        lemma_sum_update(s.drop_last(), i, x);
        assert(s.update(i, x).drop_last() =~= s.drop_last().update(i, x));
    }
}

/// Two distinct entries together hold no more than the whole list.
pub proof fn lemma_sum_two_entries(s: Seq<(Address, U256)>, i: int, j: int)
    requires
        0 <= i < s.len(),
        0 <= j < s.len(),
    ensures
        s[i].1@ <= sum_amounts(s),
        i != j ==> s[i].1@ + s[j].1@ <= sum_amounts(s),
    decreases s.len(),
{
    let n = s.len() - 1;
    if i != n && j != n {
        lemma_sum_two_entries(s.drop_last(), i, j);
    } else if i != n {
        lemma_sum_two_entries(s.drop_last(), i, i);
    } else if j != n {
        lemma_sum_two_entries(s.drop_last(), j, j);
    }
}

/// What `set(k, v)` does to the sum of a balance table.
pub proof fn lemma_set_sum(t0: Table<Address, U256>, t1: Table<Address, U256>, k: Address, v: U256)
    requires
        t0.wf(),
        t0@.contains_key(k) ==> exists|i: int|
            0 <= i < t0.entries@.len() && t0.entries@[i].0 == k && t1.entries@
                == t0.entries@.update(i, (k, v)),
        !t0@.contains_key(k) ==> t1.entries@ == t0.entries@.push((k, v)),
    ensures
        sum_amounts(t1.entries@) == sum_amounts(t0.entries@) - t0.value_or(k, zero_u256())@ + v@,
{
    if t0@.contains_key(k) {
        let i = choose|i: int|
            0 <= i < t0.entries@.len() && t0.entries@[i].0 == k && t1.entries@
                == t0.entries@.update(i, (k, v));
        lemma_sum_update(t0.entries@, i, (k, v));
    } else {
        lemma_sum_push(t0.entries@, (k, v));
    }
}

/// A single balance is at most the sum of all of them.
pub proof fn lemma_value_le_sum(t: Table<Address, U256>, k: Address)
    requires
        t.wf(),
    ensures
        t.value_or(k, zero_u256())@ <= sum_amounts(t.entries@),
{
    if t@.contains_key(k) {
        let i = choose|i: int| 0 <= i < t.entries@.len() && #[trigger] t.entries@[i].0 == k;
        lemma_sum_two_entries(t.entries@, i, i);
    }
}

/// The fungible token: an ERC-20 style ledger behind the owner / pause guard.
pub struct ERC20Token {
    name: String,
    symbol: String,
    decimals: u8,
    total_supply: U256,
    balances: Table<Address, U256>,
    allowances: Table<AddressPair, U256>,
    guard: AccessGuard,
    events: Vec<Event>,
}

pub open spec fn zero_u256() -> U256 {
    U256 { l0: 0, l1: 0, l2: 0, l3: 0 }
}

impl ERC20Token {
    /// Balances are kept with distinct keys and the total supply is their sum.
    pub closed spec fn wf(&self) -> bool {
        &&& self.balances.wf()
        &&& self.allowances.wf()
        &&& self.total_supply@ == sum_amounts(self.balances.entries@)
    }

    pub closed spec fn balance_word(&self, a: Address) -> U256 {
        self.balances.value_or(a, zero_u256())
    }

    pub open spec fn balance(&self, a: Address) -> nat {
        self.balance_word(a)@
    }

    pub closed spec fn allowance_word(&self, owner: Address, spender: Address) -> U256 {
        self.allowances.value_or(AddressPair { owner, delegate: spender }, zero_u256())
    }

    pub open spec fn allowance_of(&self, owner: Address, spender: Address) -> nat {
        self.allowance_word(owner, spender)@
    }

    pub closed spec fn supply(&self) -> nat {
        self.total_supply@
    }

    /// The sum of all balances.
    pub closed spec fn sum_of_balances(&self) -> nat {
        sum_amounts(self.balances.entries@)
    }

    pub closed spec fn access(&self) -> AccessGuard {
        self.guard
    }

    pub closed spec fn event_log(&self) -> Seq<Event> {
        self.events@
    }

    pub closed spec fn meta(&self) -> (Seq<char>, Seq<char>, u8) {
        (self.name@, self.symbol@, self.decimals)
    }

    /// Everything but the balances and the total supply is as in `other`.
    pub open spec fn same_but_balances(&self, other: &Self) -> bool {
        &&& forall|o: Address, s: Address| #[trigger]
            self.allowance_word(o, s) == other.allowance_word(o, s)
        &&& self.access() == other.access()
        &&& self.meta() == other.meta()
    }

    /// Everything but the allowances is as in `other`.
    pub open spec fn same_but_allowances(&self, other: &Self) -> bool {
        &&& forall|a: Address| #[trigger] self.balance_word(a) == other.balance_word(a)
        &&& self.supply() == other.supply()
        &&& self.access() == other.access()
        &&& self.meta() == other.meta()
    }

    /// Everything but the guard is as in `other`.
    pub open spec fn same_but_access(&self, other: &Self) -> bool {
        &&& forall|a: Address| #[trigger] self.balance_word(a) == other.balance_word(a)
        &&& forall|o: Address, s: Address| #[trigger]
            self.allowance_word(o, s) == other.allowance_word(o, s)
        &&& self.supply() == other.supply()
        &&& self.meta() == other.meta()
    }

    /// An empty, uninitialized ledger.
    pub fn new() -> (r: ERC20Token)
        ensures
            r.wf(),
            r.supply() == 0,
            forall|a: Address| r.balance(a) == 0,
            forall|o: Address, s: Address| r.allowance_of(o, s) == 0,
            r.access() == (AccessGuard { owner: zero_address(), paused: false, initialized: false }),
            r.event_log().len() == 0,
    {
        ERC20Token {
            name: String::new(),
            symbol: String::new(),
            decimals: 0,
            total_supply: U256::zero(),
            balances: Table::new(),
            allowances: Table::new(),
            guard: AccessGuard::new(),
            events: Vec::new(),
        }
    }

    /// The error a transfer of `value` from `from` to `to` gives, if any.
    pub open spec fn transfer_error(&self, from: Address, to: Address, value: U256) -> Option<
        LedgerError,
    > {
        if from == zero_address() {
            Some(LedgerError::InvalidSender { sender: from })
        } else if to == zero_address() {
            Some(LedgerError::InvalidReceiver { receiver: to })
        } else if self.balance(from) < value@ {
            Some(
                LedgerError::InsufficientBalance {
                    from,
                    available: self.balance_word(from),
                    required: value,
                },
            )
        } else {
            None
        }
    }

    /// The error a burn of `amount` from `from` gives, if any.
    pub open spec fn burn_error(&self, from: Address, amount: U256) -> Option<LedgerError> {
        if from == zero_address() {
            Some(LedgerError::InvalidSender { sender: from })
        } else if self.balance(from) < amount@ {
            Some(
                LedgerError::InsufficientBalance {
                    from,
                    available: self.balance_word(from),
                    required: amount,
                },
            )
        } else {
            None
        }
    }

    /// The error a mint of `amount` to `to` gives, if any.
    pub open spec fn mint_error(&self, to: Address, amount: U256) -> Option<LedgerError> {
        if to == zero_address() {
            Some(LedgerError::InvalidReceiver { receiver: to })
        } else if self.supply() + amount@ > u256_max() {
            Some(LedgerError::Overflow)
        } else {
            None
        }
    }

    /// The error spending `value` of `owner`'s allowance to `spender` gives, if any.
    pub open spec fn spend_error(&self, owner: Address, spender: Address, value: U256) -> Option<
        LedgerError,
    > {
        if self.allowance_of(owner, spender) != u256_max() && self.allowance_of(owner, spender)
            < value@ {
            Some(
                LedgerError::InsufficientAllowance {
                    spender,
                    available: self.allowance_word(owner, spender),
                    required: value,
                },
            )
        } else {
            None
        }
    }

    /// The error an approval gives, if any.
    pub open spec fn approve_error(&self, owner: Address, spender: Address) -> Option<LedgerError> {
        if owner == zero_address() {
            Some(LedgerError::InvalidSender { sender: owner })
        } else if spender == zero_address() {
            Some(LedgerError::InvalidReceiver { receiver: spender })
        } else {
            None
        }
    }

    fn check_transfer(&self, from: Address, to: Address, value: U256) -> (r: Result<U256, LedgerError>)
        requires
            self.wf(),
        ensures
            match r {
                Ok(b) => self.transfer_error(from, to, value).is_none() && b == self.balance_word(from),
                Err(e) => self.transfer_error(from, to, value) == Some(e),
            },
    {
        if from.is_zero() {
            return Err(LedgerError::InvalidSender { sender: from });
        }
        if to.is_zero() {
            return Err(LedgerError::InvalidReceiver { receiver: to });
        }
        let from_balance = self.balances.get_or(&from, U256::zero());
        if from_balance.lt(&value) {
            return Err(LedgerError::InsufficientBalance { from, available: from_balance, required: value });
        }
        Ok(from_balance)
    }

    fn check_burn(&self, from: Address, amount: U256) -> (r: Result<(), LedgerError>)
        requires
            self.wf(),
        ensures
            match r {
                Ok(()) => self.burn_error(from, amount).is_none(),
                Err(e) => self.burn_error(from, amount) == Some(e),
            },
    {
        if from.is_zero() {
            return Err(LedgerError::InvalidSender { sender: from });
        }
        let balance = self.balances.get_or(&from, U256::zero());
        if balance.lt(&amount) {
            return Err(LedgerError::InsufficientBalance { from, available: balance, required: amount });
        }
        Ok(())
    }

    fn transfer_internal(&mut self, from: Address, to: Address, value: U256) -> (r: Result<(), LedgerError>)
        requires
            old(self).wf(),
        ensures
            final(self).wf(),
            match r {
                Ok(()) => {
                    &&& old(self).transfer_error(from, to, value).is_none()
                    &&& final(self).same_but_balances(old(self))
                    &&& final(self).supply() == old(self).supply()
                    &&& forall|a: Address| #[trigger]
                        final(self).balance(a) == old(self).balance(a) - (if a == from {
                            value@
                        } else {
                            0
                        }) + (if a == to {
                            value@
                        } else {
                            0
                        })
                    &&& final(self).event_log() == old(self).event_log().push(
                        Event::Transfer { from, to, value },
                    )
                },
                Err(e) => old(self).transfer_error(from, to, value) == Some(e) && *final(self)
                    == *old(self),
            },
    {
        let from_balance = self.check_transfer(from, to, value)?;
        let ghost t0 = self.balances;
        let new_from = from_balance.sub(&value);
        self.balances.set(from, new_from);
        proof {
            lemma_set_sum(t0, self.balances, from, new_from);
        }
        let ghost t1 = self.balances;
        let to_balance = self.balances.get_or(&to, U256::zero());
        proof {
            lemma_value_le_sum(t1, to);
            lemma_u256_bounds(self.total_supply);
        }
        let new_to = to_balance.add(&value);
        self.balances.set(to, new_to);
        proof {
            lemma_set_sum(t1, self.balances, to, new_to);
        }
        self.events.push(Event::Transfer { from, to, value });
        Ok(())
    }

    pub(crate) fn mint_internal(&mut self, to: Address, amount: U256) -> (r: Result<(), LedgerError>)
        requires
            old(self).wf(),
        ensures
            final(self).wf(),
            match r {
                Ok(()) => {
                    &&& old(self).mint_error(to, amount).is_none()
                    &&& final(self).same_but_balances(old(self))
                    &&& final(self).supply() == old(self).supply() + amount@
                    &&& forall|a: Address| #[trigger]
                        final(self).balance(a) == old(self).balance(a) + (if a == to {
                            amount@
                        } else {
                            0
                        })
                    &&& final(self).event_log() == old(self).event_log().push(
                        Event::Transfer { from: zero_address(), to, value: amount },
                    )
                },
                Err(e) => old(self).mint_error(to, amount) == Some(e) && *final(self) == *old(self),
            },
    {
        if to.is_zero() {
            return Err(LedgerError::InvalidReceiver { receiver: to });
        }
        let total = match self.total_supply.checked_add(&amount) {
            Some(t) => t,
            None => {
                return Err(LedgerError::Overflow);
            },
        };
        let balance = self.balances.get_or(&to, U256::zero());
        let ghost t0 = self.balances;
        proof {
            lemma_value_le_sum(t0, to);
        }
        let new_balance = balance.add(&amount);
        self.balances.set(to, new_balance);
        self.total_supply = total;
        proof {
            lemma_set_sum(t0, self.balances, to, new_balance);
        }
        self.events.push(Event::Transfer { from: Address::zero(), to, value: amount });
        Ok(())
    }

    pub(crate) fn burn_internal(&mut self, from: Address, amount: U256) -> (r: Result<(), LedgerError>)
        requires
            old(self).wf(),
        ensures
            final(self).wf(),
            match r {
                Ok(()) => {
                    &&& old(self).burn_error(from, amount).is_none()
                    &&& final(self).same_but_balances(old(self))
                    &&& final(self).supply() == old(self).supply() - amount@
                    &&& forall|a: Address| #[trigger]
                        final(self).balance(a) == old(self).balance(a) - (if a == from {
                            amount@
                        } else {
                            0
                        })
                    &&& final(self).event_log() == old(self).event_log().push(
                        Event::Transfer { from, to: zero_address(), value: amount },
                    )
                },
                Err(e) => old(self).burn_error(from, amount) == Some(e) && *final(self) == *old(self),
            },
    {
        if from.is_zero() {
            return Err(LedgerError::InvalidSender { sender: from });
        }
        let balance = self.balances.get_or(&from, U256::zero());
        if balance.lt(&amount) {
            return Err(LedgerError::InsufficientBalance { from, available: balance, required: amount });
        }
        let ghost t0 = self.balances;
        proof {
            lemma_value_le_sum(t0, from);
        }
        let new_balance = balance.sub(&amount);
        self.balances.set(from, new_balance);
        self.total_supply = self.total_supply.sub(&amount);
        proof {
            lemma_set_sum(t0, self.balances, from, new_balance);
        }
        self.events.push(Event::Transfer { from, to: Address::zero(), value: amount });
        Ok(())
    }

    fn approve_internal(&mut self, owner: Address, spender: Address, value: U256) -> (r: Result<
        (),
        LedgerError,
    >)
        requires
            old(self).wf(),
        ensures
            final(self).wf(),
            match r {
                Ok(()) => {
                    &&& old(self).approve_error(owner, spender).is_none()
                    &&& final(self).same_but_allowances(old(self))
                    &&& forall|o: Address, s: Address| #[trigger]
                        final(self).allowance_word(o, s) == if o == owner && s == spender {
                            value
                        } else {
                            old(self).allowance_word(o, s)
                        }
                    &&& final(self).event_log() == old(self).event_log().push(
                        Event::Approval { owner, spender, value },
                    )
                },
                Err(e) => old(self).approve_error(owner, spender) == Some(e) && *final(self)
                    == *old(self),
            },
    {
        if owner.is_zero() {
            return Err(LedgerError::InvalidSender { sender: owner });
        }
        if spender.is_zero() {
            return Err(LedgerError::InvalidReceiver { receiver: spender });
        }
        self.allowances.set(AddressPair { owner, delegate: spender }, value);
        self.events.push(Event::Approval { owner, spender, value });
        Ok(())
    }

    /// Takes `value` out of `owner`'s allowance to `spender`; the unlimited
    /// allowance (2^256 - 1) stays as it is.
    fn spend_allowance(&mut self, owner: Address, spender: Address, value: U256) -> (r: Result<
        (),
        LedgerError,
    >)
        requires
            old(self).wf(),
        ensures
            final(self).wf(),
            final(self).event_log() == old(self).event_log(),
            match r {
                Ok(()) => {
                    &&& old(self).spend_error(owner, spender, value).is_none()
                    &&& final(self).same_but_allowances(old(self))
                    &&& forall|o: Address, s: Address| #[trigger]
                        final(self).allowance_of(o, s) == if o == owner && s == spender
                            && old(self).allowance_of(o, s) != u256_max() {
                            old(self).allowance_of(o, s) - value@
                        } else {
                            old(self).allowance_of(o, s) as int
                        }
                },
                Err(e) => old(self).spend_error(owner, spender, value) == Some(e) && *final(self)
                    == *old(self),
            },
    {
        let key = AddressPair { owner, delegate: spender };
        let current = self.allowances.get_or(&key, U256::zero());
        if !current.is_max() {
            if current.lt(&value) {
                return Err(LedgerError::InsufficientAllowance { spender, available: current, required: value });
            }
            self.allowances.set(key, current.sub(&value));
        }
        Ok(())
    }

    fn check_spend(&self, owner: Address, spender: Address, value: U256) -> (r: Result<(), LedgerError>)
        requires
            self.wf(),
        ensures
            match r {
                Ok(()) => self.spend_error(owner, spender, value).is_none(),
                Err(e) => self.spend_error(owner, spender, value) == Some(e),
            },
    {
        let current = self.allowances.get_or(&AddressPair { owner, delegate: spender }, U256::zero());
        if !current.is_max() && current.lt(&value) {
            return Err(LedgerError::InsufficientAllowance { spender, available: current, required: value });
        }
        Ok(())
    }
}

impl ERC20Token {
    /// `self` is `old` with `value` moved from `from` to `to`, and allowances kept.
    pub open spec fn moved(&self, old: &Self, from: Address, to: Address, value: U256) -> bool {
        &&& self.supply() == old.supply()
        &&& forall|a: Address| #[trigger]
            self.balance(a) == old.balance(a) - (if a == from {
                value@
            } else {
                0
            }) + (if a == to {
                value@
            } else {
                0
            })
    }

    /// `self`'s allowances are `old`'s with `value` spent from `owner`'s allowance to `spender`.
    pub open spec fn spent(&self, old: &Self, owner: Address, spender: Address, value: U256) -> bool {
        forall|o: Address, s: Address| #[trigger]
            self.allowance_of(o, s) == if o == owner && s == spender && old.allowance_of(o, s)
                != u256_max() {
                old.allowance_of(o, s) - value@
            } else {
                old.allowance_of(o, s) as int
            }
    }

    /// `self`'s allowances are `old`'s with the one of `owner` to `spender` set to `value`.
    pub open spec fn allowance_set(&self, old: &Self, owner: Address, spender: Address, value: U256) -> bool {
        forall|o: Address, s: Address| #[trigger]
            self.allowance_word(o, s) == if o == owner && s == spender {
                value
            } else {
                old.allowance_word(o, s)
            }
    }

    /// The error `transfer` gives, if any.
    pub open spec fn transfer_call_error(&self, caller: Address, to: Address, value: U256) -> Option<
        LedgerError,
    > {
        if self.access().paused {
            Some(LedgerError::EnforcedPause)
        } else {
            self.transfer_error(caller, to, value)
        }
    }

    /// The error `transfer_from` gives, if any.
    pub open spec fn transfer_from_error(
        &self,
        caller: Address,
        from: Address,
        to: Address,
        value: U256,
    ) -> Option<LedgerError> {
        if self.access().paused {
            Some(LedgerError::EnforcedPause)
        } else if self.spend_error(from, caller, value).is_some() {
            self.spend_error(from, caller, value)
        } else {
            self.transfer_error(from, to, value)
        }
    }

    /// The error `burn_from` gives, if any.
    pub open spec fn burn_from_error(&self, caller: Address, from: Address, amount: U256) -> Option<
        LedgerError,
    > {
        if self.access().paused {
            Some(LedgerError::EnforcedPause)
        } else if self.spend_error(from, caller, amount).is_some() {
            self.spend_error(from, caller, amount)
        } else {
            self.burn_error(from, amount)
        }
    }

    /// The error `initialize` gives, if any.
    pub open spec fn initialize_error(&self, initial_supply: U256, owner: Address) -> Option<
        LedgerError,
    > {
        if self.access().initialized {
            Some(LedgerError::AlreadyInitialized)
        } else if initial_supply@ > 0 {
            self.mint_error(owner, initial_supply)
        } else {
            None
        }
    }

    /// Sets the metadata and the owner, and mints `initial_supply` to the owner. Once only.
    pub fn initialize(
        &mut self,
        name: String,
        symbol: String,
        decimals: u8,
        initial_supply: U256,
        owner: Address,
    ) -> (r: Result<(), LedgerError>)
        requires
            old(self).wf(),
        ensures
            final(self).wf(),
            match r {
                Ok(()) => {
                    &&& old(self).initialize_error(initial_supply, owner).is_none()
                    &&& final(self).meta() == (name@, symbol@, decimals)
                    &&& final(self).access() == (AccessGuard {
                        owner,
                        paused: false,
                        initialized: true,
                    })
                    &&& final(self).supply() == old(self).supply() + initial_supply@
                    &&& forall|a: Address| #[trigger]
                        final(self).balance(a) == old(self).balance(a) + (if a == owner {
                            initial_supply@
                        } else {
                            0
                        })
                    &&& forall|o: Address, s: Address| #[trigger]
                        final(self).allowance_word(o, s) == old(self).allowance_word(o, s)
                    &&& final(self).event_log() == (if initial_supply@ > 0 {
                        old(self).event_log().push(
                            Event::Transfer { from: zero_address(), to: owner, value: initial_supply },
                        )
                    } else {
                        old(self).event_log()
                    }).push(Event::OwnershipTransferred { previous_owner: zero_address(), new_owner: owner })
                },
                Err(e) => old(self).initialize_error(initial_supply, owner) == Some(e) && *final(self)
                    == *old(self),
            },
    {
        if self.guard.initialized {
            return Err(LedgerError::AlreadyInitialized);
        }
        if !initial_supply.is_zero() {
            self.mint_internal(owner, initial_supply)?;
        }
        let ghost minted = *self;
        self.name = name;
        self.symbol = symbol;
        self.decimals = decimals;
        self.guard = AccessGuard { owner, paused: false, initialized: true };
        self.events.push(Event::OwnershipTransferred { previous_owner: Address::zero(), new_owner: owner });
        proof {
            assert forall|a: Address| #[trigger] self.balance(a) == minted.balance(a) by {}
            assert forall|o: Address, s: Address| #[trigger] self.allowance_word(o, s)
                == minted.allowance_word(o, s) by {}
        }
        Ok(())
    }

    pub fn name(&self) -> (r: String)
        ensures
            r@ == self.meta().0,
    {
        self.name.clone()
    }

    pub fn symbol(&self) -> (r: String)
        ensures
            r@ == self.meta().1,
    {
        self.symbol.clone()
    }

    pub fn decimals(&self) -> (r: u8)
        ensures
            r == self.meta().2,
    {
        self.decimals
    }

    pub fn total_supply(&self) -> (r: U256)
        ensures
            r@ == self.supply(),
    {
        self.total_supply
    }

    pub fn balance_of(&self, account: Address) -> (r: U256)
        requires
            self.wf(),
        ensures
            r@ == self.balance(account),
    {
        self.balances.get_or(&account, U256::zero())
    }

    pub fn allowance(&self, owner: Address, spender: Address) -> (r: U256)
        requires
            self.wf(),
        ensures
            r == self.allowance_word(owner, spender),
    {
        self.allowances.get_or(&AddressPair { owner, delegate: spender }, U256::zero())
    }

    pub fn is_paused(&self) -> (r: bool)
        ensures
            r == self.access().paused,
    {
        self.guard.paused
    }

    pub fn owner(&self) -> (r: Address)
        ensures
            r == self.access().owner,
    {
        self.guard.owner
    }

    /// The events recorded so far, oldest first.
    pub fn events(&self) -> (r: &Vec<Event>)
        ensures
            r@ == self.event_log(),
    {
        &self.events
    }

    /// Moves `value` from `caller` to `to`.
    pub fn transfer(&mut self, caller: Address, to: Address, value: U256) -> (r: Result<bool, LedgerError>)
        requires
            old(self).wf(),
        ensures
            final(self).wf(),
            match r {
                Ok(b) => {
                    &&& b
                    &&& old(self).transfer_call_error(caller, to, value).is_none()
                    &&& final(self).same_but_balances(old(self))
                    &&& final(self).moved(old(self), caller, to, value)
                    &&& final(self).event_log() == old(self).event_log().push(
                        Event::Transfer { from: caller, to, value },
                    )
                },
                Err(e) => old(self).transfer_call_error(caller, to, value) == Some(e) && *final(self)
                    == *old(self),
            },
    {
        self.guard.require_not_paused()?;
        self.transfer_internal(caller, to, value)?;
        Ok(true)
    }

    /// Sets `caller`'s allowance to `spender` to `value`, replacing the old one.
    pub fn approve(&mut self, caller: Address, spender: Address, value: U256) -> (r: Result<bool, LedgerError>)
        requires
            old(self).wf(),
        ensures
            final(self).wf(),
            match r {
                Ok(b) => {
                    &&& b
                    &&& old(self).approve_error(caller, spender).is_none()
                    &&& final(self).same_but_allowances(old(self))
                    &&& final(self).allowance_set(old(self), caller, spender, value)
                    &&& final(self).event_log() == old(self).event_log().push(
                        Event::Approval { owner: caller, spender, value },
                    )
                },
                Err(e) => old(self).approve_error(caller, spender) == Some(e) && *final(self)
                    == *old(self),
            },
    {
        self.approve_internal(caller, spender, value)?;
        Ok(true)
    }

    /// Moves `value` from `from` to `to`, spending `from`'s allowance to `caller`.
    pub fn transfer_from(&mut self, caller: Address, from: Address, to: Address, value: U256) -> (r:
        Result<bool, LedgerError>)
        requires
            old(self).wf(),
        ensures
            final(self).wf(),
            match r {
                Ok(b) => {
                    &&& b
                    &&& old(self).transfer_from_error(caller, from, to, value).is_none()
                    &&& final(self).access() == old(self).access()
                    &&& final(self).meta() == old(self).meta()
                    &&& final(self).moved(old(self), from, to, value)
                    &&& final(self).spent(old(self), from, caller, value)
                    &&& final(self).event_log() == old(self).event_log().push(
                        Event::Transfer { from, to, value },
                    )
                },
                Err(e) => old(self).transfer_from_error(caller, from, to, value) == Some(e)
                    && *final(self) == *old(self),
            },
    {
        self.guard.require_not_paused()?;
        self.check_spend(from, caller, value)?;
        self.check_transfer(from, to, value)?;
        let ghost before = *self;
        self.spend_allowance(from, caller, value)?;
        proof {
            assert forall|a: Address| #[trigger] self.balance(a) == before.balance(a) by {}
        }
        let ghost spent = *self;
        self.transfer_internal(from, to, value)?;
        proof {
            assert forall|o: Address, s: Address| #[trigger] self.allowance_of(o, s)
                == spent.allowance_of(o, s) by {}
        }
        Ok(true)
    }

    /// Raises `caller`'s allowance to `spender` by `added_value`.
    pub fn increase_allowance(&mut self, caller: Address, spender: Address, added_value: U256) -> (r:
        Result<bool, LedgerError>)
        requires
            old(self).wf(),
        ensures
            final(self).wf(),
            match r {
                Ok(b) => {
                    &&& b
                    &&& old(self).approve_error(caller, spender).is_none()
                    &&& old(self).allowance_of(caller, spender) + added_value@ <= u256_max()
                    &&& final(self).same_but_allowances(old(self))
                    &&& final(self).allowance_of(caller, spender) == old(self).allowance_of(caller, spender) + added_value@
                    &&& forall|o: Address, s: Address| !(o == caller && s == spender) ==>
                        #[trigger] final(self).allowance_word(o, s) == old(self).allowance_word(o, s)
                    &&& final(self).event_log() == old(self).event_log().push(
                        Event::Approval { owner: caller, spender, value: final(self).allowance_word(caller, spender) },
                    )
                },
                Err(e) => *final(self) == *old(self) && if old(self).allowance_of(caller, spender)
                    + added_value@ > u256_max() {
                    e == LedgerError::Overflow
                } else {
                    old(self).approve_error(caller, spender) == Some(e)
                },
            },
    {
        let current = self.allowance(caller, spender);
        let raised = match current.checked_add(&added_value) {
            Some(v) => v,
            None => {
                return Err(LedgerError::Overflow);
            },
        };
        self.approve_internal(caller, spender, raised)?;
        Ok(true)
    }

    /// Lowers `caller`'s allowance to `spender` by `subtracted_value`.
    pub fn decrease_allowance(&mut self, caller: Address, spender: Address, subtracted_value: U256) -> (r:
        Result<bool, LedgerError>)
        requires
            old(self).wf(),
        ensures
            final(self).wf(),
            match r {
                Ok(b) => {
                    &&& b
                    &&& old(self).approve_error(caller, spender).is_none()
                    &&& subtracted_value@ <= old(self).allowance_of(caller, spender)
                    &&& final(self).same_but_allowances(old(self))
                    &&& final(self).allowance_of(caller, spender) == old(self).allowance_of(caller, spender) - subtracted_value@
                    &&& forall|o: Address, s: Address| !(o == caller && s == spender) ==>
                        #[trigger] final(self).allowance_word(o, s) == old(self).allowance_word(o, s)
                    &&& final(self).event_log() == old(self).event_log().push(
                        Event::Approval { owner: caller, spender, value: final(self).allowance_word(caller, spender) },
                    )
                },
                Err(e) => *final(self) == *old(self) && if old(self).allowance_of(caller, spender)
                    < subtracted_value@ {
                    e == (LedgerError::InsufficientAllowance {
                        spender,
                        available: old(self).allowance_word(caller, spender),
                        required: subtracted_value,
                    })
                } else {
                    old(self).approve_error(caller, spender) == Some(e)
                },
            },
    {
        let current = self.allowance(caller, spender);
        if current.lt(&subtracted_value) {
            return Err(LedgerError::InsufficientAllowance { spender, available: current, required: subtracted_value });
        }
        self.approve_internal(caller, spender, current.sub(&subtracted_value))?;
        Ok(true)
    }

    /// Creates `amount` new tokens for `to`; the owner only.
    pub fn mint(&mut self, caller: Address, to: Address, amount: U256) -> (r: Result<(), LedgerError>)
        requires
            old(self).wf(),
        ensures
            final(self).wf(),
            match r {
                Ok(()) => {
                    &&& old(self).access().is_owner(caller)
                    &&& old(self).mint_error(to, amount).is_none()
                    &&& final(self).same_but_balances(old(self))
                    &&& final(self).supply() == old(self).supply() + amount@
                    &&& forall|a: Address| #[trigger]
                        final(self).balance(a) == old(self).balance(a) + (if a == to {
                            amount@
                        } else {
                            0
                        })
                    &&& final(self).event_log() == old(self).event_log().push(
                        Event::Transfer { from: zero_address(), to, value: amount },
                    )
                },
                Err(e) => *final(self) == *old(self) && if !old(self).access().is_owner(caller) {
                    e == (LedgerError::Unauthorized { account: caller })
                } else {
                    old(self).mint_error(to, amount) == Some(e)
                },
            },
    {
        self.guard.require_owner(caller)?;
        self.mint_internal(to, amount)
    }

    /// Destroys `amount` of `caller`'s tokens.
    pub fn burn(&mut self, caller: Address, amount: U256) -> (r: Result<(), LedgerError>)
        requires
            old(self).wf(),
        ensures
            final(self).wf(),
            match r {
                Ok(()) => {
                    &&& !old(self).access().paused
                    &&& old(self).burn_error(caller, amount).is_none()
                    &&& final(self).same_but_balances(old(self))
                    &&& final(self).supply() == old(self).supply() - amount@
                    &&& forall|a: Address| #[trigger]
                        final(self).balance(a) == old(self).balance(a) - (if a == caller {
                            amount@
                        } else {
                            0
                        })
                    &&& final(self).event_log() == old(self).event_log().push(
                        Event::Transfer { from: caller, to: zero_address(), value: amount },
                    )
                },
                Err(e) => *final(self) == *old(self) && if old(self).access().paused {
                    e == LedgerError::EnforcedPause
                } else {
                    old(self).burn_error(caller, amount) == Some(e)
                },
            },
    {
        self.guard.require_not_paused()?;
        self.burn_internal(caller, amount)
    }

    /// Destroys `amount` of `from`'s tokens, spending `from`'s allowance to `caller`.
    pub fn burn_from(&mut self, caller: Address, from: Address, amount: U256) -> (r: Result<(), LedgerError>)
        requires
            old(self).wf(),
        ensures
            final(self).wf(),
            match r {
                Ok(()) => {
                    &&& old(self).burn_from_error(caller, from, amount).is_none()
                    &&& final(self).access() == old(self).access()
                    &&& final(self).meta() == old(self).meta()
                    &&& final(self).supply() == old(self).supply() - amount@
                    &&& forall|a: Address| #[trigger]
                        final(self).balance(a) == old(self).balance(a) - (if a == from {
                            amount@
                        } else {
                            0
                        })
                    &&& final(self).spent(old(self), from, caller, amount)
                    &&& final(self).event_log() == old(self).event_log().push(
                        Event::Transfer { from, to: zero_address(), value: amount },
                    )
                },
                Err(e) => old(self).burn_from_error(caller, from, amount) == Some(e) && *final(self)
                    == *old(self),
            },
    {
        self.guard.require_not_paused()?;
        self.check_spend(from, caller, amount)?;
        self.check_burn(from, amount)?;
        let ghost before = *self;
        self.spend_allowance(from, caller, amount)?;
        proof {
            assert forall|a: Address| #[trigger] self.balance(a) == before.balance(a) by {}
        }
        let ghost spent = *self;
        self.burn_internal(from, amount)?;
        proof {
            assert forall|o: Address, s: Address| #[trigger] self.allowance_of(o, s)
                == spent.allowance_of(o, s) by {}
        }
        Ok(())
    }

    /// The guard became `g`, one event was recorded, and nothing else changed.
    pub open spec fn guard_step(&self, old: &Self, g: AccessGuard, ev: Event) -> bool {
        &&& self.same_but_access(old)
        &&& self.access() == g
        &&& self.event_log() == old.event_log().push(ev)
    }

    pub fn pause(&mut self, caller: Address) -> (r: Result<(), LedgerError>)
        requires
            old(self).wf(),
        ensures
            final(self).wf(),
            match r {
                Ok(()) => old(self).access().pause_error(caller).is_none() && final(self).guard_step(
                    old(self),
                    AccessGuard { paused: true, ..old(self).access() },
                    Event::Paused { account: caller },
                ),
                Err(e) => old(self).access().pause_error(caller) == Some(e) && *final(self)
                    == *old(self),
            },
    {
        let ev = self.guard.pause(caller)?;
        self.events.push(ev);
        Ok(())
    }

    pub fn unpause(&mut self, caller: Address) -> (r: Result<(), LedgerError>)
        requires
            old(self).wf(),
        ensures
            final(self).wf(),
            match r {
                Ok(()) => old(self).access().unpause_error(caller).is_none() && final(self).guard_step(
                    old(self),
                    AccessGuard { paused: false, ..old(self).access() },
                    Event::Unpaused { account: caller },
                ),
                Err(e) => old(self).access().unpause_error(caller) == Some(e) && *final(self)
                    == *old(self),
            },
    {
        let ev = self.guard.unpause(caller)?;
        self.events.push(ev);
        Ok(())
    }

    pub fn transfer_ownership(&mut self, caller: Address, new_owner: Address) -> (r: Result<(), LedgerError>)
        requires
            old(self).wf(),
        ensures
            final(self).wf(),
            match r {
                Ok(()) => old(self).access().transfer_ownership_error(caller, new_owner).is_none()
                    && final(self).guard_step(
                    old(self),
                    AccessGuard { owner: new_owner, ..old(self).access() },
                    Event::OwnershipTransferred { previous_owner: old(self).access().owner, new_owner },
                ),
                Err(e) => old(self).access().transfer_ownership_error(caller, new_owner) == Some(e)
                    && *final(self) == *old(self),
            },
    {
        let ev = self.guard.transfer_ownership(caller, new_owner)?;
        self.events.push(ev);
        Ok(())
    }

    /// Gives up ownership for good: the owner becomes the zero address.
    pub fn renounce_ownership(&mut self, caller: Address) -> (r: Result<(), LedgerError>)
        requires
            old(self).wf(),
        ensures
            final(self).wf(),
            match r {
                Ok(()) => old(self).access().is_owner(caller) && final(self).guard_step(
                    old(self),
                    AccessGuard { owner: zero_address(), ..old(self).access() },
                    Event::OwnershipTransferred {
                        previous_owner: old(self).access().owner,
                        new_owner: zero_address(),
                    },
                ),
                Err(e) => !old(self).access().is_owner(caller) && e == (LedgerError::Unauthorized {
                    account: caller,
                }) && *final(self) == *old(self),
            },
    {
        let ev = self.guard.renounce_ownership(caller)?;
        self.events.push(ev);
        Ok(())
    }
}

/// Conservation: in a well-formed ledger, which every operation keeps well
/// formed, the total supply is the sum of all balances.
pub proof fn law_conservation(l: &ERC20Token)
    requires
        l.wf(),
    ensures
        l.supply() == l.sum_of_balances(),
{
}

/// Non-negativity: a transfer or burn of more than the balance, and a spend of
/// more than a limited allowance, is refused rather than wrapped.
pub proof fn law_no_underflow(l: &ERC20Token, owner: Address, other: Address, value: U256)
    requires
        owner != zero_address(),
        other != zero_address(),
    ensures
        l.balance(owner) < value@ ==> l.transfer_error(owner, other, value) == Some(
            LedgerError::InsufficientBalance {
                from: owner,
                available: l.balance_word(owner),
                required: value,
            },
        ),
        l.balance(owner) < value@ ==> l.burn_error(owner, value) == Some(
            LedgerError::InsufficientBalance {
                from: owner,
                available: l.balance_word(owner),
                required: value,
            },
        ),
        l.allowance_of(owner, other) < value@ ==> l.spend_error(owner, other, value) == Some(
            LedgerError::InsufficientAllowance {
                spender: other,
                available: l.allowance_word(owner, other),
                required: value,
            },
        ),
{
    lemma_u256_bounds(value);
}

/// Unlimited allowance: spending against the maximal allowance never fails on
/// the allowance and leaves it maximal, however many spends follow.
pub proof fn law_unlimited_allowance(before: &ERC20Token, after: &ERC20Token, owner: Address, spender: Address, value: U256)
    requires
        before.allowance_of(owner, spender) == u256_max(),
        after.spent(before, owner, spender, value),
    ensures
        before.spend_error(owner, spender, value).is_none(),
        after.allowance_of(owner, spender) == u256_max(),
{
    assert(after.allowance_of(owner, spender) == before.allowance_of(owner, spender));
}

/// Pause gating on the fungible ledger: while paused, transfers and burns fail
/// with `EnforcedPause`.
pub proof fn law_fungible_pause_gating(l: &ERC20Token, caller: Address, from: Address, to: Address, value: U256)
    requires
        l.access().paused,
    ensures
        l.transfer_call_error(caller, to, value) == Some(LedgerError::EnforcedPause),
        l.transfer_from_error(caller, from, to, value) == Some(LedgerError::EnforcedPause),
        l.burn_from_error(caller, from, value) == Some(LedgerError::EnforcedPause),
{
}

} // verus!
