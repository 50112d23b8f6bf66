//! Errors, event records, and the owner / pause guard shared by both ledgers.
use vstd::prelude::*;
use crate::address::{Address, zero_address};
use crate::num::U256;

verus! {

/// Why an operation was refused. A refused operation changes nothing.
#[derive(Clone, Copy, Debug, PartialEq, Eq, Structural)]
pub enum LedgerError {
    Unauthorized { account: Address },
    EnforcedPause,
    ExpectedPause,
    AlreadyInitialized,
    InvalidSender { sender: Address },
    InvalidReceiver { receiver: Address },
    InvalidApprover { approver: Address },
    InvalidOperator { operator: Address },
    InvalidOwner { owner: Address },
    NonexistentToken { token_id: U256 },
    IncorrectOwner { sender: Address, token_id: U256, owner: Address },
    InsufficientApproval { operator: Address, token_id: U256 },
    InsufficientBalance { from: Address, available: U256, required: U256 },
    InsufficientAllowance { spender: Address, available: U256, required: U256 },
    MaxSupplyReached { max_supply: U256 },
    /// Approving the token's own owner.
    ApprovalToCurrentOwner,
    /// Making an account an operator of itself.
    ApproveToCaller,
    IndexOutOfBounds,
    /// A batch larger than this machine can count.
    BatchTooLarge { count: U256 },
    /// A checked addition would pass 2^256 - 1.
    Overflow,
}

/// A record of a completed operation, for the host to publish.
#[derive(Clone, Copy, Debug, PartialEq, Eq, Structural)]
pub enum Event {
    /// Fungible amounts moved; `from` or `to` is zero for a mint or a burn.
    Transfer { from: Address, to: Address, value: U256 },
    Approval { owner: Address, spender: Address, value: U256 },
    /// A token changed hands; `from` or `to` is zero for a mint or a burn.
    TokenTransfer { from: Address, to: Address, token_id: U256 },
    TokenApproval { owner: Address, spender: Address, token_id: U256 },
    ApprovalForAll { owner: Address, operator: Address, approved: bool },
    OwnershipTransferred { previous_owner: Address, new_owner: Address },
    Paused { account: Address },
    Unpaused { account: Address },
    BaseUriUpdated,
}

/// Owner identity, pause flag and the one-shot initialization latch.
#[derive(Clone, Copy, Debug, PartialEq, Eq, Structural)]
pub struct AccessGuard {
    pub owner: Address,
    pub paused: bool,
    pub initialized: bool,
}

impl AccessGuard {
    /// `caller` is the owner. The zero address is nobody, so it never is,
    /// and once ownership is renounced no caller is.
    pub open spec fn is_owner(self, caller: Address) -> bool {
        caller == self.owner && caller != zero_address()
    }

    pub fn new() -> (r: AccessGuard)
        ensures
            r.owner == zero_address(),
            !r.paused,
            !r.initialized,
    {
        AccessGuard { owner: Address::zero(), paused: false, initialized: false }
    }

    pub fn require_owner(&self, caller: Address) -> (r: Result<(), LedgerError>)
        ensures
            r is Ok == self.is_owner(caller),
            r is Err ==> r == Err::<(), LedgerError>(LedgerError::Unauthorized { account: caller }),
    {
        if caller != self.owner || caller.is_zero() {
            return Err(LedgerError::Unauthorized { account: caller });
        }
        Ok(())
    }

    pub fn require_not_paused(&self) -> (r: Result<(), LedgerError>)
        ensures
            r is Ok == !self.paused,
            r is Err ==> r == Err::<(), LedgerError>(LedgerError::EnforcedPause),
    {
        if self.paused {
            return Err(LedgerError::EnforcedPause);
        }
        Ok(())
    }

    pub fn require_paused(&self) -> (r: Result<(), LedgerError>)
        ensures
            r is Ok == self.paused,
            r is Err ==> r == Err::<(), LedgerError>(LedgerError::ExpectedPause),
    {
        if !self.paused {
            return Err(LedgerError::ExpectedPause);
        }
        Ok(())
    }

    /// The error `pause` gives, if any.
    pub open spec fn pause_error(self, caller: Address) -> Option<LedgerError> {
        if !self.is_owner(caller) {
            Some(LedgerError::Unauthorized { account: caller })
        } else if self.paused {
            Some(LedgerError::EnforcedPause)
        } else {
            None
        }
    }

    /// The error `unpause` gives, if any.
    pub open spec fn unpause_error(self, caller: Address) -> Option<LedgerError> {
        if !self.is_owner(caller) {
            Some(LedgerError::Unauthorized { account: caller })
        } else if !self.paused {
            Some(LedgerError::ExpectedPause)
        } else {
            None
        }
    }

    /// The error `transfer_ownership` gives, if any.
    pub open spec fn transfer_ownership_error(self, caller: Address, new_owner: Address) -> Option<
        LedgerError,
    > {
        if !self.is_owner(caller) {
            Some(LedgerError::Unauthorized { account: caller })
        } else if new_owner == zero_address() {
            Some(LedgerError::InvalidReceiver { receiver: new_owner })
        } else {
            None
        }
    }

    pub fn pause(&mut self, caller: Address) -> (r: Result<Event, LedgerError>)
        ensures
            match r {
                Ok(ev) => old(self).pause_error(caller).is_none() && *final(self) == (AccessGuard {
                    paused: true,
                    ..*old(self)
                }) && ev == (Event::Paused { account: caller }),
                Err(e) => old(self).pause_error(caller) == Some(e) && *final(self) == *old(self),
            },
    {
        self.require_owner(caller)?;
        self.require_not_paused()?;
        self.paused = true;
        Ok(Event::Paused { account: caller })
    }

    pub fn unpause(&mut self, caller: Address) -> (r: Result<Event, LedgerError>)
        ensures
            match r {
                Ok(ev) => old(self).unpause_error(caller).is_none() && *final(self) == (AccessGuard {
                    paused: false,
                    ..*old(self)
                }) && ev == (Event::Unpaused { account: caller }),
                Err(e) => old(self).unpause_error(caller) == Some(e) && *final(self) == *old(self),
            },
    {
        self.require_owner(caller)?;
        self.require_paused()?;
        self.paused = false;
        Ok(Event::Unpaused { account: caller })
    }

    pub fn transfer_ownership(&mut self, caller: Address, new_owner: Address) -> (r: Result<
        Event,
        LedgerError,
    >)
        ensures
            match r {
                Ok(ev) => old(self).transfer_ownership_error(caller, new_owner).is_none()
                    && *final(self) == (AccessGuard { owner: new_owner, ..*old(self) }) && ev == (
                Event::OwnershipTransferred { previous_owner: old(self).owner, new_owner }),
                Err(e) => old(self).transfer_ownership_error(caller, new_owner) == Some(e)
                    && *final(self) == *old(self),
            },
    {
        self.require_owner(caller)?;
        if new_owner.is_zero() {
            return Err(LedgerError::InvalidReceiver { receiver: new_owner });
        }
        let previous_owner = self.owner;
        self.owner = new_owner;
        Ok(Event::OwnershipTransferred { previous_owner, new_owner })
    }

    pub fn renounce_ownership(&mut self, caller: Address) -> (r: Result<Event, LedgerError>)
        ensures
            match r {
                Ok(ev) => old(self).is_owner(caller) && *final(self) == (AccessGuard {
                    owner: zero_address(),
                    ..*old(self)
                }) && ev == (Event::OwnershipTransferred {
                    previous_owner: old(self).owner,
                    new_owner: zero_address(),
                }),
                Err(e) => !old(self).is_owner(caller) && e == (LedgerError::Unauthorized {
                    account: caller,
                }) && *final(self) == *old(self),
            },
    {
        self.require_owner(caller)?;
        let previous_owner = self.owner;
        self.owner = Address::zero();
        Ok(Event::OwnershipTransferred { previous_owner, new_owner: Address::zero() })
    }
}

} // verus!
