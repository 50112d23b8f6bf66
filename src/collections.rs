//! Two deployed token products built on the ledgers: an open fungible token
//! and a badge collection.
use vstd::prelude::*;
use crate::address::{Address, zero_address};
use crate::fungible::ERC20Token;
use crate::guard::{Event, LedgerError};
use crate::nft::ERC721Token;
use crate::num::U256;

verus! {

/// The metadata URI that every badge shares.
pub const SINGLE_METADATA_URI: &'static str = "ipfs://bafkreia3ktnze2mjrwrt3qrdzgws7olmoc2norvoxssktv2wda2upuavta";

/// A fungible token anyone may mint or burn for themselves.
pub struct RobinhoodToken {
    erc20: ERC20Token,
}

impl RobinhoodToken {
    pub closed spec fn ledger(&self) -> ERC20Token {
        self.erc20
    }

    pub closed spec fn wf(&self) -> bool {
        self.erc20.wf()
    }

    pub fn new() -> (r: RobinhoodToken)
        ensures
            r.wf(),
            r.ledger().supply() == 0,
            forall|a: Address| r.ledger().balance(a) == 0,
    {
        RobinhoodToken { erc20: ERC20Token::new() }
    }

    /// The underlying ledger, for its queries.
    pub fn erc20(&self) -> (r: &ERC20Token)
        ensures
            *r == self.ledger(),
            self.wf() ==> r.wf(),
    {
        &self.erc20
    }

    /// Mints `value` to `to`.
    pub fn mint_to(&mut self, to: Address, value: U256) -> (r: Result<(), LedgerError>)
        requires
            old(self).wf(),
        ensures
            final(self).wf(),
            match r {
                Ok(()) => {
                    &&& old(self).ledger().mint_error(to, value).is_none()
                    &&& final(self).ledger().same_but_balances(&old(self).ledger())
                    &&& final(self).ledger().supply() == old(self).ledger().supply() + value@
                    &&& forall|a: Address| #[trigger]
                        final(self).ledger().balance(a) == old(self).ledger().balance(a) + (if a == to {
                            value@
                        } else {
                            0
                        })
                    &&& final(self).ledger().event_log() == old(self).ledger().event_log().push(
                        Event::Transfer { from: zero_address(), to, value },
                    )
                },
                Err(e) => old(self).ledger().mint_error(to, value) == Some(e) && *final(self)
                    == *old(self),
            },
    {
        self.erc20.mint_internal(to, value)
    }

    /// Mints `value` to the caller.
    pub fn mint(&mut self, caller: Address, value: U256) -> (r: Result<(), LedgerError>)
        requires
            old(self).wf(),
        ensures
            final(self).wf(),
            match r {
                Ok(()) => {
                    &&& old(self).ledger().mint_error(caller, value).is_none()
                    &&& final(self).ledger().same_but_balances(&old(self).ledger())
                    &&& final(self).ledger().supply() == old(self).ledger().supply() + value@
                    &&& forall|a: Address| #[trigger]
                        final(self).ledger().balance(a) == old(self).ledger().balance(a) + (if a == caller {
                            value@
                        } else {
                            0
                        })
                    &&& final(self).ledger().event_log() == old(self).ledger().event_log().push(
                        Event::Transfer { from: zero_address(), to: caller, value },
                    )
                },
                Err(e) => old(self).ledger().mint_error(caller, value) == Some(e) && *final(self)
                    == *old(self),
            },
    {
        self.mint_to(caller, value)
    }

    /// Burns `value` of the caller's tokens.
    pub fn burn(&mut self, caller: Address, value: U256) -> (r: Result<(), LedgerError>)
        requires
            old(self).wf(),
        ensures
            final(self).wf(),
            match r {
                Ok(()) => {
                    &&& old(self).ledger().burn_error(caller, value).is_none()
                    &&& final(self).ledger().same_but_balances(&old(self).ledger())
                    &&& final(self).ledger().supply() == old(self).ledger().supply() - value@
                    &&& forall|a: Address| #[trigger]
                        final(self).ledger().balance(a) == old(self).ledger().balance(a) - (if a == caller {
                            value@
                        } else {
                            0
                        })
                    &&& final(self).ledger().event_log() == old(self).ledger().event_log().push(
                        Event::Transfer { from: caller, to: zero_address(), value },
                    )
                },
                Err(e) => old(self).ledger().burn_error(caller, value) == Some(e) && *final(self)
                    == *old(self),
            },
    {
        self.erc20.burn_internal(caller, value)
    }
}

/// Why a badge collection call was refused, beyond the ledger's own errors.
#[derive(Clone, Copy, Debug, PartialEq, Eq, Structural)]
pub enum SuperPositionNFTError {
    /// The art contract was already recorded.
    AlreadyInitialized,
    /// A call into another contract failed.
    ExternalCallFailed,
}

/// A badge collection: anyone may mint, and every badge shares one metadata URI.
pub struct SuperPositionNFT {
    art_contract_address: Address,
    erc721: ERC721Token,
}

impl SuperPositionNFT {
    pub closed spec fn ledger(&self) -> ERC721Token {
        self.erc721
    }

    pub closed spec fn art_contract(&self) -> Address {
        self.art_contract_address
    }

    pub closed spec fn wf(&self) -> bool {
        self.erc721.wf() && self.erc721.access().initialized
    }

    /// An empty collection with no owner; badge ids start at 1.
    pub fn new() -> (r: SuperPositionNFT)
        ensures
            r.wf(),
            r.art_contract() == zero_address(),
            forall|t: U256| !r.ledger().exists_token(t),
            r.ledger().next_id() == 1,
            r.ledger().access().owner == zero_address(),
    {
        let mut erc721 = ERC721Token::new();
        let _ = erc721.initialize(
            String::from_str("Cradle Genesis Builder"),
            String::from_str("CGB"),
            String::new(),
            U256::zero(),
            Address::zero(),
        );
        SuperPositionNFT { art_contract_address: Address::zero(), erc721 }
    }

    /// The underlying ledger, for its queries.
    pub fn erc721(&self) -> (r: &ERC721Token)
        ensures
            *r == self.ledger(),
            self.wf() ==> r.wf(),
    {
        &self.erc721
    }

    /// Records the art contract; once only.
    pub fn initialize(&mut self, art_contract: Address) -> (r: Result<(), SuperPositionNFTError>)
        ensures
            final(self).ledger() == old(self).ledger(),
            match r {
                Ok(()) => old(self).art_contract() == zero_address() && final(self).art_contract()
                    == art_contract,
                Err(e) => old(self).art_contract() != zero_address() && e
                    == SuperPositionNFTError::AlreadyInitialized && *final(self) == *old(self),
            },
    {
        if !self.art_contract_address.is_zero() {
            return Err(SuperPositionNFTError::AlreadyInitialized);
        }
        self.art_contract_address = art_contract;
        Ok(())
    }

    /// The metadata URI of an existing badge.
    pub fn token_uri(&self, token_id: U256) -> (r: Result<String, LedgerError>)
        requires
            self.wf(),
        ensures
            match r {
                Ok(uri) => self.ledger().exists_token(token_id) && uri@ == SINGLE_METADATA_URI@,
                Err(e) => !self.ledger().exists_token(token_id) && e == (LedgerError::NonexistentToken {
                    token_id,
                }),
            },
    {
        self.erc721.owner_of(token_id)?;
        Ok(String::from_str(SINGLE_METADATA_URI))
    }

    /// Mints the next badge to `to`.
    pub fn mint_to(&mut self, to: Address) -> (r: Result<(), LedgerError>)
        requires
            old(self).wf(),
        ensures
            final(self).wf(),
            final(self).art_contract() == old(self).art_contract(),
            match r {
                Ok(()) => {
                    &&& old(self).ledger().mint_next_error(to).is_none()
                    &&& final(self).ledger().minted_run(&old(self).ledger(), to, 1)
                },
                Err(e) => old(self).ledger().mint_next_error(to) == Some(e) && *final(self)
                    == *old(self),
            },
    {
        self.erc721.mint_next(to)?;
        Ok(())
    }

    /// Mints the next badge to the caller.
    pub fn mint(&mut self, caller: Address) -> (r: Result<(), LedgerError>)
        requires
            old(self).wf(),
        ensures
            final(self).wf(),
            final(self).art_contract() == old(self).art_contract(),
            match r {
                Ok(()) => {
                    &&& old(self).ledger().mint_next_error(caller).is_none()
                    &&& final(self).ledger().minted_run(&old(self).ledger(), caller, 1)
                },
                Err(e) => old(self).ledger().mint_next_error(caller) == Some(e) && *final(self)
                    == *old(self),
            },
    {
        self.mint_to(caller)
    }

    /// As `mint_to`; the receiver is not called back.
    pub fn safe_mint(&mut self, to: Address) -> (r: Result<(), LedgerError>)
        requires
            old(self).wf(),
        ensures
            final(self).wf(),
            final(self).art_contract() == old(self).art_contract(),
            match r {
                Ok(()) => {
                    &&& old(self).ledger().mint_next_error(to).is_none()
                    &&& final(self).ledger().minted_run(&old(self).ledger(), to, 1)
                },
                Err(e) => old(self).ledger().mint_next_error(to) == Some(e) && *final(self)
                    == *old(self),
            },
    {
        self.mint_to(to)
    }

    /// Burns a badge; by its owner, an operator of the owner, or the holder of its approval.
    pub fn burn(&mut self, caller: Address, token_id: U256) -> (r: Result<(), LedgerError>)
        requires
            old(self).wf(),
        ensures
            final(self).wf(),
            final(self).art_contract() == old(self).art_contract(),
            match r {
                Ok(()) => {
                    &&& old(self).ledger().burn_error(caller, token_id).is_none()
                    &&& final(self).ledger().owner_set(&old(self).ledger(), token_id, zero_address())
                    &&& final(self).ledger().balances_adjusted(
                        &old(self).ledger(),
                        old(self).ledger().owner_spec(token_id),
                        zero_address(),
                    )
                    &&& final(self).ledger().positions_moved(
                        &old(self).ledger(),
                        token_id,
                        old(self).ledger().owner_spec(token_id),
                        zero_address(),
                    )
                    &&& final(self).ledger().supply() == old(self).ledger().supply() - 1
                    &&& final(self).ledger().approval_cleared(&old(self).ledger(), token_id)
                    &&& final(self).ledger().same_settings(&old(self).ledger())
                    &&& final(self).ledger().event_log() == old(self).ledger().event_log().push(
                        Event::TokenTransfer {
                            from: old(self).ledger().owner_spec(token_id),
                            to: zero_address(),
                            token_id,
                        },
                    )
                },
                Err(e) => old(self).ledger().burn_error(caller, token_id) == Some(e) && *final(self)
                    == *old(self),
            },
    {
        self.erc721.burn(caller, token_id)
    }
}

} // verus!
