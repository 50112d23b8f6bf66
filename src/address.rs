//! Account identities.
use vstd::prelude::*;

verus! {

/// A 160-bit account identity: `hi` holds the top 32 bits, `lo` the rest.
/// The all-zero value means "no account".
#[derive(Clone, Copy, Debug, PartialEq, Eq, Structural, Hash)]
pub struct Address {
    pub hi: u32,
    pub lo: u128,
}

/// An (owner, delegate) pair, the key of allowances and operator approvals.
#[derive(Clone, Copy, Debug, PartialEq, Eq, Structural, Hash)]
pub struct AddressPair {
    pub owner: Address,
    pub delegate: Address,
}

pub open spec fn zero_address() -> Address {
    Address { hi: 0, lo: 0 }
}

impl Address {
    pub fn new(hi: u32, lo: u128) -> (r: Address)
        ensures
            r == (Address { hi, lo }),
    {
        Address { hi, lo }
    }

    pub fn zero() -> (r: Address)
        ensures
            r == zero_address(),
    {
        Address { hi: 0, lo: 0 }
    }

    pub fn is_zero(&self) -> (r: bool)
        ensures
            r == (*self == zero_address()),
    {
        self.hi == 0 && self.lo == 0
    }
}

} // verus!
