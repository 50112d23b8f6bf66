//! Unsigned 256-bit integers held as four little-endian 64-bit limbs.
use vstd::prelude::*;

verus! {

/// 2^64
pub const LIMB: u128 = 0x1_0000_0000_0000_0000;

#[verifier::inline]
pub open spec fn limb_base() -> int {
    0x1_0000_0000_0000_0000
}

/// 2^128
#[verifier::inline]
pub open spec fn base2() -> int {
    limb_base() * limb_base()
}

/// 2^256
#[verifier::inline]
pub open spec fn u256_bound() -> int {
    base2() * base2()
}

/// The largest value a `U256` holds, 2^256 - 1.
pub open spec fn u256_max() -> nat {
    (u256_bound() - 1) as nat
}

/// An unsigned 256-bit integer: `l0` is the least significant limb.
#[derive(Clone, Copy, Debug, PartialEq, Eq, Structural, Hash)]
pub struct U256 {
    pub l0: u64,
    pub l1: u64,
    pub l2: u64,
    pub l3: u64,
}

impl View for U256 {
    type V = nat;

    open spec fn view(&self) -> nat {
        (self.l0 + limb_base() * (self.l1 + limb_base() * (self.l2 + limb_base() * self.l3))) as nat
    }
}

/// The value's limbs are each below 2^64, so the value is below 2^256.
pub proof fn lemma_u256_bounds(x: U256)
    ensures
        x@ <= u256_max(),
{
}

/// Two values are equal exactly when their limbs are.
pub proof fn lemma_u256_view_injective(a: U256, b: U256)
    ensures
        (a@ == b@) == (a == b),
{
    if a@ == b@ {
        assert(a.l3 == b.l3);
        assert(a.l2 == b.l2);
        assert(a.l1 == b.l1);
        assert(a.l0 == b.l0);
    }
}

impl U256 {
    pub fn zero() -> (r: U256)
        ensures
            r@ == 0,
    {
        U256 { l0: 0, l1: 0, l2: 0, l3: 0 }
    }

    pub fn max_value() -> (r: U256)
        ensures
            r@ == u256_max(),
    {
        U256 { l0: u64::MAX, l1: u64::MAX, l2: u64::MAX, l3: u64::MAX }
    }

    pub fn from_u64(v: u64) -> (r: U256)
        ensures
            r@ == v as nat,
    {
        U256 { l0: v, l1: 0, l2: 0, l3: 0 }
    }

    pub fn is_zero(&self) -> (r: bool)
        ensures
            r == (self@ == 0),
    {
        self.l0 == 0 && self.l1 == 0 && self.l2 == 0 && self.l3 == 0
    }

    pub fn is_max(&self) -> (r: bool)
        ensures
            r == (self@ == u256_max()),
    {
        proof {
            lemma_u256_view_injective(*self, U256 { l0: u64::MAX, l1: u64::MAX, l2: u64::MAX, l3: u64::MAX });
        }
        self.l0 == u64::MAX && self.l1 == u64::MAX && self.l2 == u64::MAX && self.l3 == u64::MAX
    }

    pub fn eq_value(&self, other: &U256) -> (r: bool)
        ensures
            r == (self@ == other@),
    {
        proof {
            lemma_u256_view_injective(*self, *other);
        }
        *self == *other
    }

    pub fn lt(&self, other: &U256) -> (r: bool)
        ensures
            r == (self@ < other@),
    {
        if self.l3 != other.l3 {
            self.l3 < other.l3
        } else if self.l2 != other.l2 {
            self.l2 < other.l2
        } else if self.l1 != other.l1 {
            self.l1 < other.l1
        } else {
            self.l0 < other.l0
        }
    }

    pub fn checked_add(&self, other: &U256) -> (r: Option<U256>)
        ensures
            r.is_some() == (self@ + other@ <= u256_max()),
            r.is_some() ==> r.unwrap()@ == self@ + other@,
    {
        let t0: u128 = self.l0 as u128 + other.l0 as u128;
        let (s0, c0): (u64, u128) = if t0 >= LIMB { ((t0 - LIMB) as u64, 1) } else { (t0 as u64, 0) };
        let t1: u128 = self.l1 as u128 + other.l1 as u128 + c0;
        let (s1, c1): (u64, u128) = if t1 >= LIMB { ((t1 - LIMB) as u64, 1) } else { (t1 as u64, 0) };
        let t2: u128 = self.l2 as u128 + other.l2 as u128 + c1;
        let (s2, c2): (u64, u128) = if t2 >= LIMB { ((t2 - LIMB) as u64, 1) } else { (t2 as u64, 0) };
        let t3: u128 = self.l3 as u128 + other.l3 as u128 + c2;
        if t3 >= LIMB {
            None
        } else {
            Some(U256 { l0: s0, l1: s1, l2: s2, l3: t3 as u64 })
        }
    }

    /// `self + other`, defined when the sum fits.
    pub fn add(&self, other: &U256) -> (r: U256)
        requires
            self@ + other@ <= u256_max(),
        ensures
            r@ == self@ + other@,
    {
        match self.checked_add(other) {
            Some(s) => s,
            None => U256::zero(),
        }
    }

    /// `self - other`, defined when `other` is not larger.
    pub fn sub(&self, other: &U256) -> (r: U256)
        requires
            other@ <= self@,
        ensures
            r@ == self@ - other@,
    {
        let (s0, b0): (u64, u64) = if self.l0 >= other.l0 { (self.l0 - other.l0, 0) } else {
            ((self.l0 as u128 + LIMB - other.l0 as u128) as u64, 1)
        };
        let x1: u128 = other.l1 as u128 + b0 as u128;
        let (s1, b1): (u64, u64) = if self.l1 as u128 >= x1 { ((self.l1 as u128 - x1) as u64, 0) } else {
            ((self.l1 as u128 + LIMB - x1) as u64, 1)
        };
        let x2: u128 = other.l2 as u128 + b1 as u128;
        let (s2, b2): (u64, u64) = if self.l2 as u128 >= x2 { ((self.l2 as u128 - x2) as u64, 0) } else {
            ((self.l2 as u128 + LIMB - x2) as u64, 1)
        };
        let x3: u128 = other.l3 as u128 + b2 as u128;
        proof {
            lemma_u256_bounds(*self);
            lemma_u256_bounds(*other);
        }
        U256 { l0: s0, l1: s1, l2: s2, l3: (self.l3 as u128 - x3) as u64 }
    }

    pub fn checked_sub(&self, other: &U256) -> (r: Option<U256>)
        ensures
            r.is_some() == (other@ <= self@),
            r.is_some() ==> r.unwrap()@ == self@ - other@,
    {
        if self.lt(other) {
            None
        } else {
            Some(self.sub(other))
        }
    }
}

} // verus!
