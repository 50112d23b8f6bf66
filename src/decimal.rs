//! Decimal rendering of 256-bit values.
use vstd::prelude::*;
use crate::num::U256;

verus! {

/// The character of a decimal digit.
pub open spec fn digit_char(d: nat) -> char {
    if d == 0 {
        '0'
    } else if d == 1 {
        '1'
    } else if d == 2 {
        '2'
    } else if d == 3 {
        '3'
    } else if d == 4 {
        '4'
    } else if d == 5 {
        '5'
    } else if d == 6 {
        '6'
    } else if d == 7 {
        '7'
    } else if d == 8 {
        '8'
    } else {
        '9'
    }
}

/// `n` in decimal, most significant digit first, without leading zeros.
pub open spec fn decimal(n: nat) -> Seq<char>
    decreases n,
{
    if n < 10 {
        seq![digit_char(n)]
    } else {
        decimal(n / 10).push(digit_char(n % 10))
    }
}

/// Relies on the `Display` impl of alloy_primitives::U256 (a ruint `Uint`),
/// which writes the value in decimal without leading zeros.
#[verifier::external_body]
pub(crate) fn decimal_string(v: &U256) -> (r: String)
    ensures
        r@ == decimal(v@),
{
    alloy_primitives::U256::from_limbs([v.l0, v.l1, v.l2, v.l3]).to_string()
}

} // verus!
