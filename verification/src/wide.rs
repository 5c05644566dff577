//! Exact `a * b / c` on 128-bit amounts through a 256-bit intermediate.
//!
//! The 256-bit arithmetic itself is done by `sp_core::U256`; the
//! functions that call it are the only unverified code in this module. A
//! [`Wide`] carries such a value through verified code as four plain limbs.

use sp_core::U256;
use vstd::prelude::*;

verus! {

/// An unsigned 256-bit integer, held as four 64-bit limbs, least significant
/// first.
#[derive(Clone, Copy)]
struct Wide {
    w0: u64,
    w1: u64,
    w2: u64,
    w3: u64,
}

/// The largest value a [`Wide`] can hold, `2^256 - 1`.
spec fn wide_max() -> nat {
    0xffff_ffff_ffff_ffff_ffff_ffff_ffff_ffff_ffff_ffff_ffff_ffff_ffff_ffff_ffff_ffffint as nat
}

impl View for Wide {
    type V = nat;

    /// The number that the four limbs stand for.
    closed spec fn view(&self) -> nat {
        ((self.w0 as int) + (self.w1 as int) * 0x1_0000_0000_0000_0000int + (self.w2 as int)
            * 0x1_0000_0000_0000_0000_0000_0000_0000_0000int + (self.w3 as int)
            * 0x1_0000_0000_0000_0000_0000_0000_0000_0000_0000_0000_0000_0000int) as nat
    }
}

/// What [`mul_div`] computes: `a * b / c` rounded down, and `0` when `c` is `0`.
pub open spec fn mul_div_spec(a: nat, b: nat, c: nat) -> nat {
    if c == 0 {
        0
    } else {
        a * b / c
    }
}

/// `U256::from(u128)` of sp-core. Trusted: the result stands for the
/// same number as the argument.
#[verifier::external_body]
fn u256_from_u128(x: u128) -> (r: Wide)
    ensures
        r@ == x,
{
    let U256(w) = U256::from(x);
    Wide { w0: w[0], w1: w[1], w2: w[2], w3: w[3] }
}

/// `U256::saturating_mul` of sp-core. Trusted: the result is the
/// product, or `2^256 - 1` where the product is larger than that.
#[verifier::external_body]
fn u256_saturating_mul(a: Wide, b: Wide) -> (r: Wide)
    ensures
        r@ == if a@ * b@ <= wide_max() {
            a@ * b@
        } else {
            wide_max()
        },
{
    let x = U256([a.w0, a.w1, a.w2, a.w3]);
    let y = U256([b.w0, b.w1, b.w2, b.w3]);
    let U256(w) = x.saturating_mul(y);
    Wide { w0: w[0], w1: w[1], w2: w[2], w3: w[3] }
}

/// `U256::checked_div` of sp-core. Trusted: `None` exactly when the
/// divisor is zero, otherwise the quotient rounded down.
#[verifier::external_body]
fn u256_checked_div(a: Wide, b: Wide) -> (r: Option<Wide>)
    ensures
        b@ == 0 ==> r is None,
        b@ != 0 ==> r is Some && r->0@ == a@ / b@,
{
    let x = U256([a.w0, a.w1, a.w2, a.w3]);
    let y = U256([b.w0, b.w1, b.w2, b.w3]);
    match x.checked_div(y) {
        Some(U256(w)) => Some(Wide { w0: w[0], w1: w[1], w2: w[2], w3: w[3] }),
        None => None,
    }
}

/// `u128::try_from(U256)` of sp-core. Trusted: the same number where
/// it fits in 128 bits, `None` where it does not.
#[verifier::external_body]
fn u256_try_into_u128(a: Wide) -> (r: Option<u128>)
    ensures
        a@ <= u128::MAX ==> r == Some(a@ as u128),
        a@ > u128::MAX ==> r is None,
{
    match u128::try_from(U256([a.w0, a.w1, a.w2, a.w3])) {
        Ok(v) => Some(v),
        Err(_) => None,
    }
}

/// The product of two 128-bit numbers always fits in 256 bits.
proof fn lemma_product_fits(a: u128, b: u128)
    ensures
        (a as nat) * (b as nat) <= wide_max(),
{
    assert((a as nat) * (b as nat) <= (u128::MAX as nat) * (u128::MAX as nat))
        by (nonlinear_arith)
        requires
            a <= u128::MAX,
            b <= u128::MAX,
    ;
}

/// `a * b / c` without intermediate overflow. A zero divisor gives `Some(0)`;
/// a quotient that does not fit in 128 bits gives `None`.
pub fn mul_div(a: u128, b: u128, c: u128) -> (r: Option<u128>)
    ensures
        mul_div_spec(a as nat, b as nat, c as nat) <= u128::MAX ==> r == Some(
            mul_div_spec(a as nat, b as nat, c as nat) as u128,
        ),
        mul_div_spec(a as nat, b as nat, c as nat) > u128::MAX ==> r is None,
{
    proof {
        lemma_product_fits(a, b);
    }
    let product = u256_saturating_mul(u256_from_u128(a), u256_from_u128(b));
    match u256_checked_div(product, u256_from_u128(c)) {
        Some(q) => u256_try_into_u128(q),
        None => Some(0),
    }
}

} // verus!
