//! Parts-per-million fractions.
//!
//! [`Permill`] holds the number of parts as a plain integer. The two
//! operations that the engine needs, a fraction of an amount and the fraction
//! that one amount is of another, are computed by `sp_runtime::Permill`.

use vstd::prelude::*;

verus! {

/// The number of parts that make one whole.
pub const ACCURACY: u32 = 1_000_000;

/// A fraction between zero and one, in parts per million. A value with more
/// than [`ACCURACY`] parts stands for one whole.
#[derive(Clone, Copy, Debug, PartialEq, Eq, Structural)]
pub struct Permill {
    pub parts: u32,
}

/// `x * parts / 1_000_000`, rounded to the nearest whole number, a tie
/// rounded down.
pub open spec fn mul_round(parts: nat, x: nat) -> nat {
    let whole = (x * parts) / (ACCURACY as nat);
    if (x * parts) % (ACCURACY as nat) > (ACCURACY as nat) / 2 {
        whole + 1
    } else {
        whole
    }
}

/// The fraction `p / q` in parts per million, rounded down; one whole where
/// `q` is zero or `p` is larger than `q`.
pub open spec fn rational_parts(p: nat, q: nat) -> nat {
    if q == 0 || p > q {
        ACCURACY as nat
    } else {
        (ACCURACY as nat) * p / q
    }
}

/// `Permill * u128` of sp-runtime, on `Permill::from_parts(parts)`, which
/// caps `parts` at one million. Trusted: the product is rounded to the nearest
/// whole number, a tie towards zero.
#[verifier::external_body]
fn permill_mul(parts: u32, x: u128) -> (r: u128)
    ensures
        r == mul_round(
            if parts <= ACCURACY {
                parts as nat
            } else {
                ACCURACY as nat
            },
            x as nat,
        ),
{
    sp_runtime::Permill::from_parts(parts) * x
}

/// `Permill::from_rational` of sp-runtime on 128-bit arguments, and
/// `deconstruct` on its result. Trusted: the quotient in parts per million is
/// rounded down, and a zero denominator or a numerator above the denominator
/// gives one whole.
#[verifier::external_body]
fn permill_from_rational(p: u128, q: u128) -> (r: u32)
    ensures
        r == rational_parts(p as nat, q as nat),
{
    sp_runtime::Permill::from_rational(p, q).deconstruct()
}

/// A rounded fraction of an amount is never more than the amount.
pub proof fn lemma_mul_round_le(parts: nat, x: nat)
    requires
        parts <= ACCURACY,
    ensures
        mul_round(parts, x) <= x,
{
    let m = ACCURACY as nat;
    let n = x * parts;
    assert(n <= x * m) by (nonlinear_arith)
        requires
            n == x * parts,
            parts <= m,
    ;
    assert(n == m * (n / m) + n % m && 0 <= n % m < m) by (nonlinear_arith)
        requires
            m > 0,
    ;
    if n % m > m / 2 {
        assert(n / m + 1 <= x) by (nonlinear_arith)
            requires
                n == m * (n / m) + n % m,
                n % m > 0,
                n <= x * m,
                m > 0,
        ;
    } else {
        assert(n / m <= x) by (nonlinear_arith)
            requires
                n == m * (n / m) + n % m,
                n % m >= 0,
                n <= x * m,
                m > 0,
        ;
    }
}

impl Permill {
    /// The parts that this value stands for: its own, capped at one whole.
    pub open spec fn fraction(&self) -> nat {
        if self.parts <= ACCURACY {
            self.parts as nat
        } else {
            ACCURACY as nat
        }
    }

    /// A fraction of `parts` parts per million, capped at one whole.
    pub fn from_parts(parts: u32) -> (r: Permill)
        ensures
            r.parts == if parts <= ACCURACY {
                parts
            } else {
                ACCURACY
            },
    {
        if parts <= ACCURACY {
            Permill { parts }
        } else {
            Permill { parts: ACCURACY }
        }
    }

    /// `x` percent, capped at one hundred.
    pub fn from_percent(x: u32) -> (r: Permill)
        ensures
            r.parts == if x <= 100 {
                x * 10_000
            } else {
                ACCURACY as int
            },
    {
        if x <= 100 {
            Permill { parts: x * 10_000 }
        } else {
            Permill { parts: ACCURACY }
        }
    }

    /// No part at all.
    pub fn zero() -> (r: Permill)
        ensures
            r.parts == 0,
    {
        Permill { parts: 0 }
    }

    /// One whole.
    pub fn one() -> (r: Permill)
        ensures
            r.parts == ACCURACY,
    {
        Permill { parts: ACCURACY }
    }

    /// The number of parts per million, capped at one whole.
    pub fn deconstruct(&self) -> (r: u32)
        ensures
            r == self.fraction(),
    {
        if self.parts <= ACCURACY {
            self.parts
        } else {
            ACCURACY
        }
    }

    /// This fraction of `x`, rounded to the nearest whole number, a tie
    /// rounded down.
    pub fn times(&self, x: u128) -> (r: u128)
        ensures
            r == mul_round(self.fraction(), x as nat),
            r <= x,
    {
        proof {
            lemma_mul_round_le(self.fraction(), x as nat);
        }
        permill_mul(self.parts, x)
    }

    /// The fraction that `p` is of `q`, rounded down. A zero `q`, or a `p`
    /// above `q`, gives one whole.
    pub fn from_rational(p: u128, q: u128) -> (r: Permill)
        ensures
            r.parts == rational_parts(p as nat, q as nat),
            r.parts <= ACCURACY,
    {
        proof {
            if !(q == 0 || p > q) {
                let m = ACCURACY as nat;
                assert(m * (p as nat) / (q as nat) <= m) by (nonlinear_arith)
                    requires
                        p <= q,
                        q > 0,
                ;
            }
        }
        Permill { parts: permill_from_rational(p, q) }
    }
}

} // verus!
