//! Fixed-point decimals: an integer count of atomic units, eighteen decimal
//! fractional digits per whole unit.  Reward computation multiplies a point
//! amount by such a decimal and truncates toward zero, so rounding never
//! favors the recipient.

use vstd::prelude::*;
use vstd::arithmetic::div_mod::{
    lemma_div_is_ordered, lemma_fundamental_div_mod, lemma_hoist_over_denominator,
    lemma_remainder_lower, lemma_remainder_upper,
};
use vstd::arithmetic::mul::{
    lemma_mul_inequality, lemma_mul_is_commutative, lemma_mul_is_distributive_add,
    lemma_mul_nonnegative,
};

verus! {

/// Atomic units per whole unit.
pub const FIXED_SCALE: u128 = 1_000_000_000_000_000_000;

/// A non-negative fixed-point decimal: the represented value is
/// `atomics / FIXED_SCALE`.
#[derive(Clone, Copy, PartialEq, Eq, Structural, Debug)]
pub struct FixedDec {
    pub atomics: u128,
}

/// `floor(amount * (atomics / FIXED_SCALE))`, the mathematical result of
/// scaling `amount` by a fixed-point factor with truncation toward zero.
pub open spec fn mul_floor_spec(amount: int, atomics: int) -> int {
    amount * atomics / (FIXED_SCALE as int)
}

impl FixedDec {
    pub fn zero() -> (r: Self)
        ensures
            r.atomics == 0,
    {
        FixedDec { atomics: 0 }
    }

    pub fn one() -> (r: Self)
        ensures
            r.atomics == FIXED_SCALE,
    {
        FixedDec { atomics: FIXED_SCALE }
    }

    pub fn from_atomics(atomics: u128) -> (r: Self)
        ensures
            r.atomics == atomics,
    {
        FixedDec { atomics }
    }

    pub fn is_zero(&self) -> (r: bool)
        ensures
            r == (self.atomics == 0),
    {
        self.atomics == 0
    }
}

/// `amount * m == (amount * (m / d) + (amount / d) * (m % d)) * d
///               + (amount % d) * (m % d)`
/// — the decomposition behind the overflow-free evaluation of
/// `floor(amount * m / d)` below.
proof fn lemma_scale_decompose(a: int, m: int, d: int)
    requires
        0 < d,
        0 <= a,
        0 <= m,
    ensures
        a * m == (a * (m / d) + (a / d) * (m % d)) * d + (a % d) * (m % d),
{
    let qm = m / d;
    let sm = m % d;
    let q = a / d;
    let s = a % d;
    lemma_fundamental_div_mod(m, d);
    lemma_fundamental_div_mod(a, d);
    assert(a * m == a * (d * qm + sm)) by {
        assert(m == d * qm + sm);
    }
    assert(a * (d * qm + sm) == a * (d * qm) + a * sm) by {
        lemma_mul_is_distributive_add(a, d * qm, sm);
    }
    assert(a * (d * qm) == (a * qm) * d) by (nonlinear_arith);
    assert(a * sm == (d * q + s) * sm) by {
        assert(a == d * q + s);
    }
    assert((d * q + s) * sm == (q * sm) * d + s * sm) by (nonlinear_arith);
    assert((a * qm + q * sm) * d == (a * qm) * d + (q * sm) * d) by {
        lemma_mul_is_distributive_add(d, a * qm, q * sm);
        lemma_mul_is_commutative(d, a * qm + q * sm);
        lemma_mul_is_commutative(d, a * qm);
        lemma_mul_is_commutative(d, q * sm);
    }
}

/// Computes `floor(amount * d)` exactly, `None` when the result does not fit
/// in `u128` (the only case in which the mathematical result is unreachable).
pub fn mul_floor(amount: u128, d: FixedDec) -> (r: Option<u128>)
    ensures
        match r {
            Some(v) => v as int == mul_floor_spec(amount as int, d.atomics as int),
            None => mul_floor_spec(amount as int, d.atomics as int) > u128::MAX as int,
        },
{
    let sc = FIXED_SCALE;
    let a = amount;
    let m = d.atomics;
    let qm = m / sc;
    let sm = m % sc;
    let q = a / sc;
    let s = a % sc;
    proof {
        lemma_scale_decompose(a as int, m as int, sc as int);
        lemma_fundamental_div_mod(a as int, sc as int);
        lemma_fundamental_div_mod(m as int, sc as int);
        lemma_remainder_upper(a as int, sc as int);
        lemma_remainder_lower(a as int, sc as int);
        lemma_remainder_upper(m as int, sc as int);
        lemma_remainder_lower(m as int, sc as int);
        // q * sm fits: q * sm <= q * (sc - 1) == q * sc - q <= a.
        lemma_mul_inequality(sm as int, sc - 1, q as int);
        lemma_mul_is_commutative(q as int, sm as int);
        lemma_mul_is_commutative(q as int, sc - 1);
        assert(q as int * (sc - 1) == q as int * sc as int - q as int) by (nonlinear_arith);
        assert(sc as int * (a as int / sc as int) <= a as int) by {
            assert(a as int - (sc as int * (a as int / sc as int)) == a as int % sc as int);
        }
        lemma_mul_is_commutative(sc as int, q as int);
        // s * sm fits in u128 since both are below FIXED_SCALE.
        assert((s as int) * (sm as int) <= u128::MAX as int) by (nonlinear_arith)
            requires
                0 <= (s as int) && (s as int) < (FIXED_SCALE as int),
                0 <= (sm as int) && (sm as int) < (FIXED_SCALE as int),
        ;
    }
    let t2 = q * sm;
    let t3 = (s * sm) / sc;
    let ghost total = mul_floor_spec(amount as int, d.atomics as int);
    let ghost k = a as int * qm as int + q as int * sm as int;
    proof {
        // total == k + (s * sm) / sc, and every summand is nonnegative.
        lemma_hoist_over_denominator((s as int) * (sm as int), k, sc as nat);
        assert((s as int) * (sm as int) + k * (sc as int) == a as int * m as int) by {
            lemma_mul_is_commutative(k, sc as int);
        }
        lemma_mul_nonnegative(a as int, qm as int);
        lemma_mul_nonnegative(q as int, sm as int);
        lemma_mul_nonnegative(s as int, sm as int);
        lemma_div_is_ordered(0, (s as int) * (sm as int), sc as int);
    }
    match a.checked_mul(qm) {
        Some(t1) => {
            proof {
                assert(t3 as int == ((s as int) * (sm as int)) / (sc as int));
            }
            match t1.checked_add(t2) {
                Some(t12) => {
                    match t12.checked_add(t3) {
                        Some(v) => Some(v),
                        None => {
                            proof {
                                assert(total > u128::MAX as int);
                            }
                            None
                        },
                    }
                },
                None => {
                    proof {
                        assert(total >= k);
                    }
                    None
                },
            }
        },
        None => {
            proof {
                // a * qm already exceeds u128::MAX, and total >= a * qm.
                assert(total >= k);
                assert(k >= a as int * qm as int) by {
                    lemma_mul_nonnegative(q as int, sm as int);
                }
            }
            None
        },
    }
}

} // verus!
