//! Saturating fixed-point arithmetic for monetary amounts and growth factors.
//!
//! A monetary amount is a signed integer in the caller's minor unit, kept
//! within `[-AMOUNT_CAP, AMOUNT_CAP]`.  A growth factor is a non-negative
//! fixed-point multiplier scaled by `SCALE` (so `SCALE` itself means "times
//! one"), kept within `[0, FACTOR_CAP]`.  All operations saturate at the caps
//! instead of overflowing.

use vstd::prelude::*;

verus! {

use vstd::arithmetic::div_mod::lemma_div_is_ordered;
use vstd::arithmetic::div_mod::lemma_div_multiples_vanish;
use vstd::arithmetic::div_mod::lemma_div_pos_is_pos;
use vstd::arithmetic::div_mod::lemma_fundamental_div_mod;
use vstd::arithmetic::div_mod::lemma_fundamental_div_mod_converse_div;
use vstd::arithmetic::div_mod::lemma_fundamental_div_mod_converse_mod;
use vstd::arithmetic::div_mod::lemma_remainder_lower;
use vstd::arithmetic::div_mod::lemma_remainder_upper;
use vstd::arithmetic::mul::lemma_mul_by_zero_is_zero;
use vstd::arithmetic::mul::lemma_mul_inequality;
use vstd::arithmetic::mul::lemma_mul_left_inequality;
use vstd::arithmetic::mul::lemma_mul_is_commutative;
use vstd::arithmetic::mul::lemma_mul_nonnegative;
use vstd::arithmetic::mul::lemma_mul_upper_bound;

/// Fixed-point unit for growth factors: a factor of `SCALE` multiplies by one.
pub const SCALE: i64 = 1_000_000_000;

/// Largest representable growth factor (a multiplier of one billion).
pub const FACTOR_CAP: i64 = 1_000_000_000_000_000_000;

/// Largest representable monetary magnitude.
pub const AMOUNT_CAP: i64 = 1_000_000_000_000_000_000;

/// A monetary amount the library can hold.
pub open spec fn amount_ok(a: int) -> bool {
    -AMOUNT_CAP <= a <= AMOUNT_CAP
}

/// A growth factor the library can hold.
pub open spec fn factor_ok(f: int) -> bool {
    0 <= f <= FACTOR_CAP
}

/// Clamps a non-negative factor at `FACTOR_CAP`.
pub open spec fn clamp_factor(x: int) -> int {
    if x > FACTOR_CAP {
        FACTOR_CAP as int
    } else {
        x
    }
}

/// Clamps a non-negative magnitude at `AMOUNT_CAP`.
pub open spec fn clamp_amount(x: int) -> int {
    if x > AMOUNT_CAP {
        AMOUNT_CAP as int
    } else {
        x
    }
}

/// Saturating addition of two amounts.
pub open spec fn sat_add(a: int, b: int) -> int {
    if a + b > AMOUNT_CAP {
        AMOUNT_CAP as int
    } else if a + b < -AMOUNT_CAP {
        (-AMOUNT_CAP) as int
    } else {
        a + b
    }
}

/// Scales an amount by a fixed-point factor, rounding the magnitude toward
/// zero and saturating it at `AMOUNT_CAP`.  The sign of `a` is preserved.
pub open spec fn scale_amount(a: int, f: int) -> int
    recommends
        f >= 0,
{
    if a >= 0 {
        clamp_amount(a * f / (SCALE as int))
    } else {
        -clamp_amount((-a) * f / (SCALE as int))
    }
}

/// Saturating addition of two amounts, as executable code.
pub fn sat_add_amount(a: i64, b: i64) -> (r: i64)
    ensures
        r == sat_add(a as int, b as int),
{
    let s: i128 = a as i128 + b as i128;
    if s > AMOUNT_CAP as i128 {
        AMOUNT_CAP
    } else if s < -(AMOUNT_CAP as i128) {
        -AMOUNT_CAP
    } else {
        s as i64
    }
}

/// Scales an amount by a fixed-point factor, as executable code.
pub fn scale_amount_fp(a: i64, f: i64) -> (r: i64)
    requires
        amount_ok(a as int),
        factor_ok(f as int),
    ensures
        r == scale_amount(a as int, f as int),
        amount_ok(r as int),
{
    proof {
        lemma_scale_amount_bounds(a as int, f as int);
    }
    let neg = a < 0;
    let mag: u128 = if neg {
        (-(a as i128)) as u128
    } else {
        a as u128
    };
    proof {
        assert(mag * f <= AMOUNT_CAP * FACTOR_CAP) by {
            lemma_mul_upper_bound(mag as int, AMOUNT_CAP as int, f as int, FACTOR_CAP as int);
        }
        assert(mag * f >= 0) by {
            lemma_mul_nonnegative(mag as int, f as int);
        }
    }
    let p: u128 = mag * (f as u128) / (SCALE as u128);
    let c: u128 = if p > AMOUNT_CAP as u128 {
        AMOUNT_CAP as u128
    } else {
        p
    };
    if neg {
        -(c as i64)
    } else {
        c as i64
    }
}

/// Scaling is monotone in the factor for a non-negative amount.
pub proof fn lemma_scale_amount_mono_factor(a: int, f1: int, f2: int)
    requires
        0 <= a,
        0 <= f1 <= f2,
    ensures
        scale_amount(a, f1) <= scale_amount(a, f2),
{
    if a == 0 {
        lemma_mul_by_zero_is_zero(f1);
        lemma_mul_by_zero_is_zero(f2);
        lemma_mul_is_commutative(a, f1);
        lemma_mul_is_commutative(a, f2);
    } else {
        lemma_mul_left_inequality(a, f1, f2);
        lemma_div_is_ordered(a * f1, a * f2, SCALE as int);
    }
}

/// A factor of at least `SCALE` does not shrink a non-negative amount.
pub proof fn lemma_scale_amount_at_least(a: int, f: int)
    requires
        0 <= a <= AMOUNT_CAP,
        SCALE <= f,
    ensures
        a <= scale_amount(a, f),
{
    if a == 0 {
        lemma_mul_by_zero_is_zero(f);
        lemma_mul_is_commutative(a, f);
        lemma_div_pos_is_pos(a * f, SCALE as int);
    } else {
        lemma_mul_left_inequality(a, SCALE as int, f);
        lemma_div_is_ordered(a * SCALE, a * f, SCALE as int);
        lemma_mul_is_commutative(a, SCALE as int);
        lemma_div_multiples_vanish(a, SCALE as int);
    }
}

/// A factor of at most `SCALE` does not grow a non-negative amount.
pub proof fn lemma_scale_amount_at_most(a: int, f: int)
    requires
        0 <= a,
        0 <= f <= SCALE,
    ensures
        scale_amount(a, f) <= a,
{
    if a == 0 {
        lemma_mul_by_zero_is_zero(f);
        lemma_mul_is_commutative(a, f);
        lemma_div_pos_is_pos(a * f, SCALE as int);
    } else {
        lemma_mul_left_inequality(a, f, SCALE as int);
        lemma_div_is_ordered(a * f, a * SCALE, SCALE as int);
        lemma_mul_is_commutative(a, SCALE as int);
        lemma_div_multiples_vanish(a, SCALE as int);
    }
}

/// A factor of exactly `SCALE` leaves any representable amount unchanged.
pub proof fn lemma_scale_amount_identity(a: int)
    requires
        amount_ok(a),
    ensures
        scale_amount(a, SCALE as int) == a,
{
    if a >= 0 {
        lemma_mul_is_commutative(a, SCALE as int);
        lemma_div_multiples_vanish(a, SCALE as int);
    } else {
        lemma_mul_is_commutative(-a, SCALE as int);
        lemma_div_multiples_vanish(-a, SCALE as int);
    }
}

/// Euclidean remainder of a non-negative value lies in `[0, d)`.
pub proof fn lemma_mod_range(x: int, d: int)
    requires
        0 <= x,
        0 < d,
    ensures
        0 <= x % d < d,
{
    lemma_fundamental_div_mod(x, d);
    lemma_div_pos_is_pos(x, d);
    lemma_remainder_lower(x, d);
    lemma_remainder_upper(x, d);
}

/// Dividing a non-negative value smaller than the divisor yields zero and
/// leaves the value as the remainder.
pub proof fn lemma_div_small(x: int, d: int)
    requires
        0 <= x < d,
    ensures
        x / d == 0,
        x % d == x,
{
    lemma_fundamental_div_mod_converse_div(x, d, 0, x);
    lemma_fundamental_div_mod_converse_mod(x, d, 0, x);
}

/// Scaling keeps amounts representable and preserves the sign class.
pub proof fn lemma_scale_amount_bounds(a: int, f: int)
    requires
        0 <= f,
    ensures
        amount_ok(scale_amount(a, f)),
        a >= 0 ==> scale_amount(a, f) >= 0,
        a < 0 ==> scale_amount(a, f) <= 0,
{
    if a >= 0 {
        lemma_mul_nonnegative(a, f);
        lemma_div_pos_is_pos(a * f, SCALE as int);
    } else {
        lemma_mul_nonnegative(-a, f);
        lemma_div_pos_is_pos((-a) * f, SCALE as int);
    }
}

} // verus!
