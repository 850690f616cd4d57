//! Compound-growth factors.
//!
//! An annual rate is a signed integer in hundredths of a percent (so `500`
//! means 5.00% per year).  `growth_factor` turns a rate and an elapsed day
//! count into a fixed-point multiplier: whole 365-day years compound the
//! annual factor, and the fractional remainder of a year accrues prorated
//! simple interest.  The multiplier is monotone in the day count — growing
//! for positive rates, shrinking for negative ones, constant at rate zero.

use vstd::prelude::*;

verus! {

use crate::fixed::clamp_factor;
use crate::fixed::lemma_div_small;
use crate::fixed::lemma_mod_range;
use crate::fixed::factor_ok;
use crate::fixed::FACTOR_CAP;
use crate::fixed::SCALE;
use vstd::arithmetic::div_mod::lemma_div_is_ordered;
use vstd::arithmetic::div_mod::lemma_div_multiples_vanish;
use vstd::arithmetic::div_mod::lemma_div_pos_is_pos;
use vstd::arithmetic::div_mod::lemma_fundamental_div_mod;
use vstd::arithmetic::div_mod::lemma_fundamental_div_mod_converse_div;
use vstd::arithmetic::div_mod::lemma_fundamental_div_mod_converse_mod;
use vstd::arithmetic::mul::lemma_mul_by_zero_is_zero;
use vstd::arithmetic::mul::lemma_mul_inequality;
use vstd::arithmetic::mul::lemma_mul_is_commutative;
use vstd::arithmetic::mul::lemma_mul_is_distributive_add_other_way;
use vstd::arithmetic::mul::lemma_mul_left_inequality;
use vstd::arithmetic::mul::lemma_mul_nonnegative;
use vstd::arithmetic::mul::lemma_mul_upper_bound;

/// Most negative representable annual rate: -100.00% per year.
pub const RATE_MIN: i64 = -10_000;

/// Most positive representable annual rate: +1000.00% per year.
pub const RATE_MAX: i64 = 100_000;

/// Fixed-point units per hundredth of a percent: `SCALE / 10_000`.
pub const RATE_UNIT: i64 = 100_000;

/// Largest day count `growth_factor_fp` accepts; twice the width of the
/// supported date range.
pub const ELAPSED_MAX: i64 = 8_000_000;

/// An annual rate the library can hold, in hundredths of a percent.
pub open spec fn rate_ok(r: int) -> bool {
    RATE_MIN <= r <= RATE_MAX
}

/// Fixed-point factor `1 + rate` applied over one whole year.
pub open spec fn annual_factor(rate: int) -> int {
    SCALE + rate * RATE_UNIT
}

/// Fixed-point factor for `rem` days of prorated simple interest at the
/// given annual rate, with the magnitude of the proration rounded toward
/// zero.
pub open spec fn partial_factor(rate: int, rem: int) -> int
    recommends
        0 <= rem < 365,
{
    if rate >= 0 {
        SCALE + rate * RATE_UNIT * rem / 365
    } else {
        SCALE - (-rate) * RATE_UNIT * rem / 365
    }
}

/// The annual factor compounded over `y` whole years, saturating at
/// `FACTOR_CAP`.
pub open spec fn pow_factor(rate: int, y: nat) -> int
    decreases y,
{
    if y == 0 {
        SCALE as int
    } else {
        clamp_factor(pow_factor(rate, (y - 1) as nat) * annual_factor(rate) / (SCALE as int))
    }
}

/// The growth multiplier for `days` elapsed days at the given annual rate:
/// whole years compound, the remainder accrues prorated simple interest.
pub open spec fn growth_factor(rate: int, days: int) -> int
    recommends
        0 <= days,
{
    clamp_factor(
        pow_factor(rate, (days / 365) as nat) * partial_factor(rate, days % 365) / (SCALE as int),
    )
}

/// The annual factor of a representable rate is a representable factor no
/// larger than `11 * SCALE`.
pub proof fn lemma_annual_factor_bounds(rate: int)
    requires
        rate_ok(rate),
    ensures
        0 <= annual_factor(rate) <= 11 * SCALE,
        rate >= 0 ==> annual_factor(rate) >= SCALE,
        rate <= 0 ==> annual_factor(rate) <= SCALE,
        rate == 0 ==> annual_factor(rate) == SCALE,
{
}

/// The partial factor is positive, representable, and sits between `SCALE`
/// and the annual factor on the side the rate's sign selects.
pub proof fn lemma_partial_factor_bounds(rate: int, rem: int)
    requires
        rate_ok(rate),
        0 <= rem < 365,
    ensures
        0 < partial_factor(rate, rem) <= 11 * SCALE,
        rate >= 0 ==> SCALE <= partial_factor(rate, rem) <= annual_factor(rate),
        rate <= 0 ==> annual_factor(rate) <= partial_factor(rate, rem) <= SCALE,
        rate == 0 ==> partial_factor(rate, rem) == SCALE,
        rem == 0 ==> partial_factor(rate, rem) == SCALE,
{
    if rate >= 0 {
        let x = rate * RATE_UNIT;
        lemma_mul_nonnegative(x, rem);
        lemma_div_pos_is_pos(x * rem, 365);
        if x > 0 {
            lemma_mul_left_inequality(x, rem, 365);
        } else {
            lemma_mul_by_zero_is_zero(rem);
            lemma_mul_is_commutative(x, rem);
            lemma_mul_by_zero_is_zero(365);
            lemma_mul_is_commutative(x, 365);
        }
        lemma_div_is_ordered(x * rem, x * 365, 365);
        lemma_mul_is_commutative(x, 365);
        lemma_div_multiples_vanish(x, 365);
        if rem == 0 {
            lemma_mul_by_zero_is_zero(x);
            lemma_mul_is_commutative(x, rem);
            assert(x * rem == 0);
            assert(x * rem / 365 == 0) by {
                lemma_div_pos_is_pos(0, 365);
                lemma_div_is_ordered(x * rem, 0, 365);
            }
        }
    } else {
        let x = (-rate) * RATE_UNIT;
        lemma_mul_nonnegative(x, rem);
        lemma_div_pos_is_pos(x * rem, 365);
        lemma_mul_left_inequality(x, rem, 365);
        lemma_div_is_ordered(x * rem, x * 365, 365);
        lemma_mul_is_commutative(x, 365);
        lemma_div_multiples_vanish(x, 365);
        assert(x * rem <= 10_000 * RATE_UNIT * 364) by {
            lemma_mul_upper_bound(x, 10_000 * RATE_UNIT, rem, 364);
        }
        assert(x * rem / 365 < SCALE) by {
            lemma_div_is_ordered(x * rem, 10_000 * RATE_UNIT * 364, 365);
        }
        if rem == 0 {
            lemma_mul_by_zero_is_zero(x);
            lemma_mul_is_commutative(x, rem);
            assert(x * rem / 365 == 0) by {
                lemma_div_pos_is_pos(0, 365);
                lemma_div_is_ordered(x * rem, 0, 365);
            }
        }
    }
}

/// The partial factor is monotone in the day remainder: growing with the
/// remainder for non-negative rates, shrinking for non-positive ones.
pub proof fn lemma_partial_factor_mono(rate: int, r1: int, r2: int)
    requires
        rate_ok(rate),
        0 <= r1 <= r2 < 365,
    ensures
        rate >= 0 ==> partial_factor(rate, r1) <= partial_factor(rate, r2),
        rate <= 0 ==> partial_factor(rate, r1) >= partial_factor(rate, r2),
{
    if rate >= 0 {
        let x = rate * RATE_UNIT;
        if x > 0 {
            lemma_mul_left_inequality(x, r1, r2);
        } else {
            lemma_mul_by_zero_is_zero(r1);
            lemma_mul_by_zero_is_zero(r2);
            lemma_mul_is_commutative(x, r1);
            lemma_mul_is_commutative(x, r2);
        }
        lemma_div_is_ordered(x * r1, x * r2, 365);
    }
    if rate <= 0 {
        let x = (-rate) * RATE_UNIT;
        if x > 0 {
            lemma_mul_left_inequality(x, r1, r2);
        } else {
            lemma_mul_by_zero_is_zero(r1);
            lemma_mul_by_zero_is_zero(r2);
            lemma_mul_is_commutative(x, r1);
            lemma_mul_is_commutative(x, r2);
        }
        lemma_div_is_ordered(x * r1, x * r2, 365);
    }
}

/// The compounded factor stays within `[0, FACTOR_CAP]`; for non-negative
/// rates it never falls below `SCALE`, for non-positive rates it never
/// rises above `SCALE`, and at rate zero it is exactly `SCALE`.
pub proof fn lemma_pow_factor_bounds(rate: int, y: nat)
    requires
        rate_ok(rate),
    ensures
        0 <= pow_factor(rate, y) <= FACTOR_CAP,
        rate >= 0 ==> SCALE <= pow_factor(rate, y),
        rate <= 0 ==> pow_factor(rate, y) <= SCALE,
        rate == 0 ==> pow_factor(rate, y) == SCALE,
    decreases y,
{
    if y > 0 {
        lemma_pow_factor_bounds(rate, (y - 1) as nat);
        let p = pow_factor(rate, (y - 1) as nat);
        let a = annual_factor(rate);
        lemma_annual_factor_bounds(rate);
        lemma_mul_nonnegative(p, a);
        lemma_div_pos_is_pos(p * a, SCALE as int);
        if rate >= 0 {
            assert(SCALE * SCALE <= p * a) by {
                lemma_mul_inequality(SCALE as int, p, SCALE as int);
                lemma_mul_left_inequality(p, SCALE as int, a);
            }
            assert(SCALE <= p * a / (SCALE as int)) by {
                lemma_div_is_ordered(SCALE * SCALE, p * a, SCALE as int);
                lemma_mul_is_commutative(SCALE as int, SCALE as int);
                lemma_div_multiples_vanish(SCALE as int, SCALE as int);
            }
        }
        if rate <= 0 {
            assert(p * a <= SCALE * SCALE) by {
                lemma_mul_upper_bound(p, SCALE as int, a, SCALE as int);
            }
            assert(p * a / (SCALE as int) <= SCALE) by {
                lemma_div_is_ordered(p * a, SCALE * SCALE, SCALE as int);
                lemma_mul_is_commutative(SCALE as int, SCALE as int);
                lemma_div_multiples_vanish(SCALE as int, SCALE as int);
            }
        }
    }
}

/// Compounding one more year moves the factor in the direction of the
/// rate's sign.
pub proof fn lemma_pow_factor_step(rate: int, y: nat)
    requires
        rate_ok(rate),
    ensures
        rate >= 0 ==> pow_factor(rate, y) <= pow_factor(rate, y + 1),
        rate <= 0 ==> pow_factor(rate, y + 1) <= pow_factor(rate, y),
{
    lemma_pow_factor_bounds(rate, y);
    let p = pow_factor(rate, y);
    let a = annual_factor(rate);
    lemma_annual_factor_bounds(rate);
    assert(pow_factor(rate, y + 1) == clamp_factor(p * a / (SCALE as int)));
    if rate >= 0 {
        assert(p * SCALE <= p * a) by {
            if p > 0 {
                lemma_mul_left_inequality(p, SCALE as int, a);
            } else {
                lemma_mul_by_zero_is_zero(SCALE as int);
                lemma_mul_by_zero_is_zero(a);
                lemma_mul_is_commutative(p, SCALE as int);
                lemma_mul_is_commutative(p, a);
            }
        }
        assert(p <= p * a / (SCALE as int)) by {
            lemma_div_is_ordered(p * SCALE, p * a, SCALE as int);
            lemma_mul_is_commutative(p, SCALE as int);
            lemma_div_multiples_vanish(p, SCALE as int);
        }
    }
    if rate <= 0 {
        assert(p * a <= p * SCALE) by {
            if p > 0 {
                lemma_mul_left_inequality(p, a, SCALE as int);
            } else {
                lemma_mul_by_zero_is_zero(SCALE as int);
                lemma_mul_by_zero_is_zero(a);
                lemma_mul_is_commutative(p, SCALE as int);
                lemma_mul_is_commutative(p, a);
            }
        }
        assert(p * a / (SCALE as int) <= p) by {
            lemma_div_is_ordered(p * a, p * SCALE, SCALE as int);
            lemma_mul_is_commutative(p, SCALE as int);
            lemma_div_multiples_vanish(p, SCALE as int);
        }
    }
}

/// The growth multiplier is representable; it never falls below `SCALE` for
/// non-negative rates, never rises above `SCALE` for non-positive rates,
/// and equals `SCALE` at rate zero or after zero days.
pub proof fn lemma_growth_factor_bounds(rate: int, days: int)
    requires
        rate_ok(rate),
        0 <= days,
    ensures
        factor_ok(growth_factor(rate, days)),
        rate >= 0 ==> SCALE <= growth_factor(rate, days),
        rate <= 0 ==> growth_factor(rate, days) <= SCALE,
        rate == 0 ==> growth_factor(rate, days) == SCALE,
        days == 0 ==> growth_factor(rate, days) == SCALE,
{
    lemma_div_pos_is_pos(days, 365);
    lemma_mod_range(days, 365);
    let y = (days / 365) as nat;
    let r = days % 365;
    let p = pow_factor(rate, y);
    let q = partial_factor(rate, r);
    lemma_pow_factor_bounds(rate, y);
    lemma_partial_factor_bounds(rate, r);
    lemma_mul_nonnegative(p, q);
    lemma_div_pos_is_pos(p * q, SCALE as int);
    if rate >= 0 {
        assert(SCALE * SCALE <= p * q) by {
            lemma_mul_inequality(SCALE as int, p, SCALE as int);
            lemma_mul_left_inequality(p, SCALE as int, q);
        }
        assert(SCALE <= p * q / (SCALE as int)) by {
            lemma_div_is_ordered(SCALE * SCALE, p * q, SCALE as int);
            lemma_mul_is_commutative(SCALE as int, SCALE as int);
            lemma_div_multiples_vanish(SCALE as int, SCALE as int);
        }
    }
    if rate <= 0 {
        assert(p * q <= SCALE * SCALE) by {
            lemma_mul_upper_bound(p, SCALE as int, q, SCALE as int);
        }
        assert(p * q / (SCALE as int) <= SCALE) by {
            lemma_div_is_ordered(p * q, SCALE * SCALE, SCALE as int);
            lemma_mul_is_commutative(SCALE as int, SCALE as int);
            lemma_div_multiples_vanish(SCALE as int, SCALE as int);
        }
    }
    if rate == 0 || days == 0 {
        assert(p * q == SCALE * SCALE) by {
            if days == 0 {
                lemma_div_small(days, 365);
            }
        }
        assert(p * q / (SCALE as int) == SCALE) by {
            lemma_mul_is_commutative(SCALE as int, SCALE as int);
            lemma_div_multiples_vanish(SCALE as int, SCALE as int);
        }
    }
}

/// One more elapsed day moves the growth multiplier in the direction of the
/// rate's sign.
pub proof fn lemma_growth_factor_day_step(rate: int, days: int)
    requires
        rate_ok(rate),
        0 <= days,
    ensures
        rate >= 0 ==> growth_factor(rate, days) <= growth_factor(rate, days + 1),
        rate <= 0 ==> growth_factor(rate, days + 1) <= growth_factor(rate, days),
{
    lemma_div_pos_is_pos(days, 365);
    lemma_mod_range(days, 365);
    lemma_fundamental_div_mod(days, 365);
    let q = days / 365;
    let r = days % 365;
    let p = pow_factor(rate, q as nat);
    lemma_pow_factor_bounds(rate, q as nat);
    lemma_annual_factor_bounds(rate);
    if r < 364 {
        assert(days + 1 == q * 365 + (r + 1)) by {
            lemma_mul_is_commutative(q, 365);
        }
        lemma_fundamental_div_mod_converse_div(days + 1, 365, q, r + 1);
        lemma_fundamental_div_mod_converse_mod(days + 1, 365, q, r + 1);
        lemma_partial_factor_mono(rate, r, r + 1);
        lemma_partial_factor_bounds(rate, r);
        lemma_partial_factor_bounds(rate, r + 1);
        if rate >= 0 {
            lemma_mul_div_ordered_right(p, partial_factor(rate, r), partial_factor(rate, r + 1));
        }
        if rate <= 0 {
            lemma_mul_div_ordered_right(p, partial_factor(rate, r + 1), partial_factor(rate, r));
        }
    } else {
        assert(days + 1 == (q + 1) * 365 + 0) by {
            lemma_mul_is_commutative(q, 365);
            lemma_mul_is_distributive_add_other_way(365, q, 1);
            lemma_mul_is_commutative(q + 1, 365);
        }
        lemma_fundamental_div_mod_converse_div(days + 1, 365, q + 1, 0);
        lemma_fundamental_div_mod_converse_mod(days + 1, 365, q + 1, 0);
        lemma_partial_factor_bounds(rate, 0);
        lemma_partial_factor_bounds(rate, 364);
        let p1 = pow_factor(rate, (q + 1) as nat);
        lemma_pow_factor_bounds(rate, (q + 1) as nat);
        assert(pow_factor(rate, ((days + 1) / 365) as nat) == p1);
        assert(growth_factor(rate, days + 1) == clamp_factor(p1 * (SCALE as int) / (SCALE as int)));
        assert(p1 * (SCALE as int) / (SCALE as int) == p1) by {
            lemma_mul_is_commutative(p1, SCALE as int);
            lemma_div_multiples_vanish(p1, SCALE as int);
        }
        assert(p1 == clamp_factor(p * annual_factor(rate) / (SCALE as int)));
        if rate >= 0 {
            lemma_mul_div_ordered_right(p, partial_factor(rate, 364), annual_factor(rate));
        }
        if rate <= 0 {
            lemma_mul_div_ordered_right(p, annual_factor(rate), partial_factor(rate, 364));
        }
    }
}

/// Multiplying a fixed non-negative value by ordered factors and dividing
/// by `SCALE` preserves the order.
proof fn lemma_mul_div_ordered_right(p: int, f1: int, f2: int)
    requires
        0 <= p,
        f1 <= f2,
    ensures
        p * f1 / (SCALE as int) <= p * f2 / (SCALE as int),
{
    if p > 0 {
        lemma_mul_left_inequality(p, f1, f2);
    } else {
        lemma_mul_by_zero_is_zero(f1);
        lemma_mul_by_zero_is_zero(f2);
        lemma_mul_is_commutative(p, f1);
        lemma_mul_is_commutative(p, f2);
    }
    lemma_div_is_ordered(p * f1, p * f2, SCALE as int);
}

/// The growth multiplier is monotone in the elapsed day count, in the
/// direction of the rate's sign.
pub proof fn lemma_growth_factor_mono(rate: int, d1: int, d2: int)
    requires
        rate_ok(rate),
        0 <= d1 <= d2,
    ensures
        rate >= 0 ==> growth_factor(rate, d1) <= growth_factor(rate, d2),
        rate <= 0 ==> growth_factor(rate, d2) <= growth_factor(rate, d1),
    decreases d2 - d1,
{
    if d1 < d2 {
        lemma_growth_factor_day_step(rate, d1);
        lemma_growth_factor_mono(rate, d1 + 1, d2);
    }
}

/// The growth multiplier, as executable code.
pub fn growth_factor_fp(rate: i64, days: i64) -> (r: i64)
    requires
        rate_ok(rate as int),
        0 <= days <= ELAPSED_MAX,
    ensures
        r == growth_factor(rate as int, days as int),
        factor_ok(r as int),
{
    proof {
        lemma_growth_factor_bounds(rate as int, days as int);
    }
    let dd: u64 = days as u64;
    let y: u64 = dd / 365;
    let rem: u64 = dd % 365;
    let annual: i64 = SCALE + rate * RATE_UNIT;
    proof {
        lemma_annual_factor_bounds(rate as int);
        lemma_partial_factor_bounds(rate as int, rem as int);
        lemma_pow_factor_bounds(rate as int, 0);
    }
    let mut f: i64 = SCALE;
    let mut i: u64 = 0;
    while i < y
        invariant
            i <= y,
            rate_ok(rate as int),
            annual == annual_factor(rate as int),
            0 <= annual <= 11 * SCALE,
            f == pow_factor(rate as int, i as nat),
            0 <= f <= FACTOR_CAP,
        decreases y - i,
    {
        proof {
            lemma_mul_nonnegative(f as int, annual as int);
            lemma_mul_upper_bound(f as int, FACTOR_CAP as int, annual as int, 11 * SCALE);
        }
        let prod: u128 = (f as u128) * (annual as u128);
        let quot: u128 = prod / (SCALE as u128);
        proof {
            lemma_div_pos_is_pos((f as int) * (annual as int), SCALE as int);
            lemma_div_is_ordered(
                (f as int) * (annual as int),
                (FACTOR_CAP as int) * 11 * SCALE,
                SCALE as int,
            );
            lemma_pow_factor_bounds(rate as int, (i + 1) as nat);
        }
        f = if quot > FACTOR_CAP as u128 {
            FACTOR_CAP
        } else {
            quot as i64
        };
        i = i + 1;
    }
    let partial: i64 = if rate >= 0 {
        let part: u64 = (rate as u64) * (RATE_UNIT as u64) * rem / 365;
        SCALE + part as i64
    } else {
        let part: u64 = ((-rate) as u64) * (RATE_UNIT as u64) * rem / 365;
        SCALE - part as i64
    };
    proof {
        lemma_mul_nonnegative(f as int, partial as int);
        lemma_mul_upper_bound(f as int, FACTOR_CAP as int, partial as int, 11 * SCALE);
        lemma_div_pos_is_pos((f as int) * (partial as int), SCALE as int);
    }
    let prod: u128 = (f as u128) * (partial as u128);
    let quot: u128 = prod / (SCALE as u128);
    if quot > FACTOR_CAP as u128 {
        FACTOR_CAP
    } else {
        quot as i64
    }
}

} // verus!
