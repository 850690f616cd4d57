//! Loans: an amortizing balance under periodic compounding and principal
//! payments, floored at zero, with prorated interest for a trailing partial
//! period.

use vstd::prelude::*;

verus! {

use crate::asset::AssetTrait;
use crate::date::Date;
use crate::fixed::amount_ok;
use crate::fixed::lemma_mod_range;
use crate::fixed::lemma_scale_amount_bounds;
use crate::fixed::sat_add;
use crate::fixed::sat_add_amount;
use crate::fixed::scale_amount;
use crate::fixed::scale_amount_fp;
use crate::fixed::AMOUNT_CAP;
use crate::fixed::FACTOR_CAP;
use crate::fixed::SCALE;
use crate::growth::growth_factor;
use crate::growth::growth_factor_fp;
use crate::growth::lemma_growth_factor_bounds;
use crate::growth::rate_ok;
use crate::tradable::ContributionFrequency;
use vstd::arithmetic::div_mod::lemma_div_is_ordered;
use vstd::arithmetic::div_mod::lemma_div_multiples_vanish;
use vstd::arithmetic::div_mod::lemma_div_pos_is_pos;
use vstd::arithmetic::div_mod::lemma_hoist_over_denominator;
use vstd::arithmetic::mul::lemma_mul_by_zero_is_zero;
use vstd::arithmetic::mul::lemma_mul_inequality;
use vstd::arithmetic::mul::lemma_mul_is_commutative;
use vstd::arithmetic::mul::lemma_mul_is_distributive_add_other_way;
use vstd::arithmetic::mul::lemma_mul_left_inequality;
use vstd::arithmetic::mul::lemma_mul_nonnegative;

/// A loan holding.
#[derive(Clone, Debug, PartialEq)]
pub struct Loan {
    /// Identifier assigned by the owning portfolio; `None` until added.
    pub id: Option<u64>,
    pub name: String,
    /// Outstanding principal on the acquisition date.
    pub value: i64,
    /// Annual interest rate in hundredths of a percent.
    pub rate_per_year: i64,
    pub acquisition_date: Date,
    /// Principal payment subtracted at the end of each full period.
    pub principal_payment: i64,
    pub principal_frequency: ContributionFrequency,
    pub should_delete: bool,
}

/// The balance after `k` full periods, starting from `b0`: each period
/// accrues interest by the per-period factor `f`, then subtracts the
/// payment `pay` and floors the balance at zero.
pub open spec fn loan_after(b0: int, f: int, pay: int, k: nat) -> int
    decreases k,
{
    if k == 0 {
        b0
    } else {
        let accrued = scale_amount(loan_after(b0, f, pay, (k - 1) as nat), f);
        let paid = sat_add(accrued, -pay);
        if paid < 0 {
            0
        } else {
            paid
        }
    }
}

/// The balance after at least one full period is non-negative and
/// representable.
pub proof fn lemma_loan_after_bounds(b0: int, f: int, pay: int, k: nat)
    requires
        amount_ok(b0),
        0 <= f,
    ensures
        amount_ok(loan_after(b0, f, pay, k)),
        k >= 1 ==> loan_after(b0, f, pay, k) >= 0,
    decreases k,
{
    if k > 0 {
        lemma_loan_after_bounds(b0, f, pay, (k - 1) as nat);
    }
}

/// A smaller balance accrues no more interest in one period than a larger
/// one, as long as the larger balance's accrual does not saturate.
proof fn lemma_interest_mono(b1: int, b2: int, f: int)
    requires
        0 <= b1 <= b2 <= AMOUNT_CAP,
        SCALE <= f,
        b2 * f <= AMOUNT_CAP * (SCALE as int),
    ensures
        scale_amount(b1, f) - b1 <= scale_amount(b2, f) - b2,
{
    let s = SCALE as int;
    lemma_mul_nonnegative(b1, f);
    lemma_mul_inequality(b1, b2, f);
    lemma_div_is_ordered(b1 * f, b2 * f, s);
    lemma_div_is_ordered(b2 * f, AMOUNT_CAP * s, s);
    lemma_mul_is_commutative(AMOUNT_CAP as int, s);
    lemma_div_multiples_vanish(AMOUNT_CAP as int, s);
    lemma_div_pos_is_pos(b1 * f, s);
    lemma_div_pos_is_pos(b2 * f, s);
    assert(b1 * f / s + (b2 - b1) == (b1 * f + (b2 - b1) * s) / s) by {
        lemma_hoist_over_denominator(b1 * f, b2 - b1, SCALE as nat);
    }
    assert(b1 * f + (b2 - b1) * s <= b2 * f) by {
        assert((b2 - b1) * s <= (b2 - b1) * f) by {
            if b1 < b2 {
                lemma_mul_left_inequality(b2 - b1, s, f);
            } else {
                lemma_mul_by_zero_is_zero(s);
                lemma_mul_by_zero_is_zero(f);
                lemma_mul_is_commutative(b2 - b1, s);
                lemma_mul_is_commutative(b2 - b1, f);
            }
        }
        assert(b1 * f + (b2 - b1) * f == b2 * f) by {
            lemma_mul_is_distributive_add_other_way(f, b1, b2 - b1);
        }
    }
    lemma_div_is_ordered(b1 * f + (b2 - b1) * s, b2 * f, s);
}

/// When the periodic payment covers the interest that one period accrues
/// on the initial principal, the balance never rises above that principal,
/// never goes below zero, and is non-increasing from period to period.
/// The side condition keeps the principal's accrual away from the
/// saturation cap, where the bound can fail.
pub proof fn lemma_loan_nonincreasing(b0: int, f: int, pay: int, k: nat)
    requires
        0 <= b0 <= AMOUNT_CAP,
        SCALE <= f <= FACTOR_CAP,
        b0 * f <= AMOUNT_CAP * (SCALE as int),
        scale_amount(b0, f) - b0 <= pay,
    ensures
        0 <= loan_after(b0, f, pay, k) <= b0,
        loan_after(b0, f, pay, k + 1) <= loan_after(b0, f, pay, k),
    decreases k,
{
    let s = SCALE as int;
    if k == 0 {
        lemma_interest_mono(b0, b0, f);
        lemma_mul_nonnegative(b0, f);
        lemma_div_pos_is_pos(b0 * f, s);
        lemma_div_is_ordered(b0 * f, AMOUNT_CAP * s, s);
        lemma_mul_is_commutative(AMOUNT_CAP as int, s);
        lemma_div_multiples_vanish(AMOUNT_CAP as int, s);
    } else {
        lemma_loan_nonincreasing(b0, f, pay, (k - 1) as nat);
        let bk = loan_after(b0, f, pay, k);
        assert(0 <= bk <= b0);
        lemma_interest_mono(bk, b0, f);
        lemma_mul_nonnegative(bk, f);
        lemma_mul_inequality(bk, b0, f);
        lemma_div_is_ordered(bk * f, b0 * f, s);
        lemma_div_is_ordered(b0 * f, AMOUNT_CAP * s, s);
        lemma_mul_is_commutative(AMOUNT_CAP as int, s);
        lemma_div_multiples_vanish(AMOUNT_CAP as int, s);
        lemma_div_pos_is_pos(bk * f, s);
    }
}

/// The balance is monotone: more elapsed full periods never leave a
/// larger balance, under the conditions of `lemma_loan_nonincreasing`.
pub proof fn lemma_loan_after_mono(b0: int, f: int, pay: int, k1: nat, k2: nat)
    requires
        0 <= b0 <= AMOUNT_CAP,
        SCALE <= f <= FACTOR_CAP,
        b0 * f <= AMOUNT_CAP * (SCALE as int),
        scale_amount(b0, f) - b0 <= pay,
        k1 <= k2,
    ensures
        loan_after(b0, f, pay, k2) <= loan_after(b0, f, pay, k1),
    decreases k2 - k1,
{
    if k1 < k2 {
        lemma_loan_nonincreasing(b0, f, pay, k1);
        lemma_loan_after_mono(b0, f, pay, k1 + 1, k2);
    }
}

/// Between any two payment boundaries, a loan whose periodic payment
/// covers one period's interest on the initial principal is worth no more
/// at the later boundary.  The accrual side condition keeps the principal
/// away from the saturation cap, where the bound can fail.
pub proof fn lemma_loan_value_nonincreasing(loan: Loan, d1: Date, d2: Date)
    requires
        loan.wf(),
        d1.wf(),
        d2.wf(),
        0 <= loan.value,
        loan.acquisition_date.days < d1.days <= d2.days,
        (d1.days - loan.acquisition_date.days) % loan.principal_frequency.spec_interval_days()
            == 0,
        (d2.days - loan.acquisition_date.days) % loan.principal_frequency.spec_interval_days()
            == 0,
        loan.value * growth_factor(
            loan.rate_per_year as int,
            loan.principal_frequency.spec_interval_days(),
        ) <= AMOUNT_CAP * (SCALE as int),
        scale_amount(
            loan.value as int,
            growth_factor(
                loan.rate_per_year as int,
                loan.principal_frequency.spec_interval_days(),
            ),
        ) - loan.value <= loan.principal_payment,
        loan.rate_per_year >= 0,
    ensures
        loan.spec_value(d2) <= loan.spec_value(d1),
{
    let acq = loan.acquisition_date.days;
    let iv = loan.principal_frequency.spec_interval_days();
    let rate = loan.rate_per_year as int;
    let f = growth_factor(rate, iv);
    lemma_growth_factor_bounds(rate, iv);
    let e1 = d1.days - acq;
    let e2 = d2.days - acq;
    lemma_mod_range(e1, iv);
    lemma_mod_range(e2, iv);
    lemma_div_is_ordered(e1, e2, iv);
    lemma_div_pos_is_pos(e1, iv);
    lemma_loan_after_mono(
        loan.value as int,
        f,
        loan.principal_payment as int,
        (e1 / iv) as nat,
        (e2 / iv) as nat,
    );
}

/// A loan with a non-negative principal is never valued below zero.
pub proof fn lemma_loan_never_negative(loan: Loan, date: Date)
    requires
        loan.wf(),
        date.wf(),
        loan.value >= 0,
    ensures
        loan.spec_value(date) >= 0,
{
    let acq = loan.acquisition_date.days;
    if date.days > acq {
        let days = date.days - acq;
        let iv = loan.principal_frequency.spec_interval_days();
        let rate = loan.rate_per_year as int;
        let f = growth_factor(rate, iv);
        lemma_mod_range(days, iv);
        lemma_growth_factor_bounds(rate, iv);
        let k = (days / iv) as nat;
        lemma_loan_after_bounds(loan.value as int, f, loan.principal_payment as int, k);
        let b = loan_after(loan.value as int, f, loan.principal_payment as int, k);
        if b > 0 && days % iv > 0 {
            lemma_growth_factor_bounds(rate, days % iv);
            lemma_scale_amount_bounds(b, growth_factor(rate, days % iv));
        }
    }
}

impl Loan {
    /// The numeric fields are within the library's representable ranges.
    pub open spec fn wf(self) -> bool {
        amount_ok(self.value as int) && rate_ok(self.rate_per_year as int)
            && amount_ok(self.principal_payment as int) && self.acquisition_date.wf()
    }
}

impl AssetTrait for Loan {
    open spec fn inv(&self) -> bool {
        self.wf()
    }

    open spec fn spec_value(&self, date: Date) -> int {
        if date.days <= self.acquisition_date.days {
            self.value as int
        } else {
            let days = date.days - self.acquisition_date.days;
            let iv = self.principal_frequency.spec_interval_days();
            let f = growth_factor(self.rate_per_year as int, iv);
            let b = loan_after(
                self.value as int,
                f,
                self.principal_payment as int,
                (days / iv) as nat,
            );
            if b > 0 && days % iv > 0 {
                scale_amount(b, growth_factor(self.rate_per_year as int, days % iv))
            } else {
                b
            }
        }
    }

    open spec fn spec_name(&self) -> Seq<char> {
        self.name@
    }

    open spec fn spec_uuid(&self) -> Option<u64> {
        self.id
    }

    open spec fn spec_should_delete(&self) -> bool {
        self.should_delete
    }

    open spec fn spec_is_growth(&self) -> bool {
        false
    }

    #[verifier::loop_isolation(false)]
    fn value(&self, date: Date) -> (r: i64) {
        if date.days <= self.acquisition_date.days {
            return self.value;
        }
        let days: i64 = date.days - self.acquisition_date.days;
        let iv: i64 = self.principal_frequency.interval_days();
        let k: u64 = (days as u64) / (iv as u64);
        let rem: u64 = (days as u64) % (iv as u64);
        proof {
            lemma_mod_range(days as int, iv as int);
        }
        let f: i64 = growth_factor_fp(self.rate_per_year, iv);
        let mut balance: i64 = self.value;
        let mut i: u64 = 0;
        while i < k
            invariant
                i <= k,
                amount_ok(balance as int),
                balance == loan_after(
                    self.value as int,
                    f as int,
                    self.principal_payment as int,
                    i as nat,
                ),
            decreases k - i,
        {
            let accrued: i64 = scale_amount_fp(balance, f);
            let paid: i64 = sat_add_amount(accrued, -self.principal_payment);
            balance = if paid < 0 {
                0
            } else {
                paid
            };
            i = i + 1;
        }
        if balance > 0 && rem > 0 {
            let partial: i64 = growth_factor_fp(self.rate_per_year, rem as i64);
            scale_amount_fp(balance, partial)
        } else {
            balance
        }
    }

    fn name(&self) -> (r: String) {
        self.name.clone()
    }

    fn uuid(&self) -> (r: Option<u64>) {
        self.id
    }

    fn should_delete(&self) -> (r: bool) {
        self.should_delete
    }

    fn is_growth(&self) -> (r: bool) {
        false
    }
}

} // verus!
