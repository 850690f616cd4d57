//! Tradable investments: a compounding initial stake plus periodic
//! contributions that each compound from their own deposit date.

use vstd::prelude::*;

verus! {

use crate::asset::AssetTrait;
use crate::date::Date;
use crate::fixed::amount_ok;
use crate::fixed::lemma_mod_range;
use crate::fixed::sat_add;
use crate::fixed::sat_add_amount;
use crate::fixed::scale_amount;
use crate::fixed::scale_amount_fp;
use crate::growth::growth_factor;
use crate::growth::growth_factor_fp;
use crate::growth::rate_ok;
use vstd::arithmetic::div_mod::lemma_fundamental_div_mod;
use vstd::arithmetic::mul::lemma_mul_inequality;

/// How often a recurring payment or contribution lands.
#[derive(Clone, Copy, Debug, PartialEq, Eq, Structural)]
pub enum ContributionFrequency {
    Weekly,
    Monthly,
    Yearly,
}

impl ContributionFrequency {
    /// Length of one recurrence period, in days.
    pub open spec fn spec_interval_days(self) -> int {
        match self {
            ContributionFrequency::Weekly => 7,
            ContributionFrequency::Monthly => 30,
            ContributionFrequency::Yearly => 365,
        }
    }

    /// Length of one recurrence period, as executable code.
    pub fn interval_days(&self) -> (r: i64)
        ensures
            r == self.spec_interval_days(),
            1 <= r <= 365,
    {
        match self {
            ContributionFrequency::Weekly => 7,
            ContributionFrequency::Monthly => 30,
            ContributionFrequency::Yearly => 365,
        }
    }
}

/// A tradable investment holding.
#[derive(Clone, Debug, PartialEq)]
pub struct Tradable {
    /// Identifier assigned by the owning portfolio; `None` until added.
    pub id: Option<u64>,
    pub name: String,
    /// Initial stake on the acquisition date.
    pub value: i64,
    /// Annual growth rate in hundredths of a percent.
    pub rate_per_year: i64,
    pub acquisition_date: Date,
    /// Amount added at each contribution interval.
    pub contribution: i64,
    pub contribution_frequency: ContributionFrequency,
    pub should_delete: bool,
}

/// Saturating sum of the first `n` periodic contributions, each compounded
/// from its own deposit date (`n * iv` days after acquisition) to the query
/// date (`days` days after acquisition), accumulated in deposit order.
pub open spec fn contributions_value(c: int, rate: int, days: int, iv: int, n: nat) -> int
    decreases n,
{
    if n == 0 {
        0
    } else {
        sat_add(
            contributions_value(c, rate, days, iv, (n - 1) as nat),
            scale_amount(c, growth_factor(rate, days - n * iv)),
        )
    }
}

impl Tradable {
    /// The numeric fields are within the library's representable ranges.
    pub open spec fn wf(self) -> bool {
        amount_ok(self.value as int) && rate_ok(self.rate_per_year as int)
            && amount_ok(self.contribution as int) && self.acquisition_date.wf()
    }
}

impl AssetTrait for Tradable {
    open spec fn inv(&self) -> bool {
        self.wf()
    }

    open spec fn spec_value(&self, date: Date) -> int {
        if date.days <= self.acquisition_date.days {
            self.value as int
        } else {
            let days = date.days - self.acquisition_date.days;
            let iv = self.contribution_frequency.spec_interval_days();
            sat_add(
                scale_amount(self.value as int, growth_factor(self.rate_per_year as int, days)),
                contributions_value(
                    self.contribution as int,
                    self.rate_per_year as int,
                    days,
                    iv,
                    (days / iv) as nat,
                ),
            )
        }
    }

    open spec fn spec_name(&self) -> Seq<char> {
        self.name@
    }

    open spec fn spec_uuid(&self) -> Option<u64> {
        self.id
    }

    open spec fn spec_should_delete(&self) -> bool {
        self.should_delete
    }

    open spec fn spec_is_growth(&self) -> bool {
        true
    }

    #[verifier::loop_isolation(false)]
    fn value(&self, date: Date) -> (r: i64) {
        if date.days <= self.acquisition_date.days {
            return self.value;
        }
        let days: i64 = date.days - self.acquisition_date.days;
        let iv: i64 = self.contribution_frequency.interval_days();
        let n: u64 = (days as u64) / (iv as u64);
        proof {
            lemma_fundamental_div_mod(days as int, iv as int);
            lemma_mod_range(days as int, iv as int);
            assert((iv as int) * (n as int) <= days);
        }
        let initial: i64 = scale_amount_fp(
            self.value,
            growth_factor_fp(self.rate_per_year, days),
        );
        let mut acc: i64 = 0;
        let mut i: u64 = 0;
        while i < n
            invariant
                i <= n,
                amount_ok(acc as int),
                acc == contributions_value(
                    self.contribution as int,
                    self.rate_per_year as int,
                    days as int,
                    iv as int,
                    i as nat,
                ),
            decreases n - i,
        {
            i = i + 1;
            proof {
                lemma_mul_inequality(i as int, n as int, iv as int);
                vstd::arithmetic::mul::lemma_mul_is_commutative(iv as int, n as int);
                vstd::arithmetic::mul::lemma_mul_is_commutative(i as int, iv as int);
            }
            let offset: u64 = i * (iv as u64);
            let since: i64 = days - offset as i64;
            let term: i64 = scale_amount_fp(
                self.contribution,
                growth_factor_fp(self.rate_per_year, since),
            );
            acc = sat_add_amount(acc, term);
        }
        sat_add_amount(initial, acc)
    }

    fn name(&self) -> (r: String) {
        self.name.clone()
    }

    fn uuid(&self) -> (r: Option<u64>) {
        self.id
    }

    fn should_delete(&self) -> (r: bool) {
        self.should_delete
    }

    fn is_growth(&self) -> (r: bool) {
        true
    }
}

} // verus!
