//! Cash accounts: a non-compounding ladder of periodic contributions,
//! floored at zero after every step.

use vstd::prelude::*;

verus! {

use crate::asset::AssetTrait;
use crate::date::Date;
use crate::fixed::amount_ok;
use crate::fixed::sat_add;
use crate::fixed::sat_add_amount;
use crate::tradable::ContributionFrequency;

/// A cash-account holding.
#[derive(Clone, Debug, PartialEq)]
pub struct Cash {
    /// Identifier assigned by the owning portfolio; `None` until added.
    pub id: Option<u64>,
    pub name: String,
    /// Balance on the acquisition date.
    pub value: i64,
    pub acquisition_date: Date,
    /// Amount added at each contribution interval; may be negative for a
    /// recurring withdrawal.
    pub contribution: i64,
    pub contribution_frequency: ContributionFrequency,
    pub should_delete: bool,
}

/// The balance after `k` elapsed periods, starting from `b0`: each period
/// adds the contribution `c` and floors the balance at zero.
pub open spec fn cash_after(b0: int, c: int, k: nat) -> int
    decreases k,
{
    if k == 0 {
        b0
    } else {
        let added = sat_add(cash_after(b0, c, (k - 1) as nat), c);
        if added < 0 {
            0
        } else {
            added
        }
    }
}

/// The balance after at least one period is non-negative and representable.
pub proof fn lemma_cash_after_bounds(b0: int, c: int, k: nat)
    requires
        amount_ok(b0),
    ensures
        amount_ok(cash_after(b0, c, k)),
        k >= 1 ==> cash_after(b0, c, k) >= 0,
    decreases k,
{
    if k > 0 {
        lemma_cash_after_bounds(b0, c, (k - 1) as nat);
    }
}

/// A cash account with a non-negative starting balance is never valued
/// below zero.
pub proof fn lemma_cash_never_negative(cash: Cash, date: Date)
    requires
        cash.wf(),
        date.wf(),
        cash.value >= 0,
    ensures
        cash.spec_value(date) >= 0,
{
    let acq = cash.acquisition_date.days;
    if date.days > acq {
        let days = date.days - acq;
        let iv = cash.contribution_frequency.spec_interval_days();
        lemma_cash_after_bounds(
            cash.value as int,
            cash.contribution as int,
            ((days / iv) as nat),
        );
    }
}

/// A cash balance changes only at period boundaries: two query dates after
/// acquisition with the same number of elapsed full periods see the same
/// value.
pub proof fn lemma_cash_constant_between_boundaries(cash: Cash, d1: Date, d2: Date)
    requires
        cash.wf(),
        d1.wf(),
        d2.wf(),
        d1.days > cash.acquisition_date.days,
        d2.days > cash.acquisition_date.days,
        (d1.days - cash.acquisition_date.days) / cash.contribution_frequency.spec_interval_days()
            == (d2.days - cash.acquisition_date.days)
            / cash.contribution_frequency.spec_interval_days(),
    ensures
        cash.spec_value(d1) == cash.spec_value(d2),
{
}

impl Cash {
    /// The numeric fields are within the library's representable ranges.
    pub open spec fn wf(self) -> bool {
        amount_ok(self.value as int) && amount_ok(self.contribution as int)
            && self.acquisition_date.wf()
    }
}

impl AssetTrait for Cash {
    open spec fn inv(&self) -> bool {
        self.wf()
    }

    open spec fn spec_value(&self, date: Date) -> int {
        if date.days <= self.acquisition_date.days {
            self.value as int
        } else {
            let days = date.days - self.acquisition_date.days;
            let iv = self.contribution_frequency.spec_interval_days();
            cash_after(self.value as int, self.contribution as int, (days / iv) as nat)
        }
    }

    open spec fn spec_name(&self) -> Seq<char> {
        self.name@
    }

    open spec fn spec_uuid(&self) -> Option<u64> {
        self.id
    }

    open spec fn spec_should_delete(&self) -> bool {
        self.should_delete
    }

    open spec fn spec_is_growth(&self) -> bool {
        true
    }

    #[verifier::loop_isolation(false)]
    fn value(&self, date: Date) -> (r: i64) {
        if date.days <= self.acquisition_date.days {
            return self.value;
        }
        let days: i64 = date.days - self.acquisition_date.days;
        let iv: i64 = self.contribution_frequency.interval_days();
        let k: u64 = (days as u64) / (iv as u64);
        let mut balance: i64 = self.value;
        let mut i: u64 = 0;
        while i < k
            invariant
                i <= k,
                amount_ok(balance as int),
                balance == cash_after(self.value as int, self.contribution as int, i as nat),
            decreases k - i,
        {
            let added: i64 = sat_add_amount(balance, self.contribution);
            balance = if added < 0 {
                0
            } else {
                added
            };
            i = i + 1;
        }
        balance
    }

    fn name(&self) -> (r: String) {
        self.name.clone()
    }

    fn uuid(&self) -> (r: Option<u64>) {
        self.id
    }

    fn should_delete(&self) -> (r: bool) {
        self.should_delete
    }

    fn is_growth(&self) -> (r: bool) {
        true
    }
}

} // verus!
