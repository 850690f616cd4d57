//! Real-estate holdings: pure compound growth or decay of the base value.

use vstd::prelude::*;

verus! {

use crate::asset::AssetTrait;
use crate::date::Date;
use crate::fixed::amount_ok;
use crate::fixed::lemma_scale_amount_at_least;
use crate::fixed::lemma_scale_amount_at_most;
use crate::fixed::lemma_scale_amount_identity;
use crate::fixed::lemma_scale_amount_mono_factor;
use crate::fixed::scale_amount;
use crate::fixed::scale_amount_fp;
use crate::growth::growth_factor;
use crate::growth::growth_factor_fp;
use crate::growth::lemma_growth_factor_bounds;
use crate::growth::lemma_growth_factor_mono;
use crate::growth::rate_ok;

/// A real-estate holding.  A liability can be modeled as a negative base
/// value.
#[derive(Clone, Debug, PartialEq)]
pub struct RealEstate {
    /// Identifier assigned by the owning portfolio; `None` until added.
    pub id: Option<u64>,
    pub name: String,
    /// Value on the acquisition date.
    pub value: i64,
    /// Annual appreciation rate in hundredths of a percent; may be
    /// negative for depreciation.
    pub rate_per_year: i64,
    pub acquisition_date: Date,
    pub should_delete: bool,
}

impl RealEstate {
    /// The numeric fields are within the library's representable ranges.
    pub open spec fn wf(self) -> bool {
        amount_ok(self.value as int) && rate_ok(self.rate_per_year as int)
            && self.acquisition_date.wf()
    }
}

/// A real-estate holding with a non-negative base value is monotone in
/// the query date: non-decreasing under a positive annual rate,
/// non-increasing under a negative one, and constant at rate zero.
pub proof fn lemma_real_estate_monotone(re: RealEstate, d1: Date, d2: Date)
    requires
        re.wf(),
        d1.wf(),
        d2.wf(),
        d1.days <= d2.days,
        re.value >= 0,
    ensures
        re.rate_per_year >= 0 ==> re.spec_value(d1) <= re.spec_value(d2),
        re.rate_per_year <= 0 ==> re.spec_value(d2) <= re.spec_value(d1),
        re.rate_per_year == 0 ==> re.spec_value(d1) == re.spec_value(d2),
{
    let acq = re.acquisition_date.days;
    let rate = re.rate_per_year as int;
    let base = re.value as int;
    if d2.days <= acq {
        // both at or before acquisition: both equal the base value
    } else if d1.days <= acq {
        let e2 = d2.days - acq;
        lemma_growth_factor_bounds(rate, e2);
        if rate >= 0 {
            lemma_scale_amount_at_least(base, growth_factor(rate, e2));
        }
        if rate <= 0 {
            lemma_scale_amount_at_most(base, growth_factor(rate, e2));
        }
        if rate == 0 {
            lemma_scale_amount_identity(base);
        }
    } else {
        let e1 = d1.days - acq;
        let e2 = d2.days - acq;
        lemma_growth_factor_bounds(rate, e1);
        lemma_growth_factor_bounds(rate, e2);
        lemma_growth_factor_mono(rate, e1, e2);
        if rate >= 0 {
            lemma_scale_amount_mono_factor(base, growth_factor(rate, e1), growth_factor(rate, e2));
        }
        if rate <= 0 {
            lemma_scale_amount_mono_factor(base, growth_factor(rate, e2), growth_factor(rate, e1));
        }
    }
}

impl AssetTrait for RealEstate {
    open spec fn inv(&self) -> bool {
        self.wf()
    }

    open spec fn spec_value(&self, date: Date) -> int {
        if date.days <= self.acquisition_date.days {
            self.value as int
        } else {
            scale_amount(
                self.value as int,
                growth_factor(self.rate_per_year as int, date.days - self.acquisition_date.days),
            )
        }
    }

    open spec fn spec_name(&self) -> Seq<char> {
        self.name@
    }

    open spec fn spec_uuid(&self) -> Option<u64> {
        self.id
    }

    open spec fn spec_should_delete(&self) -> bool {
        self.should_delete
    }

    open spec fn spec_is_growth(&self) -> bool {
        true
    }

    fn value(&self, date: Date) -> (r: i64) {
        if date.days <= self.acquisition_date.days {
            self.value
        } else {
            let days: i64 = date.days - self.acquisition_date.days;
            let f: i64 = growth_factor_fp(self.rate_per_year, days);
            scale_amount_fp(self.value, f)
        }
    }

    fn name(&self) -> (r: String) {
        self.name.clone()
    }

    fn uuid(&self) -> (r: Option<u64>) {
        self.id
    }

    fn should_delete(&self) -> (r: bool) {
        self.should_delete
    }

    fn is_growth(&self) -> (r: bool) {
        true
    }
}

} // verus!
