//! A standalone interest-bearing liability, valued negatively so it can
//! be subtracted from asset value.

use vstd::prelude::*;

verus! {

use crate::date::Date;
use crate::fixed::amount_ok;
use crate::fixed::lemma_scale_amount_bounds;
use crate::fixed::scale_amount;
use crate::fixed::scale_amount_fp;
use crate::growth::growth_factor;
use crate::growth::growth_factor_fp;
use crate::growth::lemma_growth_factor_bounds;
use crate::growth::rate_ok;
use crate::instrument::FinancialInstrument;

/// An interest-bearing liability.
#[derive(Clone, Debug)]
pub struct Liability {
    pub name: String,
    /// Principal owed on the acquisition date.
    pub principal: i64,
    /// Annual interest rate in hundredths of a percent.
    pub interest_rate: i64,
    pub acquisition_date: Date,
}

impl FinancialInstrument for Liability {
    open spec fn inv(&self) -> bool {
        amount_ok(self.principal as int) && rate_ok(self.interest_rate as int)
            && self.acquisition_date.wf()
    }

    open spec fn spec_value_on(&self, date: Date) -> int {
        if date.days <= self.acquisition_date.days {
            -self.principal as int
        } else {
            -scale_amount(
                self.principal as int,
                growth_factor(self.interest_rate as int, date.days - self.acquisition_date.days),
            )
        }
    }

    open spec fn spec_acquisition_date(&self) -> Date {
        self.acquisition_date
    }

    open spec fn spec_name(&self) -> Seq<char> {
        self.name@
    }

    fn value_on(&self, date: Date) -> (r: i64) {
        if date.days <= self.acquisition_date.days {
            -self.principal
        } else {
            let days: i64 = date.days - self.acquisition_date.days;
            let f: i64 = growth_factor_fp(self.interest_rate, days);
            proof {
                lemma_growth_factor_bounds(self.interest_rate as int, days as int);
                lemma_scale_amount_bounds(self.principal as int, f as int);
            }
            -scale_amount_fp(self.principal, f)
        }
    }

    fn acquisition_date(&self) -> (r: Date) {
        self.acquisition_date
    }

    fn name(&self) -> (r: &str) {
        self.name.as_str()
    }
}

} // verus!
