//! A standalone appreciating investment, outside the portfolio registry.

use vstd::prelude::*;

verus! {

use crate::date::Date;
use crate::fixed::amount_ok;
use crate::fixed::scale_amount;
use crate::fixed::scale_amount_fp;
use crate::growth::growth_factor;
use crate::growth::growth_factor_fp;
use crate::growth::rate_ok;
use crate::instrument::FinancialInstrument;

/// An appreciating investment position.
#[derive(Clone, Debug)]
pub struct Investment {
    pub name: String,
    /// Value on the acquisition date.
    pub initial_value: i64,
    /// Annual appreciation rate in hundredths of a percent.
    pub appreciation_rate: i64,
    pub acquisition_date: Date,
}

impl FinancialInstrument for Investment {
    open spec fn inv(&self) -> bool {
        amount_ok(self.initial_value as int) && rate_ok(self.appreciation_rate as int)
            && self.acquisition_date.wf()
    }

    open spec fn spec_value_on(&self, date: Date) -> int {
        if date.days <= self.acquisition_date.days {
            self.initial_value as int
        } else {
            scale_amount(
                self.initial_value as int,
                growth_factor(self.appreciation_rate as int, date.days - self.acquisition_date.days),
            )
        }
    }

    open spec fn spec_acquisition_date(&self) -> Date {
        self.acquisition_date
    }

    open spec fn spec_name(&self) -> Seq<char> {
        self.name@
    }

    fn value_on(&self, date: Date) -> (r: i64) {
        if date.days <= self.acquisition_date.days {
            self.initial_value
        } else {
            let days: i64 = date.days - self.acquisition_date.days;
            let f: i64 = growth_factor_fp(self.appreciation_rate, days);
            scale_amount_fp(self.initial_value, f)
        }
    }

    fn acquisition_date(&self) -> (r: Date) {
        self.acquisition_date
    }

    fn name(&self) -> (r: &str) {
        self.name.as_str()
    }
}

} // verus!
