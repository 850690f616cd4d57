//! A common capability for anything that has a value on a given date.

use vstd::prelude::*;

verus! {

use crate::date::Date;
use crate::fixed::amount_ok;

/// Anything that has a value on a given date.
pub trait FinancialInstrument: Sized {
    /// Structural well-formedness of the instrument's numeric fields.
    spec fn inv(&self) -> bool;

    /// The instrument's value on the given date, in the mathematical
    /// model.
    spec fn spec_value_on(&self, date: Date) -> int;

    /// The acquisition (or start) date of the instrument.
    spec fn spec_acquisition_date(&self) -> Date;

    /// The instrument's display name.
    spec fn spec_name(&self) -> Seq<char>;

    /// Computes the value of the instrument on the given date.
    fn value_on(&self, date: Date) -> (r: i64)
        requires
            self.inv(),
            date.wf(),
        ensures
            r as int == self.spec_value_on(date),
            amount_ok(r as int),
    ;

    /// Returns the acquisition date (or start date) of the instrument.
    fn acquisition_date(&self) -> (r: Date)
        ensures
            r == self.spec_acquisition_date(),
    ;

    /// The instrument's display name.
    fn name(&self) -> (r: &str)
        ensures
            r@ == self.spec_name(),
    ;
}

} // verus!
