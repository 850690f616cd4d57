//! Calendar dates as plain day numbers.
//!
//! A `Date` holds the number of days since 1970-01-01 (negative for earlier
//! dates).  Proleptic-Gregorian calendar conversion from year/month/day is
//! provided so that callers and tests can construct dates without a calendar
//! library; the engine itself only ever compares day numbers and takes their
//! differences.

use vstd::prelude::*;

verus! {

use vstd::arithmetic::div_mod::lemma_div_is_ordered;
use vstd::arithmetic::div_mod::lemma_div_pos_is_pos;

/// Smallest day number a `Date` may hold.
pub const DAY_MIN: i64 = -4_000_000;

/// Largest day number a `Date` may hold.
pub const DAY_MAX: i64 = 4_000_000;

/// A calendar date, as the number of days since 1970-01-01.
#[derive(Clone, Copy, Debug, PartialEq, Eq, Structural)]
pub struct Date {
    pub days: i64,
}

impl Date {
    /// The day number is within the library's supported range, which covers
    /// the proleptic-Gregorian years 1 through 9999 with room to spare.
    pub open spec fn wf(self) -> bool {
        DAY_MIN <= self.days <= DAY_MAX
    }

    /// Builds a date directly from a day number.
    pub fn from_days(days: i64) -> (r: Option<Date>)
        ensures
            r is Some <==> DAY_MIN <= days <= DAY_MAX,
            r is Some ==> r->0 == (Date { days }) && r->0.wf(),
    {
        if DAY_MIN <= days && days <= DAY_MAX {
            Some(Date { days })
        } else {
            None
        }
    }

    /// Builds a date from a proleptic-Gregorian year, month and day.
    /// Returns `None` exactly when the triple is not a calendar date in
    /// years 1 through 9999.
    pub fn from_ymd(year: i64, month: i64, day: i64) -> (r: Option<Date>)
        ensures
            r is Some <==> valid_ymd(year as int, month as int, day as int),
            r is Some ==> r->0.days == days_from_civil(
                year as int,
                month as int,
                day as int,
            ) && r->0.wf(),
    {
        if !(1 <= year && year <= 9999 && 1 <= month && month <= 12 && 1 <= day) {
            return None;
        }
        if day > days_in_month(year, month) {
            return None;
        }
        let y: u64 = year as u64;
        let m: u64 = month as u64;
        let d: u64 = day as u64;
        let a: u64 = (14 - m) / 12;
        let yy: u64 = y + 4800 - a;
        let mm: u64 = m + 12 * a - 3;
        proof {
            assert(14 - m >= 2);
            assert(a == (14 - month) / 12);
            assert(0 <= a <= 1) by {
                lemma_div_pos_is_pos(14 - month, 12);
                lemma_div_is_ordered(14 - month, 13, 12);
            }
        }
        let q1: u64 = (153 * mm + 2) / 5;
        let q2: u64 = yy / 4;
        let q3: u64 = yy / 100;
        let q4: u64 = yy / 400;
        proof {
            assert(0 <= mm <= 11);
            assert(0 <= q1 <= 337) by {
                lemma_div_pos_is_pos(153 * (mm as int) + 2, 5);
                lemma_div_is_ordered(153 * (mm as int) + 2, 1685, 5);
            }
            assert(4799 <= yy <= 14799);
            assert(1199 <= q2 <= 3699) by {
                lemma_div_is_ordered(4799, yy as int, 4);
                lemma_div_is_ordered(yy as int, 14799, 4);
            }
            assert(47 <= q3 <= 147) by {
                lemma_div_is_ordered(4799, yy as int, 100);
                lemma_div_is_ordered(yy as int, 14799, 100);
            }
            assert(11 <= q4 <= 36) by {
                lemma_div_is_ordered(4799, yy as int, 400);
                lemma_div_is_ordered(yy as int, 14799, 400);
            }
        }
        let sum: u64 = d + q1 + 365 * yy + q2 + q4;
        let jdn: u64 = sum - q3 - 32045;
        let days: i64 = jdn as i64 - 2440588;
        Some(Date { days })
    }
}

/// The triple is a calendar date in years 1 through 9999.
pub open spec fn valid_ymd(y: int, m: int, d: int) -> bool {
    1 <= y <= 9999 && 1 <= m <= 12 && 1 <= d <= spec_days_in_month(y, m)
}

/// The proleptic-Gregorian leap-year rule.
pub open spec fn spec_is_leap_year(y: int) -> bool {
    y % 4 == 0 && (y % 100 != 0 || y % 400 == 0)
}

/// Number of days in the given month.
pub open spec fn spec_days_in_month(y: int, m: int) -> int
    recommends
        1 <= m <= 12,
{
    if m == 2 {
        if spec_is_leap_year(y) {
            29int
        } else {
            28int
        }
    } else if m == 4 || m == 6 || m == 9 || m == 11 {
        30int
    } else {
        31int
    }
}

/// Day number of a proleptic-Gregorian calendar date, relative to
/// 1970-01-01, by the standard Julian-day-number formula.
pub open spec fn days_from_civil(y: int, m: int, d: int) -> int
    recommends
        valid_ymd(y, m, d),
{
    let a = (14 - m) / 12;
    let yy = y + 4800 - a;
    let mm = m + 12 * a - 3;
    d + (153 * mm + 2) / 5 + 365 * yy + yy / 4 - yy / 100 + yy / 400 - 32045 - 2440588
}

/// The leap-year rule, as executable code.
pub fn is_leap_year(y: i64) -> (r: bool)
    requires
        0 <= y,
    ensures
        r == spec_is_leap_year(y as int),
{
    y % 4 == 0 && (y % 100 != 0 || y % 400 == 0)
}

/// Number of days in the given month, as executable code.
pub fn days_in_month(y: i64, m: i64) -> (r: i64)
    requires
        0 <= y,
        1 <= m <= 12,
    ensures
        r == spec_days_in_month(y as int, m as int),
{
    if m == 2 {
        if is_leap_year(y) {
            29
        } else {
            28
        }
    } else if m == 4 || m == 6 || m == 9 || m == 11 {
        30
    } else {
        31
    }
}

} // verus!
