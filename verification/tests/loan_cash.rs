use wealth_tracker::{AssetTrait, Cash, ContributionFrequency, Date, Loan, Tradable};

fn date(y: i64, m: i64, d: i64) -> Date {
    Date::from_ymd(y, m, d).unwrap()
}

fn loan(value: i64, rate: i64, payment: i64, freq: ContributionFrequency, acq: Date) -> Loan {
    Loan {
        id: None,
        name: "Loan".to_string(),
        value,
        rate_per_year: rate,
        acquisition_date: acq,
        principal_payment: payment,
        principal_frequency: freq,
        should_delete: false,
    }
}

fn cash(value: i64, contribution: i64, freq: ContributionFrequency, acq: Date) -> Cash {
    Cash {
        id: None,
        name: "Cash".to_string(),
        value,
        acquisition_date: acq,
        contribution,
        contribution_frequency: freq,
        should_delete: false,
    }
}

#[test]
fn loan_scenario_twelve_monthly_periods() {
    // 120_000 at 6.00% with 1_000 per 30-day period, queried after
    // exactly twelve full periods (360 days).
    let l = loan(120_000, 600, 1_000, ContributionFrequency::Monthly, date(2024, 1, 1));
    assert_eq!(l.value(date(2024, 12, 26)), 114_960);
}

#[test]
fn loan_single_period() {
    let l = loan(120_000, 600, 1_000, ContributionFrequency::Monthly, date(2024, 1, 1));
    // One accrual of the 30-day factor, then one payment.
    assert_eq!(l.value(date(2024, 1, 31)), 119_591);
}

#[test]
fn loan_value_at_acquisition_is_principal() {
    let l = loan(120_000, 600, 1_000, ContributionFrequency::Monthly, date(2024, 1, 1));
    assert_eq!(l.value(date(2024, 1, 1)), 120_000);
    assert_eq!(l.value(date(2000, 1, 1)), 120_000);
}

#[test]
fn loan_balance_non_increasing_when_payment_covers_interest() {
    let acq = date(2024, 1, 1);
    let l = loan(120_000, 600, 1_000, ContributionFrequency::Monthly, acq);
    let mut prev = l.value(acq);
    for k in 1..200 {
        let d = Date::from_days(acq.days + k * 30).unwrap();
        let v = l.value(d);
        assert!(v <= prev, "balance rose from {prev} to {v} at period {k}");
        assert!(v >= 0);
        prev = v;
    }
}

#[test]
fn loan_is_paid_off_and_floors_at_zero() {
    let acq = date(2024, 1, 1);
    let l = loan(10_000, 100, 2_000, ContributionFrequency::Monthly, acq);
    // Payments of 2_000 exhaust the 1% loan well within a year.
    let d = Date::from_days(acq.days + 12 * 30).unwrap();
    assert_eq!(l.value(d), 0);
}

#[test]
fn loan_weekly_and_yearly_frequencies() {
    let acq = date(2024, 1, 1);
    let weekly = loan(50_000, 400, 100, ContributionFrequency::Weekly, acq);
    let yearly = loan(50_000, 400, 100, ContributionFrequency::Yearly, acq);
    let d = Date::from_days(acq.days + 365).unwrap();
    // 52 weekly payments beat one yearly payment.
    assert!(weekly.value(d) < yearly.value(d));
    assert!(weekly.value(d) >= 0);
}

#[test]
fn cash_ladder_adds_contribution_per_period() {
    let c = cash(500, 250, ContributionFrequency::Monthly, date(2024, 1, 1));
    // 366 elapsed days hold twelve full 30-day periods.
    assert_eq!(c.value(date(2025, 1, 1)), 500 + 12 * 250);
}

#[test]
fn cash_constant_between_period_boundaries() {
    let acq = date(2024, 1, 1);
    let c = cash(500, 250, ContributionFrequency::Monthly, acq);
    let base = c.value(Date::from_days(acq.days + 30).unwrap());
    for extra in 31..60 {
        assert_eq!(c.value(Date::from_days(acq.days + extra).unwrap()), base);
    }
    assert_eq!(c.value(Date::from_days(acq.days + 60).unwrap()), base + 250);
}

#[test]
fn cash_never_negative_with_withdrawals() {
    let acq = date(2024, 1, 1);
    let c = cash(100, -60, ContributionFrequency::Monthly, acq);
    assert_eq!(c.value(Date::from_days(acq.days + 30).unwrap()), 40);
    assert_eq!(c.value(Date::from_days(acq.days + 60).unwrap()), 0);
    for k in 3..20 {
        let v = c.value(Date::from_days(acq.days + k * 30).unwrap());
        assert_eq!(v, 0);
    }
}

#[test]
fn cash_has_no_growth_term() {
    // A cash account ignores rates entirely: only periods matter.
    let acq = date(2024, 1, 1);
    let c = cash(1_000, 0, ContributionFrequency::Weekly, acq);
    assert_eq!(c.value(date(2034, 1, 1)), 1_000);
}

#[test]
fn tradable_compounds_stake_and_contributions() {
    let t = Tradable {
        id: None,
        name: "Stocks".to_string(),
        value: 1_000,
        rate_per_year: 800,
        acquisition_date: date(2024, 1, 1),
        contribution: 100,
        contribution_frequency: ContributionFrequency::Monthly,
        should_delete: false,
    };
    assert_eq!(t.value(date(2024, 1, 1)), 1_000);
    assert_eq!(t.value(date(2023, 1, 1)), 1_000);
    // Twelve monthly contributions, each compounded from its deposit date.
    assert_eq!(t.value(date(2025, 1, 1)), 2_320);
    // Compounding leaves more than the stake plus face-value contributions.
    assert!(t.value(date(2025, 1, 1)) > 1_000 + 12 * 100);
}
