use wealth_tracker::{Date, FinancialInstrument, Investment, Liability};

fn date(y: i64, m: i64, d: i64) -> Date {
    Date::from_ymd(y, m, d).unwrap()
}

#[test]
fn investment_compounds_from_acquisition() {
    let inv = Investment {
        name: "Index Fund".to_string(),
        initial_value: 50_000,
        appreciation_rate: 700,
        acquisition_date: date(2023, 1, 1),
    };
    assert_eq!(inv.value_on(date(2023, 1, 1)), 50_000);
    assert_eq!(inv.value_on(date(2020, 1, 1)), 50_000);
    // Exactly one 365-day year at 7.00%.
    assert_eq!(inv.value_on(date(2024, 1, 1)), 53_500);
    assert_eq!(inv.acquisition_date(), date(2023, 1, 1));
    assert_eq!(inv.name(), "Index Fund");
}

#[test]
fn liability_is_negative_and_grows_in_magnitude() {
    let debt = Liability {
        name: "Car Loan".to_string(),
        principal: 50_000,
        interest_rate: 700,
        acquisition_date: date(2023, 1, 1),
    };
    assert_eq!(debt.value_on(date(2023, 1, 1)), -50_000);
    assert_eq!(debt.value_on(date(2024, 1, 1)), -53_500);
    assert!(debt.value_on(date(2025, 1, 1)) < -53_500);
    assert_eq!(debt.name(), "Car Loan");
}
