use wealth_tracker::fixed::AMOUNT_CAP;
use wealth_tracker::{Asset, AssetTrait, Date, RealEstate};

fn date(y: i64, m: i64, d: i64) -> Date {
    Date::from_ymd(y, m, d).unwrap()
}

fn house(value: i64, rate: i64, acquired: Date) -> RealEstate {
    RealEstate {
        id: None,
        name: "House".to_string(),
        value,
        rate_per_year: rate,
        acquisition_date: acquired,
        should_delete: false,
    }
}

#[test]
fn value_at_acquisition_is_base_value() {
    let acq = date(2024, 1, 1);
    let re = house(100_000, 500, acq);
    assert_eq!(re.value(acq), 100_000);
}

#[test]
fn value_before_acquisition_is_base_value() {
    let acq = date(2024, 1, 1);
    let re = house(100_000, 500, acq);
    assert_eq!(re.value(date(2020, 6, 15)), 100_000);
    assert_eq!(re.value(date(2023, 12, 31)), 100_000);
}

#[test]
fn negative_base_value_before_acquisition() {
    let acq = date(2024, 1, 1);
    let re = house(-500_000, 300, acq);
    assert_eq!(re.value(date(2023, 1, 1)), -500_000);
    assert_eq!(re.value(acq), -500_000);
}

#[test]
fn real_estate_one_year_growth() {
    // One leap year elapsed: one compounded year plus one prorated day.
    let re = house(100_000, 500, date(2024, 1, 1));
    assert_eq!(re.value(date(2025, 1, 1)), 105_014);
}

#[test]
fn real_estate_scenario_approximately_five_percent() {
    let re = house(100_000, 500, date(2024, 1, 1));
    let v = re.value(date(2025, 1, 1)) as f64;
    let expected = 100_000.0 * 1.05f64.powf(366.0 / 365.0);
    assert!((v - expected).abs() / expected < 0.001);
}

#[test]
fn real_estate_single_day_growth() {
    let re = house(100_000, 500, date(2024, 1, 1));
    assert_eq!(re.value(date(2024, 1, 2)), 100_013);
}

#[test]
fn real_estate_depreciation() {
    let re = house(100_000, -500, date(2024, 1, 1));
    assert_eq!(re.value(date(2025, 1, 1)), 94_986);
}

#[test]
fn real_estate_zero_rate_is_constant() {
    let re = house(100_000, 0, date(2024, 1, 1));
    assert_eq!(re.value(date(2025, 1, 1)), 100_000);
    assert_eq!(re.value(date(2074, 1, 1)), 100_000);
}

#[test]
fn real_estate_monotone_when_rate_positive() {
    let re = house(250_000, 450, date(2024, 1, 1));
    let mut prev = re.value(date(2024, 1, 1));
    for offset in 1..40 {
        let d = Date::from_days(date(2024, 1, 1).days + offset * 37).unwrap();
        let v = re.value(d);
        assert!(v >= prev, "value fell from {prev} to {v}");
        prev = v;
    }
}

#[test]
fn real_estate_monotone_when_rate_negative() {
    let re = house(250_000, -450, date(2024, 1, 1));
    let mut prev = re.value(date(2024, 1, 1));
    for offset in 1..40 {
        let d = Date::from_days(date(2024, 1, 1).days + offset * 37).unwrap();
        let v = re.value(d);
        assert!(v <= prev, "value rose from {prev} to {v}");
        prev = v;
    }
}

#[test]
fn asset_enum_dispatches_to_variant() {
    let acq = date(2024, 1, 1);
    let re = house(100_000, 500, acq);
    let asset = Asset::RealEstate(re.clone());
    assert_eq!(asset.value(date(2025, 1, 1)), re.value(date(2025, 1, 1)));
    assert_eq!(asset.name(), "House");
    assert!(asset.is_growth());
    assert!(!asset.should_delete());
    assert_eq!(asset.uuid(), None);
}

#[test]
fn values_saturate_at_the_caps() {
    let acq = date(2024, 1, 1);
    // A maximal rate compounds the multiplier to its cap within 20 years.
    let explosive = house(1, 100_000, acq);
    let d = Date::from_days(acq.days + 7_300).unwrap();
    assert_eq!(explosive.value(d), 1_000_000_000);
    // A maximal base value clamps to the amount cap instead of overflowing.
    let huge = house(AMOUNT_CAP, 500, acq);
    assert_eq!(huge.value(date(2025, 1, 1)), AMOUNT_CAP);
}

#[test]
fn full_depreciation_reaches_zero() {
    // At -100.00% per year the multiplier hits zero after one whole year.
    let re = house(100_000, -10_000, date(2024, 1, 1));
    assert_eq!(re.value(date(2025, 1, 1)), 0);
    assert!(re.value(date(2024, 6, 1)) > 0);
}
