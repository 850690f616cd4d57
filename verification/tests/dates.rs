use chrono::Datelike;
use wealth_tracker::Date;

#[test]
fn epoch_is_day_zero() {
    assert_eq!(Date::from_ymd(1970, 1, 1).unwrap().days, 0);
}

#[test]
fn known_day_numbers() {
    assert_eq!(Date::from_ymd(2024, 1, 1).unwrap().days, 19_723);
    assert_eq!(Date::from_ymd(2025, 1, 1).unwrap().days, 20_089);
    assert_eq!(Date::from_ymd(2024, 12, 26).unwrap().days, 20_083);
    assert_eq!(Date::from_ymd(1, 1, 1).unwrap().days, -719_162);
    assert_eq!(Date::from_ymd(9999, 12, 31).unwrap().days, 2_932_896);
}

#[test]
fn agrees_with_chrono_on_many_dates() {
    let epoch = chrono::NaiveDate::from_ymd_opt(1970, 1, 1).unwrap();
    for (y, m, d) in [
        (1970, 1, 1),
        (1969, 12, 31),
        (1600, 2, 29),
        (1900, 3, 1),
        (2000, 2, 29),
        (2023, 12, 31),
        (2024, 2, 29),
        (2024, 3, 1),
        (2100, 2, 28),
        (9999, 12, 31),
        (1, 1, 1),
    ] {
        let ours = Date::from_ymd(y, m, d).unwrap().days;
        let theirs =
            (chrono::NaiveDate::from_ymd_opt(y as i32, m as u32, d as u32).unwrap() - epoch)
                .num_days();
        assert_eq!(ours, theirs, "mismatch for {y}-{m}-{d}");
    }
}

#[test]
fn agrees_with_chrono_across_a_leap_cycle() {
    let epoch = chrono::NaiveDate::from_ymd_opt(1970, 1, 1).unwrap();
    let mut day = chrono::NaiveDate::from_ymd_opt(1999, 1, 1).unwrap();
    for _ in 0..1500 {
        let ours = Date::from_ymd(day.year() as i64, day.month() as i64, day.day() as i64)
            .unwrap()
            .days;
        assert_eq!(ours, (day - epoch).num_days());
        day = day.succ_opt().unwrap();
    }
}

#[test]
fn rejects_invalid_dates() {
    assert!(Date::from_ymd(2024, 0, 1).is_none());
    assert!(Date::from_ymd(2024, 13, 1).is_none());
    assert!(Date::from_ymd(2024, 1, 0).is_none());
    assert!(Date::from_ymd(2024, 1, 32).is_none());
    assert!(Date::from_ymd(2023, 2, 29).is_none());
    assert!(Date::from_ymd(2024, 2, 30).is_none());
    assert!(Date::from_ymd(1900, 2, 29).is_none());
    assert!(Date::from_ymd(2000, 2, 29).is_some());
    assert!(Date::from_ymd(0, 1, 1).is_none());
    assert!(Date::from_ymd(10_000, 1, 1).is_none());
    assert!(Date::from_ymd(-5, 1, 1).is_none());
}

#[test]
fn from_days_bounds() {
    assert!(Date::from_days(0).is_some());
    assert!(Date::from_days(4_000_000).is_some());
    assert!(Date::from_days(-4_000_000).is_some());
    assert!(Date::from_days(4_000_001).is_none());
    assert!(Date::from_days(i64::MAX).is_none());
}
