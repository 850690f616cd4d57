use wealth_tracker::{
    Asset, AssetTrait, Cash, ContributionFrequency, Date, Loan, Portfolio, RealEstate,
};

fn date(y: i64, m: i64, d: i64) -> Date {
    Date::from_ymd(y, m, d).unwrap()
}

fn house(name: &str, value: i64, rate: i64) -> Asset {
    Asset::RealEstate(RealEstate {
        id: None,
        name: name.to_string(),
        value,
        rate_per_year: rate,
        acquisition_date: date(2024, 1, 1),
        should_delete: false,
    })
}

fn sample_portfolio() -> Portfolio {
    let mut p = Portfolio::new();
    p.add_asset(house("Primary Residence", 1_000_000, 500));
    p.add_asset(house("Rental Property", -500_000, 300));
    p.add_asset(Asset::Loan(Loan {
        id: None,
        name: "House Loan".to_string(),
        value: 500_000,
        rate_per_year: 700,
        acquisition_date: date(2024, 1, 1),
        principal_payment: 1_000,
        principal_frequency: ContributionFrequency::Monthly,
        should_delete: false,
    }));
    p.add_asset(Asset::Cash(Cash {
        id: None,
        name: "Cash".to_string(),
        value: 10_000,
        acquisition_date: date(2024, 1, 1),
        contribution: 500,
        contribution_frequency: ContributionFrequency::Monthly,
        should_delete: false,
    }));
    p
}

#[test]
fn empty_portfolio_totals_zero() {
    let p = Portfolio::new();
    assert_eq!(p.total_value(date(2024, 6, 1)), 0);
    assert_eq!(p.assets.len(), 0);
}

#[test]
fn total_is_sum_of_holding_values() {
    let p = sample_portfolio();
    for probe in [date(2023, 1, 1), date(2024, 1, 1), date(2025, 7, 19), date(2030, 1, 1)] {
        let by_hand: i64 = p.assets.iter().map(|a| a.value(probe)).sum();
        assert_eq!(p.total_value(probe), by_hand);
    }
}

#[test]
fn add_asset_assigns_fresh_identifiers() {
    let p = sample_portfolio();
    let ids: Vec<u64> = p.assets.iter().map(|a| a.uuid().unwrap()).collect();
    assert_eq!(ids, vec![0, 1, 2, 3]);
    assert_eq!(p.next_id, 4);
}

#[test]
fn add_asset_keeps_free_carried_identifier() {
    let mut p = sample_portfolio();
    p.remove_by_identifier(1);
    // The identifier 1 is free again and below the counter, so a holding
    // that carries it keeps it.
    let mut returning = house("Returning", 42, 0);
    if let Asset::RealEstate(re) = &mut returning {
        re.id = Some(1);
    }
    p.add_asset(returning);
    assert_eq!(p.assets.last().unwrap().uuid(), Some(1));
    assert_eq!(p.next_id, 4);
}

#[test]
fn add_asset_restamps_duplicate_identifier() {
    let mut p = sample_portfolio();
    let mut dup = house("Duplicate", 42, 0);
    if let Asset::RealEstate(re) = &mut dup {
        re.id = Some(2);
    }
    p.add_asset(dup);
    assert_eq!(p.assets.last().unwrap().uuid(), Some(4));
    assert_eq!(p.next_id, 5);
}

#[test]
fn remove_by_identifier_drops_exactly_one() {
    let mut p = sample_portfolio();
    p.remove_by_identifier(2);
    assert_eq!(p.assets.len(), 3);
    assert!(p.assets.iter().all(|a| a.uuid() != Some(2)));
    assert!(!p.contains_id(2));
    assert!(p.contains_id(0));
}

#[test]
fn remove_unknown_identifier_is_a_noop() {
    let mut p = sample_portfolio();
    p.remove_by_identifier(77);
    assert_eq!(p.assets.len(), 4);
    p.remove_by_identifier(2);
    p.remove_by_identifier(2);
    assert_eq!(p.assets.len(), 3);
}

#[test]
fn purge_removes_flagged_holding_and_keeps_totals_of_others() {
    let mut p = sample_portfolio();
    let probe_dates = [date(2024, 1, 1), date(2025, 1, 1), date(2027, 3, 14)];
    let kept_totals: Vec<i64> = probe_dates
        .iter()
        .map(|d| {
            p.assets
                .iter()
                .filter(|a| a.uuid() != Some(1))
                .map(|a| a.value(*d))
                .sum()
        })
        .collect();
    if let Asset::RealEstate(re) = &mut p.assets[1] {
        re.should_delete = true;
    }
    p.purge_marked();
    assert_eq!(p.assets.len(), 3);
    assert!(!p.contains_id(1));
    for (d, expected) in probe_dates.iter().zip(kept_totals) {
        assert_eq!(p.total_value(*d), expected);
    }
}

#[test]
fn purge_tolerates_multiple_flags() {
    let mut p = sample_portfolio();
    if let Asset::RealEstate(re) = &mut p.assets[0] {
        re.should_delete = true;
    }
    if let Asset::Cash(c) = &mut p.assets[3] {
        c.should_delete = true;
    }
    p.purge_marked();
    assert_eq!(p.assets.len(), 2);
    let names: Vec<String> = p.assets.iter().map(|a| a.name()).collect();
    assert_eq!(names, vec!["Rental Property".to_string(), "House Loan".to_string()]);
}

#[test]
fn purge_with_no_flags_changes_nothing() {
    let mut p = sample_portfolio();
    p.purge_marked();
    assert_eq!(p.assets.len(), 4);
}

#[test]
fn identifiers_are_never_reused_after_removal() {
    let mut p = Portfolio::new();
    p.add_asset(house("A", 1, 0));
    p.add_asset(house("B", 2, 0));
    p.remove_by_identifier(1);
    p.add_asset(house("C", 3, 0));
    assert_eq!(p.assets.last().unwrap().uuid(), Some(2));
}
