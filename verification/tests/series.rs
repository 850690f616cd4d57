use wealth_tracker::{
    extremes, get_portfolio_value_points, get_value_points_for_asset, Asset, AssetTrait, Cash,
    ContributionFrequency, Date, Portfolio, RealEstate,
};

fn date(y: i64, m: i64, d: i64) -> Date {
    Date::from_ymd(y, m, d).unwrap()
}

fn house(name: &str, value: i64, rate: i64) -> Asset {
    Asset::RealEstate(RealEstate {
        id: None,
        name: name.to_string(),
        value,
        rate_per_year: rate,
        acquisition_date: date(2024, 1, 1),
        should_delete: false,
    })
}

fn two_asset_portfolio() -> Portfolio {
    let mut p = Portfolio::new();
    p.add_asset(house("Growing", 100_000, 500));
    p.add_asset(Asset::Cash(Cash {
        id: None,
        name: "Cash".to_string(),
        value: 5_000,
        acquisition_date: date(2024, 1, 1),
        contribution: 100,
        contribution_frequency: ContributionFrequency::Monthly,
        should_delete: false,
    }));
    p
}

#[test]
fn sampler_walks_range_inclusive_of_start() {
    let a = house("H", 100_000, 500);
    let points = get_value_points_for_asset(&a, date(2024, 1, 1), date(2024, 3, 1), 10);
    // 60 days span at step 10: samples at offsets 0,10,...,60.
    assert_eq!(points.len(), 7);
    assert_eq!(points[0].0, date(2024, 1, 1));
    assert_eq!(points[6].0, date(2024, 3, 1));
    for (i, (d, v)) in points.iter().enumerate() {
        assert_eq!(d.days, date(2024, 1, 1).days + 10 * i as i64);
        assert_eq!(*v, a.value(*d));
    }
}

#[test]
fn sampler_last_point_never_passes_end() {
    let a = house("H", 100_000, 500);
    let points = get_value_points_for_asset(&a, date(2024, 1, 1), date(2024, 1, 25), 7);
    assert_eq!(points.len(), 4);
    assert_eq!(points[3].0.days, date(2024, 1, 1).days + 21);
}

#[test]
fn sampler_reversed_range_is_empty() {
    let a = house("H", 100_000, 500);
    let points = get_value_points_for_asset(&a, date(2024, 2, 1), date(2024, 1, 1), 7);
    assert!(points.is_empty());
}

#[test]
fn sampler_single_point_when_start_equals_end() {
    let a = house("H", 100_000, 500);
    let points = get_value_points_for_asset(&a, date(2024, 2, 1), date(2024, 2, 1), 45);
    assert_eq!(points.len(), 1);
    assert_eq!(points[0].1, a.value(date(2024, 2, 1)));
}

#[test]
fn sampling_equivalence_summed_series_matches_portfolio_series() {
    let p = two_asset_portfolio();
    let start = date(2024, 1, 1);
    let end = date(2026, 1, 1);
    let step = 45;
    let whole = get_portfolio_value_points(&p, start, end, step);
    let per_asset: Vec<Vec<(Date, i64)>> = p
        .assets
        .iter()
        .map(|a| get_value_points_for_asset(a, start, end, step))
        .collect();
    for (i, (d, total)) in whole.iter().enumerate() {
        let summed: i64 = per_asset.iter().map(|series| series[i].1).collect::<Vec<_>>().iter().sum();
        assert_eq!(*total, summed, "mismatch at index {i}");
        assert_eq!(per_asset[0][i].0, *d);
    }
}

#[test]
fn portfolio_series_matches_total_value() {
    let p = two_asset_portfolio();
    let points = get_portfolio_value_points(&p, date(2024, 1, 1), date(2025, 1, 1), 30);
    for (d, v) in points.iter() {
        assert_eq!(*v, p.total_value(*d));
    }
}

#[test]
fn extremes_bound_every_value_of_a_series() {
    let a = house("H", 100_000, 500);
    let points = get_value_points_for_asset(&a, date(2024, 1, 1), date(2030, 1, 1), 33);
    let (lo, hi) = extremes(&points);
    for (_, v) in points.iter() {
        assert!(lo <= *v && *v <= hi);
    }
    assert!(points.iter().any(|(_, v)| *v == lo));
    assert!(points.iter().any(|(_, v)| *v == hi));
}

#[test]
fn extremes_of_constant_series_collapse() {
    let a = house("H", 7_500, 0);
    let points = get_value_points_for_asset(&a, date(2024, 1, 1), date(2025, 1, 1), 20);
    assert_eq!(extremes(&points), (7_500, 7_500));
}

#[test]
fn max_value_is_largest_summed_sample() {
    let p = two_asset_portfolio();
    let start = date(2024, 1, 1);
    let end = date(2026, 1, 1);
    let points = get_portfolio_value_points(&p, start, end, 45);
    let expect = points.iter().map(|(_, v)| *v).fold(0i64, i64::max);
    assert_eq!(p.max_value(start, end, 45), expect);
}

#[test]
fn min_value_is_smallest_summed_sample() {
    let p = two_asset_portfolio();
    let start = date(2024, 1, 1);
    let end = date(2026, 1, 1);
    let points = get_portfolio_value_points(&p, start, end, 45);
    let expect = points.iter().map(|(_, v)| *v).fold(i64::MAX, i64::min);
    assert_eq!(p.min_value(start, end, 45), expect);
}

#[test]
fn max_value_of_empty_portfolio_is_zero() {
    let p = Portfolio::new();
    assert_eq!(p.max_value(date(2024, 1, 1), date(2025, 1, 1), 30), 0);
    assert_eq!(p.min_value(date(2024, 1, 1), date(2025, 1, 1), 30), i64::MAX);
}

#[test]
fn max_value_floors_at_zero_for_all_negative_sums() {
    let mut p = Portfolio::new();
    p.add_asset(house("Liability", -50_000, 300));
    // Every summed sample is negative, so the scan's neutral zero wins.
    assert_eq!(p.max_value(date(2024, 1, 1), date(2025, 1, 1), 30), 0);
    assert!(p.min_value(date(2024, 1, 1), date(2025, 1, 1), 30) <= -50_000);
}
