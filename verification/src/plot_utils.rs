//! Time-series sampling and chart support: fixed-step (date, value) series
//! for one holding or the whole portfolio, extremes of a series, and the
//! deterministic byte fold used to derive chart colors from identifiers.

use vstd::prelude::*;

verus! {

use crate::asset::Asset;
use crate::asset::AssetTrait;
use crate::date::Date;
use crate::fixed::amount_ok;
use crate::fixed::lemma_mod_range;
use crate::fixed::sat_add;
use crate::portfolio::total_at;
use crate::portfolio::Portfolio;
use vstd::arithmetic::div_mod::lemma_fundamental_div_mod;
use vstd::arithmetic::mul::lemma_mul_inequality;
use vstd::arithmetic::mul::lemma_mul_is_commutative;

/// Number of samples a fixed-step walk emits: one per step from `start`
/// up to and including the last step date not beyond `end`.
pub open spec fn sample_count(start: int, end: int, step: int) -> nat
    recommends
        step >= 1,
{
    if start > end {
        0
    } else {
        ((end - start) / step + 1) as nat
    }
}

/// Day number of the `i`-th sample.
pub open spec fn sample_day(start: int, step: int, i: int) -> int {
    start + i * step
}

/// One holding's sampled values: the `i`-th entry is the holding's value
/// on the `i`-th sample date.
pub open spec fn asset_series_values(asset: Asset, start: int, step: int, n: nat) -> Seq<int> {
    Seq::new(n, |i: int| asset.spec_value(Date { days: sample_day(start, step, i) as i64 }))
}

/// Index-wise saturating sum of the holdings' sampled series, in portfolio
/// order; all zeros for an empty portfolio.
pub open spec fn summed_series_values(assets: Seq<Asset>, start: int, step: int, n: nat) -> Seq<
    int,
>
    decreases assets.len(),
{
    if assets.len() == 0 {
        Seq::new(n, |i: int| 0)
    } else {
        let prev = summed_series_values(assets.drop_last(), start, step, n);
        let lastv = asset_series_values(assets.last(), start, step, n);
        Seq::new(n, |i: int| sat_add(prev[i], lastv[i]))
    }
}

/// The portfolio total sampled directly: the `i`-th entry is the sum of
/// every holding's value on the `i`-th sample date.
pub open spec fn portfolio_series_values(
    assets: Seq<Asset>,
    start: int,
    step: int,
    n: nat,
) -> Seq<int> {
    Seq::new(n, |i: int| total_at(assets, Date { days: sample_day(start, step, i) as i64 }))
}

/// Summing per-holding sampled series index-wise equals sampling the
/// portfolio total directly, for the same start, step and sample count.
pub proof fn lemma_sampling_equivalence(assets: Seq<Asset>, start: int, step: int, n: nat)
    ensures
        summed_series_values(assets, start, step, n) == portfolio_series_values(
            assets,
            start,
            step,
            n,
        ),
    decreases assets.len(),
{
    if assets.len() == 0 {
        assert(summed_series_values(assets, start, step, n) =~= portfolio_series_values(
            assets,
            start,
            step,
            n,
        ));
    } else {
        lemma_sampling_equivalence(assets.drop_last(), start, step, n);
        assert(summed_series_values(assets, start, step, n) =~= portfolio_series_values(
            assets,
            start,
            step,
            n,
        ));
    }
}

/// Largest of the values, starting from `acc`.
pub open spec fn fold_max(values: Seq<int>, acc: int) -> int
    decreases values.len(),
{
    if values.len() == 0 {
        acc
    } else {
        let m = fold_max(values.drop_last(), acc);
        if values.last() > m {
            values.last()
        } else {
            m
        }
    }
}

/// Smallest of the values, starting from `acc`.
pub open spec fn fold_min(values: Seq<int>, acc: int) -> int
    decreases values.len(),
{
    if values.len() == 0 {
        acc
    } else {
        let m = fold_min(values.drop_last(), acc);
        if values.last() < m {
            values.last()
        } else {
            m
        }
    }
}

/// Samples one holding's value over `[start_date, end_date]` at a fixed
/// step of `interval_days` days.  The first sample falls on `start_date`;
/// later samples step forward by the interval and never pass `end_date`;
/// a reversed range yields the empty series.
#[verifier::loop_isolation(false)]
pub fn get_value_points_for_asset(
    asset: &Asset,
    start_date: Date,
    end_date: Date,
    interval_days: i64,
) -> (r: Vec<(Date, i64)>)
    requires
        asset.inv(),
        start_date.wf(),
        end_date.wf(),
        1 <= interval_days,
    ensures
        r@.len() == sample_count(start_date.days as int, end_date.days as int, interval_days as int),
        forall|i: int|
            0 <= i < r@.len() ==> (#[trigger] r@[i]).0.days as int == sample_day(
                start_date.days as int,
                interval_days as int,
                i,
            ),
        forall|i: int| 0 <= i < r@.len() ==> (#[trigger] r@[i]).0.wf(),
        forall|i: int|
            0 <= i < r@.len() ==> (#[trigger] r@[i]).1 as int == asset.spec_value(r@[i].0),
        forall|i: int| 0 <= i < r@.len() ==> amount_ok((#[trigger] r@[i]).1 as int),
{
    let mut out: Vec<(Date, i64)> = Vec::new();
    let s: i64 = start_date.days;
    let e: i64 = end_date.days;
    if s > e {
        return out;
    }
    let span: u64 = (e - s) as u64;
    let count: u64 = span / (interval_days as u64) + 1;
    proof {
        lemma_mod_range(span as int, interval_days as int);
        lemma_fundamental_div_mod(span as int, interval_days as int);
    }
    let mut k: u64 = 0;
    while k < count
        invariant
            k <= count,
            out@.len() == k,
            forall|i: int|
                0 <= i < k ==> (#[trigger] out@[i]).0.days as int == sample_day(
                    s as int,
                    interval_days as int,
                    i,
                ),
            forall|i: int| 0 <= i < k ==> (#[trigger] out@[i]).0.wf(),
            forall|i: int|
                0 <= i < k ==> (#[trigger] out@[i]).1 as int == asset.spec_value(out@[i].0),
            forall|i: int| 0 <= i < k ==> amount_ok((#[trigger] out@[i]).1 as int),
        decreases count - k,
    {
        proof {
            lemma_mul_inequality(k as int, (span as int) / (interval_days as int), interval_days as int);
            lemma_mul_is_commutative((span as int) / (interval_days as int), interval_days as int);
        }
        let offset: u64 = k * (interval_days as u64);
        let d = Date { days: s + offset as i64 };
        let v: i64 = asset.value(d);
        out.push((d, v));
        k = k + 1;
    }
    out
}

/// Samples the portfolio's total value over `[start_date, end_date]` at a
/// fixed step of `interval_days` days, by the same walk as the per-holding
/// sampler.
#[verifier::loop_isolation(false)]
pub fn get_portfolio_value_points(
    portfolio: &Portfolio,
    start_date: Date,
    end_date: Date,
    interval_days: i64,
) -> (r: Vec<(Date, i64)>)
    requires
        portfolio.wf(),
        start_date.wf(),
        end_date.wf(),
        1 <= interval_days,
    ensures
        r@.len() == sample_count(start_date.days as int, end_date.days as int, interval_days as int),
        forall|i: int|
            0 <= i < r@.len() ==> (#[trigger] r@[i]).0.days as int == sample_day(
                start_date.days as int,
                interval_days as int,
                i,
            ),
        forall|i: int| 0 <= i < r@.len() ==> (#[trigger] r@[i]).0.wf(),
        forall|i: int|
            0 <= i < r@.len() ==> (#[trigger] r@[i]).1 as int == total_at(
                portfolio.assets@,
                r@[i].0,
            ),
{
    let mut out: Vec<(Date, i64)> = Vec::new();
    let s: i64 = start_date.days;
    let e: i64 = end_date.days;
    if s > e {
        return out;
    }
    let span: u64 = (e - s) as u64;
    let count: u64 = span / (interval_days as u64) + 1;
    proof {
        lemma_mod_range(span as int, interval_days as int);
        lemma_fundamental_div_mod(span as int, interval_days as int);
    }
    let mut k: u64 = 0;
    while k < count
        invariant
            k <= count,
            out@.len() == k,
            forall|i: int|
                0 <= i < k ==> (#[trigger] out@[i]).0.days as int == sample_day(
                    s as int,
                    interval_days as int,
                    i,
                ),
            forall|i: int| 0 <= i < k ==> (#[trigger] out@[i]).0.wf(),
            forall|i: int|
                0 <= i < k ==> (#[trigger] out@[i]).1 as int == total_at(
                    portfolio.assets@,
                    out@[i].0,
                ),
        decreases count - k,
    {
        proof {
            lemma_mul_inequality(k as int, (span as int) / (interval_days as int), interval_days as int);
            lemma_mul_is_commutative((span as int) / (interval_days as int), interval_days as int);
        }
        let offset: u64 = k * (interval_days as u64);
        let d = Date { days: s + offset as i64 };
        let v: i64 = portfolio.total_value(d);
        out.push((d, v));
        k = k + 1;
    }
    out
}

/// Minimum and maximum value of a non-empty series, by a linear scan.
#[verifier::loop_isolation(false)]
pub fn extremes(series: &Vec<(Date, i64)>) -> (r: (i64, i64))
    requires
        series@.len() > 0,
    ensures
        forall|i: int| 0 <= i < series@.len() ==> r.0 <= (#[trigger] series@[i]).1,
        forall|i: int| 0 <= i < series@.len() ==> (#[trigger] series@[i]).1 <= r.1,
        exists|i: int| 0 <= i < series@.len() && (#[trigger] series@[i]).1 == r.0,
        exists|i: int| 0 <= i < series@.len() && (#[trigger] series@[i]).1 == r.1,
{
    let first: i64 = series[0].1;
    let mut lo: i64 = first;
    let mut hi: i64 = first;
    let n = series.len();
    let mut i: usize = 1;
    while i < n
        invariant
            1 <= i <= n,
            forall|k: int| 0 <= k < i ==> lo <= (#[trigger] series@[k]).1,
            forall|k: int| 0 <= k < i ==> (#[trigger] series@[k]).1 <= hi,
            exists|k: int| 0 <= k < i && (#[trigger] series@[k]).1 == lo,
            exists|k: int| 0 <= k < i && (#[trigger] series@[k]).1 == hi,
        decreases n - i,
    {
        let v: i64 = series[i].1;
        if v < lo {
            lo = v;
        }
        if v > hi {
            hi = v;
        }
        i = i + 1;
    }
    (lo, hi)
}

/// XOR-fold of a byte sequence.
pub open spec fn xor_fold(bytes: Seq<u8>) -> u8
    decreases bytes.len(),
{
    if bytes.len() == 0 {
        0u8
    } else {
        xor_fold(bytes.drop_last()) ^ bytes.last()
    }
}

/// XOR of all sixteen octets, as executable code.
#[verifier::loop_isolation(false)]
pub fn xor_octets(bytes: &[u8; 16]) -> (r: u8)
    ensures
        r == xor_fold(bytes@),
{
    let mut acc: u8 = 0;
    let mut i: usize = 0;
    while i < 16
        invariant
            i <= 16,
            acc == xor_fold(bytes@.take(i as int)),
        decreases 16 - i,
    {
        proof {
            assert(bytes@.take(i + 1).drop_last() =~= bytes@.take(i as int));
            assert(bytes@.take(i + 1).last() == bytes@[i as int]);
        }
        acc = acc ^ bytes[i];
        i = i + 1;
    }
    proof {
        assert(bytes@.take(16) =~= bytes@);
    }
    acc
}

#[verifier::external_type_specification]
#[verifier::external_body]
pub struct ExUuid(uuid::Uuid);

/// Relies on uuid::Uuid::as_bytes for the sixteen raw octets of the
/// identifier, copied out of the borrow.
#[verifier::external_body]
fn uuid_octets(uuid: &uuid::Uuid) -> (r: [u8; 16])
    ensures
        r@.len() == 16,
{
    *uuid.as_bytes()
}

/// Folds an identifier's sixteen octets into a single byte, used by the
/// presentation layer to derive a stable chart color per holding.
pub fn get_random_bytes_from_uuid(uuid: &uuid::Uuid) -> (r: u8) {
    let bytes = uuid_octets(uuid);
    xor_octets(&bytes)
}

} // verus!
