//! The holding registry: an ordered, owned collection of holdings with
//! identifier assignment, lookup-free removal, and portfolio-level
//! valuation.
//!
//! Invariant: every live holding carries an identifier, no two live
//! holdings share one, and every identifier is below the registry's
//! counter — so a freshly assigned identifier can never collide with a
//! live one, nor reuse one that a removed holding carried.

use vstd::prelude::*;

verus! {

use crate::asset::set_asset_id;
use crate::asset::spec_with_id;
use crate::asset::lemma_with_id_same_model;
use crate::asset::Asset;
use crate::asset::AssetTrait;
use crate::date::Date;
use crate::fixed::amount_ok;
use crate::fixed::sat_add;
use crate::fixed::sat_add_amount;
use crate::plot_utils::asset_series_values;
use crate::plot_utils::fold_max;
use crate::plot_utils::fold_min;
use crate::plot_utils::get_value_points_for_asset;
use crate::plot_utils::sample_count;
use crate::plot_utils::sample_day;
use crate::plot_utils::summed_series_values;

/// Saturating sum of the holdings' values on the given date, accumulated
/// in portfolio order; the empty portfolio sums to zero.
pub open spec fn total_at(assets: Seq<Asset>, date: Date) -> int
    decreases assets.len(),
{
    if assets.len() == 0 {
        0
    } else {
        sat_add(total_at(assets.drop_last(), date), assets.last().spec_value(date))
    }
}

/// Some live holding carries the identifier.
pub open spec fn spec_has_id(assets: Seq<Asset>, id: u64) -> bool {
    exists|i: int| 0 <= i < assets.len() && (#[trigger] assets[i]).spec_uuid() == Some(id)
}

/// Registry invariant over the holdings and the identifier counter.
pub open spec fn holdings_wf(assets: Seq<Asset>, next_id: u64) -> bool {
    &&& forall|i: int| 0 <= i < assets.len() ==> (#[trigger] assets[i]).inv()
    &&& forall|i: int| 0 <= i < assets.len() ==> (#[trigger] assets[i]).spec_uuid() is Some
    &&& forall|i: int|
        0 <= i < assets.len() ==> (#[trigger] assets[i]).spec_uuid()->0 < next_id
    &&& forall|i: int, j: int|
        0 <= i < j < assets.len() ==> (#[trigger] assets[i]).spec_uuid() != (
        #[trigger] assets[j]).spec_uuid()
}

/// The holdings left after a maintenance pass: those not flagged for
/// removal, in their original order.
pub open spec fn purge_flagged(assets: Seq<Asset>) -> Seq<Asset>
    decreases assets.len(),
{
    if assets.len() == 0 {
        Seq::empty()
    } else {
        let rest = purge_flagged(assets.drop_last());
        if assets.last().spec_should_delete() {
            rest
        } else {
            rest.push(assets.last())
        }
    }
}

/// The holdings left after removing those that carry the identifier, in
/// their original order.
pub open spec fn remove_id(assets: Seq<Asset>, id: u64) -> Seq<Asset>
    decreases assets.len(),
{
    if assets.len() == 0 {
        Seq::empty()
    } else {
        let rest = remove_id(assets.drop_last(), id);
        if assets.last().spec_uuid() == Some(id) {
            rest
        } else {
            rest.push(assets.last())
        }
    }
}

/// A maintenance pass introduces no identifier that was not live before.
proof fn lemma_purge_ids(assets: Seq<Asset>)
    ensures
        forall|id: u64|
            #[trigger] spec_has_id(purge_flagged(assets), id) ==> spec_has_id(assets, id),
    decreases assets.len(),
{
    if assets.len() > 0 {
        lemma_purge_ids(assets.drop_last());
        assert forall|id: u64|
            #[trigger] spec_has_id(purge_flagged(assets), id) implies spec_has_id(
            assets,
            id,
        ) by {
            let p = purge_flagged(assets);
            let i = choose|i: int| 0 <= i < p.len() && (#[trigger] p[i]).spec_uuid() == Some(id);
            let rest = purge_flagged(assets.drop_last());
            if i < rest.len() {
                assert(spec_has_id(rest, id));
                assert(spec_has_id(assets.drop_last(), id));
                let k = choose|k: int|
                    0 <= k < assets.drop_last().len() && (#[trigger] assets.drop_last()[
                        k
                    ]).spec_uuid() == Some(id);
                assert(assets[k].spec_uuid() == Some(id));
            } else {
                assert(p[i] == assets.last());
                assert(assets[assets.len() - 1].spec_uuid() == Some(id));
            }
        }
    }
}

/// A maintenance pass preserves the registry invariant.
proof fn lemma_purge_wf(assets: Seq<Asset>, next_id: u64)
    requires
        holdings_wf(assets, next_id),
    ensures
        holdings_wf(purge_flagged(assets), next_id),
    decreases assets.len(),
{
    if assets.len() > 0 {
        let rest_src = assets.drop_last();
        assert forall|i: int| 0 <= i < rest_src.len() implies (#[trigger] rest_src[i]).inv()
            && rest_src[i].spec_uuid() is Some && rest_src[i].spec_uuid()->0 < next_id by {
            assert(rest_src[i] == assets[i]);
        }
        lemma_purge_wf(rest_src, next_id);
        lemma_purge_ids(rest_src);
        let rest = purge_flagged(rest_src);
        let last = assets.last();
        if !last.spec_should_delete() {
            let lid = last.spec_uuid();
            assert forall|i: int| 0 <= i < rest.len() implies (#[trigger] rest[i]).spec_uuid()
                != lid by {
                if rest[i].spec_uuid() == lid {
                    assert(spec_has_id(rest, lid->0));
                    assert(spec_has_id(rest_src, lid->0));
                    let k = choose|k: int|
                        0 <= k < rest_src.len() && (#[trigger] rest_src[k]).spec_uuid() == Some(
                            lid->0,
                        );
                    assert(assets[k].spec_uuid() == assets[assets.len() - 1].spec_uuid());
                }
            }
        }
    }
}

/// Removal by identifier introduces no identifier that was not live
/// before, and leaves none equal to the removed one.
proof fn lemma_remove_id_ids(assets: Seq<Asset>, id: u64)
    ensures
        forall|x: u64|
            #[trigger] spec_has_id(remove_id(assets, id), x) ==> spec_has_id(assets, x),
        !spec_has_id(remove_id(assets, id), id),
    decreases assets.len(),
{
    if assets.len() > 0 {
        lemma_remove_id_ids(assets.drop_last(), id);
        assert forall|x: u64|
            #[trigger] spec_has_id(remove_id(assets, id), x) implies spec_has_id(
            assets,
            x,
        ) by {
            let p = remove_id(assets, id);
            let i = choose|i: int| 0 <= i < p.len() && (#[trigger] p[i]).spec_uuid() == Some(x);
            let rest = remove_id(assets.drop_last(), id);
            if i < rest.len() {
                assert(spec_has_id(rest, x));
                let k = choose|k: int|
                    0 <= k < assets.drop_last().len() && (#[trigger] assets.drop_last()[
                        k
                    ]).spec_uuid() == Some(x);
                assert(assets[k].spec_uuid() == Some(x));
            } else {
                assert(p[i] == assets.last());
                assert(assets[assets.len() - 1].spec_uuid() == Some(x));
            }
        }
        let p = remove_id(assets, id);
        if spec_has_id(p, id) {
            let i = choose|i: int| 0 <= i < p.len() && (#[trigger] p[i]).spec_uuid() == Some(id);
            let rest = remove_id(assets.drop_last(), id);
            if i < rest.len() {
                assert(spec_has_id(rest, id));
            } else {
                assert(p[i] == assets.last());
            }
        }
    }
}

/// Removal by identifier preserves the registry invariant.
proof fn lemma_remove_id_wf(assets: Seq<Asset>, id: u64, next_id: u64)
    requires
        holdings_wf(assets, next_id),
    ensures
        holdings_wf(remove_id(assets, id), next_id),
    decreases assets.len(),
{
    if assets.len() > 0 {
        let rest_src = assets.drop_last();
        assert forall|i: int| 0 <= i < rest_src.len() implies (#[trigger] rest_src[i]).inv()
            && rest_src[i].spec_uuid() is Some && rest_src[i].spec_uuid()->0 < next_id by {
            assert(rest_src[i] == assets[i]);
        }
        lemma_remove_id_wf(rest_src, id, next_id);
        lemma_remove_id_ids(rest_src, id);
        let rest = remove_id(rest_src, id);
        let last = assets.last();
        if last.spec_uuid() != Some(id) {
            let lid = last.spec_uuid();
            assert forall|i: int| 0 <= i < rest.len() implies (#[trigger] rest[i]).spec_uuid()
                != lid by {
                if rest[i].spec_uuid() == lid {
                    assert(spec_has_id(rest, lid->0));
                    assert(spec_has_id(rest_src, lid->0));
                    let k = choose|k: int|
                        0 <= k < rest_src.len() && (#[trigger] rest_src[k]).spec_uuid() == Some(
                            lid->0,
                        );
                    assert(assets[k].spec_uuid() == assets[assets.len() - 1].spec_uuid());
                }
            }
        }
    }
}

/// Removing an identifier that no live holding carries changes nothing.
proof fn lemma_remove_id_absent(assets: Seq<Asset>, id: u64)
    requires
        !spec_has_id(assets, id),
    ensures
        remove_id(assets, id) == assets,
    decreases assets.len(),
{
    if assets.len() == 0 {
        assert(remove_id(assets, id) =~= assets);
    } else {
        let rest_src = assets.drop_last();
        assert(assets[assets.len() - 1].spec_uuid() != Some(id));
        assert(!spec_has_id(rest_src, id)) by {
            if spec_has_id(rest_src, id) {
                let k = choose|k: int|
                    0 <= k < rest_src.len() && (#[trigger] rest_src[k]).spec_uuid() == Some(id);
                assert(assets[k].spec_uuid() == Some(id));
            }
        }
        lemma_remove_id_absent(rest_src, id);
        assert(remove_id(assets, id) =~= assets);
    }
}

/// When exactly one holding carries the identifier, removal by identifier
/// deletes exactly that holding.
proof fn lemma_remove_id_at(assets: Seq<Asset>, id: u64, idx: int)
    requires
        0 <= idx < assets.len(),
        assets[idx].spec_uuid() == Some(id),
        forall|i: int|
            0 <= i < assets.len() && i != idx ==> (#[trigger] assets[i]).spec_uuid() != Some(id),
    ensures
        remove_id(assets, id) == assets.remove(idx),
    decreases assets.len(),
{
    let rest_src = assets.drop_last();
    if idx == assets.len() - 1 {
        assert(!spec_has_id(rest_src, id)) by {
            if spec_has_id(rest_src, id) {
                let k = choose|k: int|
                    0 <= k < rest_src.len() && (#[trigger] rest_src[k]).spec_uuid() == Some(id);
                assert(assets[k].spec_uuid() == Some(id));
            }
        }
        lemma_remove_id_absent(rest_src, id);
        assert(remove_id(assets, id) =~= assets.remove(idx));
    } else {
        assert forall|i: int|
            0 <= i < rest_src.len() && i != idx implies (#[trigger] rest_src[i]).spec_uuid()
            != Some(id) by {
            assert(rest_src[i] == assets[i]);
        }
        assert(rest_src[idx] == assets[idx]);
        lemma_remove_id_at(rest_src, id, idx);
        assert(assets[assets.len() - 1].spec_uuid() != Some(id));
        assert(remove_id(assets, id) =~= assets.remove(idx));
    }
}

/// Purging leaves a portfolio with no flagged holding unchanged.
pub proof fn lemma_purge_none(assets: Seq<Asset>)
    requires
        forall|i: int| 0 <= i < assets.len() ==> !(#[trigger] assets[i]).spec_should_delete(),
    ensures
        purge_flagged(assets) == assets,
    decreases assets.len(),
{
    if assets.len() == 0 {
        assert(purge_flagged(assets) =~= assets);
    } else {
        let rest_src = assets.drop_last();
        assert forall|i: int| 0 <= i < rest_src.len() implies !(#[trigger] rest_src[
            i
        ]).spec_should_delete() by {
            assert(rest_src[i] == assets[i]);
        }
        lemma_purge_none(rest_src);
        assert(!assets[assets.len() - 1].spec_should_delete());
        assert(purge_flagged(assets) =~= assets);
    }
}

/// When exactly one holding is flagged, the maintenance pass removes
/// exactly that holding and leaves every other holding unchanged.
pub proof fn lemma_purge_single(assets: Seq<Asset>, idx: int)
    requires
        0 <= idx < assets.len(),
        assets[idx].spec_should_delete(),
        forall|i: int|
            0 <= i < assets.len() && i != idx ==> !(#[trigger] assets[i]).spec_should_delete(),
    ensures
        purge_flagged(assets) == assets.remove(idx),
    decreases assets.len(),
{
    let rest_src = assets.drop_last();
    if idx == assets.len() - 1 {
        assert forall|i: int| 0 <= i < rest_src.len() implies !(#[trigger] rest_src[
            i
        ]).spec_should_delete() by {
            assert(rest_src[i] == assets[i]);
        }
        lemma_purge_none(rest_src);
        assert(purge_flagged(assets) =~= assets.remove(idx));
    } else {
        assert forall|i: int| 0 <= i < rest_src.len() && i != idx implies !(#[trigger] rest_src[
            i
        ]).spec_should_delete() by {
            assert(rest_src[i] == assets[i]);
        }
        assert(rest_src[idx] == assets[idx]);
        lemma_purge_single(rest_src, idx);
        assert(!assets[assets.len() - 1].spec_should_delete());
        assert(purge_flagged(assets) =~= assets.remove(idx));
    }
}

/// The index-wise sums that the chart's axis sizing scans: empty when the
/// portfolio is empty, otherwise one saturating sum per sample index.
pub open spec fn accumulated_series(assets: Seq<Asset>, start: int, step: int, n: nat) -> Seq<
    int,
> {
    if assets.len() == 0 {
        Seq::empty()
    } else {
        summed_series_values(assets, start, step, n)
    }
}

/// A user's portfolio: the ordered, owned collection of all holdings.
#[derive(Debug)]
pub struct Portfolio {
    pub assets: Vec<Asset>,
    /// Identifier counter: strictly above every identifier ever assigned.
    pub next_id: u64,
}

impl Portfolio {
    /// The registry invariant.
    pub open spec fn wf(self) -> bool {
        holdings_wf(self.assets@, self.next_id)
    }

    /// Creates an empty registry.
    pub fn new() -> (r: Portfolio)
        ensures
            r.wf(),
            r.assets@.len() == 0,
            r.next_id == 0,
    {
        Portfolio { assets: Vec::new(), next_id: 0 }
    }

    /// Whether some live holding carries the identifier.
    pub fn contains_id(&self, id: u64) -> (r: bool)
        ensures
            r == spec_has_id(self.assets@, id),
    {
        let n = self.assets.len();
        let mut i: usize = 0;
        while i < n
            invariant
                i <= n,
                n == self.assets@.len(),
                forall|k: int| 0 <= k < i ==> (#[trigger] self.assets@[k]).spec_uuid() != Some(id),
            decreases n - i,
        {
            match self.assets[i].uuid() {
                Some(found) => {
                    if found == id {
                        return true;
                    }
                },
                None => {},
            }
            i = i + 1;
        }
        false
    }

    /// Index of the holding that carries the identifier, if any.
    fn index_of_id(&self, id: u64) -> (r: Option<usize>)
        ensures
            match r {
                Some(i) => i < self.assets@.len() && self.assets@[i as int].spec_uuid() == Some(
                    id,
                ),
                None => !spec_has_id(self.assets@, id),
            },
    {
        let n = self.assets.len();
        let mut i: usize = 0;
        while i < n
            invariant
                i <= n,
                n == self.assets@.len(),
                forall|k: int| 0 <= k < i ==> (#[trigger] self.assets@[k]).spec_uuid() != Some(id),
            decreases n - i,
        {
            match self.assets[i].uuid() {
                Some(found) => {
                    if found == id {
                        return Some(i);
                    }
                },
                None => {},
            }
            i = i + 1;
        }
        None
    }

    /// Appends a holding.  A holding that already carries an identifier
    /// below the counter and not in use keeps it; any other holding is
    /// stamped with the next fresh identifier.
    pub fn add_asset(&mut self, asset: Asset)
        requires
            old(self).wf(),
            asset.inv(),
            old(self).next_id < u64::MAX,
        ensures
            final(self).wf(),
            final(self).assets@.len() == old(self).assets@.len() + 1,
            forall|i: int|
                0 <= i < old(self).assets@.len() ==> final(self).assets@[i] == old(self).assets@[i],
            ({
                let carried = asset.spec_uuid();
                if carried is Some && carried->0 < old(self).next_id && !spec_has_id(
                    old(self).assets@,
                    carried->0,
                ) {
                    final(self).assets@.last() == asset && final(self).next_id == old(self).next_id
                } else {
                    final(self).assets@.last() == spec_with_id(asset, old(self).next_id)
                        && final(self).next_id == old(self).next_id + 1
                }
            }),
    {
        let keep: bool = match asset.uuid() {
            Some(found) => found < self.next_id && !self.contains_id(found),
            None => false,
        };
        if keep {
            self.assets.push(asset);
        } else {
            let id = self.next_id;
            proof {
                lemma_with_id_same_model(asset, id);
            }
            let stamped = set_asset_id(asset, id);
            self.assets.push(stamped);
            self.next_id = self.next_id + 1;
        }
    }

    /// Saturating sum of every holding's value on the given date; zero for
    /// an empty portfolio.
    pub fn total_value(&self, date: Date) -> (r: i64)
        requires
            self.wf(),
            date.wf(),
        ensures
            r as int == total_at(self.assets@, date),
            amount_ok(r as int),
    {
        let n = self.assets.len();
        let mut acc: i64 = 0;
        let mut i: usize = 0;
        while i < n
            invariant
                i <= n,
                n == self.assets@.len(),
                self.wf(),
                date.wf(),
                amount_ok(acc as int),
                acc as int == total_at(self.assets@.take(i as int), date),
            decreases n - i,
        {
            let v = self.assets[i].value(date);
            acc = sat_add_amount(acc, v);
            proof {
                assert(self.assets@.take(i + 1).drop_last() =~= self.assets@.take(i as int));
                assert(self.assets@.take(i + 1).last() == self.assets@[i as int]);
            }
            i = i + 1;
        }
        proof {
            assert(self.assets@.take(n as int) =~= self.assets@);
        }
        acc
    }

    /// Removes the holding that carries the identifier, if any; removal of
    /// an unknown identifier is a no-op.
    pub fn remove_by_identifier(&mut self, id: u64)
        requires
            old(self).wf(),
        ensures
            final(self).wf(),
            final(self).next_id == old(self).next_id,
            final(self).assets@ == remove_id(old(self).assets@, id),
            !spec_has_id(final(self).assets@, id),
    {
        proof {
            lemma_remove_id_wf(self.assets@, id, self.next_id);
            lemma_remove_id_ids(self.assets@, id);
        }
        match self.index_of_id(id) {
            Some(i) => {
                proof {
                    assert forall|k: int|
                        0 <= k < self.assets@.len() && k != i implies (#[trigger] self.assets@[
                        k
                    ]).spec_uuid() != Some(id) by {
                        if k < i {
                            assert(self.assets@[k].spec_uuid() != self.assets@[i as int].spec_uuid());
                        } else {
                            assert(self.assets@[i as int].spec_uuid() != self.assets@[k].spec_uuid());
                        }
                    }
                    lemma_remove_id_at(self.assets@, id, i as int);
                }
                self.assets.remove(i);
            },
            None => {
                proof {
                    lemma_remove_id_absent(self.assets@, id);
                }
            },
        }
    }

    /// Maintenance pass: removes every holding whose removal flag is set.
    pub fn purge_marked(&mut self)
        requires
            old(self).wf(),
        ensures
            final(self).wf(),
            final(self).next_id == old(self).next_id,
            final(self).assets@ == purge_flagged(old(self).assets@),
    {
        proof {
            lemma_purge_wf(self.assets@, self.next_id);
        }
        let ghost orig = self.assets@;
        let ghost mut j: int = 0;
        let mut i: usize = 0;
        while i < self.assets.len()
            invariant
                0 <= j <= orig.len(),
                i <= self.assets@.len(),
                self.assets@.len() == i + orig.len() - j,
                self.assets@.take(i as int) =~= purge_flagged(orig.take(j)),
                self.assets@.skip(i as int) =~= orig.skip(j),
                self.next_id == old(self).next_id,
                orig == old(self).assets@,
            decreases orig.len() - j,
        {
            proof {
                assert(self.assets@[i as int] == self.assets@.skip(i as int)[0]);
                assert(orig[j] == orig.skip(j)[0]);
                assert(orig.take(j + 1).drop_last() =~= orig.take(j));
                assert(orig.take(j + 1).last() == orig[j]);
            }
            let flagged = self.assets[i].should_delete();
            if flagged {
                let ghost before = self.assets@;
                self.assets.remove(i);
                proof {
                    j = j + 1;
                    assert(self.assets@.take(i as int) =~= before.take(i as int));
                    assert(self.assets@.skip(i as int) =~= before.skip(i + 1));
                    assert(before.skip(i + 1) =~= orig.skip(j)) by {
                        assert forall|k: int| 0 <= k < before.skip(i + 1).len() implies before.skip(
                            i + 1,
                        )[k] == orig.skip(j)[k] by {
                            assert(before.skip(i + 1)[k] == before[i + 1 + k]);
                            assert(before.skip(i as int)[1 + k] == before[i + 1 + k]);
                            assert(orig.skip(j - 1)[1 + k] == orig[j + k]);
                        }
                    }
                }
            } else {
                proof {
                    j = j + 1;
                    assert(self.assets@.take(i + 1) =~= self.assets@.take(i as int).push(
                        self.assets@[i as int],
                    ));
                    assert(self.assets@.skip(i + 1) =~= orig.skip(j)) by {
                        assert forall|k: int| 0 <= k < self.assets@.skip(i + 1).len() implies
                            self.assets@.skip(i + 1)[k] == orig.skip(j)[k] by {
                            assert(self.assets@.skip(i + 1)[k] == self.assets@[i + 1 + k]);
                            assert(self.assets@.skip(i as int)[1 + k] == self.assets@[i + 1 + k]);
                            assert(orig.skip(j - 1)[1 + k] == orig[j + k]);
                        }
                    }
                }
                i = i + 1;
            }
        }
        proof {
            assert(j == orig.len());
            assert(orig.take(j) =~= orig);
            assert(self.assets@.take(i as int) =~= self.assets@);
            assert(self.assets@ =~= purge_flagged(orig));
        }
    }

    /// Builds the index-wise saturating sums of the per-holding sampled
    /// series, holding by holding, as the chart's axis sizing does.
    #[verifier::loop_isolation(false)]
    fn summed_value_points(&self, start_date: Date, end_date: Date, interval_days: i64) -> (r:
        Vec<(Date, i64)>)
        requires
            self.wf(),
            start_date.wf(),
            end_date.wf(),
            1 <= interval_days,
        ensures
            r@.len() == accumulated_series(
                self.assets@,
                start_date.days as int,
                interval_days as int,
                sample_count(start_date.days as int, end_date.days as int, interval_days as int),
            ).len(),
            forall|i: int|
                0 <= i < r@.len() ==> (#[trigger] r@[i]).1 as int == accumulated_series(
                    self.assets@,
                    start_date.days as int,
                    interval_days as int,
                    sample_count(
                        start_date.days as int,
                        end_date.days as int,
                        interval_days as int,
                    ),
                )[i],
    {
        let ghost s = start_date.days as int;
        let ghost iv = interval_days as int;
        let ghost n = sample_count(s, end_date.days as int, iv);
        let mut values: Vec<(Date, i64)> = Vec::new();
        let na: usize = self.assets.len();
        let mut a: usize = 0;
        while a < na
            invariant
                a <= na,
                na == self.assets@.len(),
                values@.len() as int == if a == 0 {
                    0int
                } else {
                    n as int
                },
                forall|i: int|
                    0 <= i < values@.len() ==> (#[trigger] values@[i]).0.days as int == sample_day(
                        s,
                        iv,
                        i,
                    ),
                forall|i: int|
                    0 <= i < values@.len() ==> (#[trigger] values@[i]).1 as int
                        == summed_series_values(self.assets@.take(a as int), s, iv, n)[i],
            decreases na - a,
        {
            let asset = &self.assets[a];
            let points = get_value_points_for_asset(asset, start_date, end_date, interval_days);
            proof {
                assert(self.assets@.take(a + 1).drop_last() =~= self.assets@.take(a as int));
                assert(self.assets@.take(a + 1).last() == self.assets@[a as int]);
            }
            if a == 0 {
                let np: usize = points.len();
                let mut idx: usize = 0;
                while idx < np
                    invariant
                        a == 0,
                        idx <= np,
                        np == points@.len(),
                        np as int == n as int,
                        values@.len() == idx,
                        forall|i: int|
                            0 <= i < idx ==> (#[trigger] values@[i]).0.days as int == sample_day(
                                s,
                                iv,
                                i,
                            ),
                        forall|i: int|
                            0 <= i < idx ==> (#[trigger] values@[i]).1 as int
                                == summed_series_values(self.assets@.take(1), s, iv, n)[i],
                    decreases np - idx,
                {
                    proof {
                        assert(points@[idx as int].0.days == sample_day(s, iv, idx as int) as i64);
                        assert(points@[idx as int].0 == (Date {
                            days: sample_day(s, iv, idx as int) as i64,
                        }));
                        assert(asset_series_values(self.assets@[0], s, iv, n)[idx as int]
                            == self.assets@[0].spec_value(points@[idx as int].0));
                        let t1 = self.assets@.take(1);
                        assert(t1.len() == 1);
                        assert(t1.drop_last() =~= self.assets@.take(0int));
                        assert(t1.last() == self.assets@[0]);
                        assert(summed_series_values(t1.drop_last(), s, iv, n)[idx as int] == 0);
                        assert(summed_series_values(t1, s, iv, n)[idx as int] == sat_add(
                            0,
                            asset_series_values(self.assets@[0], s, iv, n)[idx as int],
                        ));
                        assert(amount_ok(points@[idx as int].1 as int));
                    }
                    let p = points[idx];
                    values.push(p);
                    idx = idx + 1;
                }
            } else {
                let np: usize = points.len();
                let mut idx: usize = 0;
                while idx < np
                    invariant
                        1 <= a < na,
                        idx <= np,
                        np == points@.len(),
                        np as int == n as int,
                        values@.len() == np,
                        forall|i: int|
                            0 <= i < values@.len() ==> (#[trigger] values@[
                                i
                            ]).0.days as int == sample_day(s, iv, i),
                        forall|i: int|
                            0 <= i < idx ==> (#[trigger] values@[i]).1 as int
                                == summed_series_values(self.assets@.take(a + 1), s, iv, n)[i],
                        forall|i: int|
                            idx <= i < values@.len() ==> (#[trigger] values@[i]).1 as int
                                == summed_series_values(self.assets@.take(a as int), s, iv, n)[i],
                    decreases np - idx,
                {
                    proof {
                        assert(points@[idx as int].0.days == sample_day(s, iv, idx as int) as i64);
                        assert(points@[idx as int].0 == (Date {
                            days: sample_day(s, iv, idx as int) as i64,
                        }));
                        assert(asset_series_values(self.assets@[a as int], s, iv, n)[idx as int]
                            == self.assets@[a as int].spec_value(points@[idx as int].0));
                        let ta1 = self.assets@.take(a + 1);
                        assert(ta1.len() == a + 1);
                        assert(ta1.drop_last() =~= self.assets@.take(a as int));
                        assert(ta1.last() == self.assets@[a as int]);
                        assert(summed_series_values(ta1, s, iv, n)[idx as int] == sat_add(
                            summed_series_values(self.assets@.take(a as int), s, iv, n)[idx as int],
                            asset_series_values(self.assets@[a as int], s, iv, n)[idx as int],
                        ));
                    }
                    let cur: (Date, i64) = values[idx];
                    let p: (Date, i64) = points[idx];
                    values[idx] = (cur.0, sat_add_amount(cur.1, p.1));
                    idx = idx + 1;
                }
            }
            a = a + 1;
        }
        proof {
            assert(self.assets@.take(na as int) =~= self.assets@);
        }
        values
    }

    /// Largest index-wise sum of the per-holding sampled series over the
    /// range, floored at zero.
    pub fn max_value(&self, start_date: Date, end_date: Date, interval_days: i64) -> (r: i64)
        requires
            self.wf(),
            start_date.wf(),
            end_date.wf(),
            1 <= interval_days,
        ensures
            r as int == fold_max(
                accumulated_series(
                    self.assets@,
                    start_date.days as int,
                    interval_days as int,
                    sample_count(
                        start_date.days as int,
                        end_date.days as int,
                        interval_days as int,
                    ),
                ),
                0,
            ),
    {
        let values = self.summed_value_points(start_date, end_date, interval_days);
        let ghost vals = accumulated_series(
            self.assets@,
            start_date.days as int,
            interval_days as int,
            sample_count(start_date.days as int, end_date.days as int, interval_days as int),
        );
        let n: usize = values.len();
        let mut mx: i64 = 0;
        let mut idx: usize = 0;
        while idx < n
            invariant
                idx <= n,
                n == values@.len(),
                values@.len() == vals.len(),
                forall|i: int| 0 <= i < n ==> (#[trigger] values@[i]).1 as int == vals[i],
                mx as int == fold_max(vals.take(idx as int), 0),
            decreases n - idx,
        {
            proof {
                assert(vals.take(idx + 1).drop_last() =~= vals.take(idx as int));
                assert(vals.take(idx + 1).last() == vals[idx as int]);
            }
            let v: i64 = values[idx].1;
            if v > mx {
                mx = v;
            }
            idx = idx + 1;
        }
        proof {
            assert(vals.take(n as int) =~= vals);
        }
        mx
    }

    /// Smallest index-wise sum of the per-holding sampled series over the
    /// range, starting the scan from `i64::MAX` as the neutral element.
    pub fn min_value(&self, start_date: Date, end_date: Date, interval_days: i64) -> (r: i64)
        requires
            self.wf(),
            start_date.wf(),
            end_date.wf(),
            1 <= interval_days,
        ensures
            r as int == fold_min(
                accumulated_series(
                    self.assets@,
                    start_date.days as int,
                    interval_days as int,
                    sample_count(
                        start_date.days as int,
                        end_date.days as int,
                        interval_days as int,
                    ),
                ),
                i64::MAX as int,
            ),
    {
        let values = self.summed_value_points(start_date, end_date, interval_days);
        let ghost vals = accumulated_series(
            self.assets@,
            start_date.days as int,
            interval_days as int,
            sample_count(start_date.days as int, end_date.days as int, interval_days as int),
        );
        let n: usize = values.len();
        let mut mn: i64 = i64::MAX;
        let mut idx: usize = 0;
        while idx < n
            invariant
                idx <= n,
                n == values@.len(),
                values@.len() == vals.len(),
                forall|i: int| 0 <= i < n ==> (#[trigger] values@[i]).1 as int == vals[i],
                mn as int == fold_min(vals.take(idx as int), i64::MAX as int),
            decreases n - idx,
        {
            proof {
                assert(vals.take(idx + 1).drop_last() =~= vals.take(idx as int));
                assert(vals.take(idx + 1).last() == vals[idx as int]);
            }
            let v: i64 = values[idx].1;
            if v < mn {
                mn = v;
            }
            idx = idx + 1;
        }
        proof {
            assert(vals.take(n as int) =~= vals);
        }
        mn
    }
}

} // verus!
