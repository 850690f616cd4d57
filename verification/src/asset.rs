//! The polymorphic holding: one shared capability set, one valuation
//! formula per variant, dispatched by a single exhaustive match.

use vstd::prelude::*;

verus! {

use crate::cash::Cash;
use crate::date::Date;
use crate::fixed::amount_ok;
use crate::loan::Loan;
use crate::real_estate::RealEstate;
use crate::tradable::Tradable;

/// Shared capability set of every holding kind.
pub trait AssetTrait: Sized {
    /// Structural well-formedness of the holding's numeric fields.
    spec fn inv(&self) -> bool;

    /// The holding's value on the given date, in the mathematical model.
    spec fn spec_value(&self, date: Date) -> int;

    /// The holding's display name.
    spec fn spec_name(&self) -> Seq<char>;

    /// The identifier the owning portfolio assigned, if any.
    spec fn spec_uuid(&self) -> Option<u64>;

    /// The transient removal flag.
    spec fn spec_should_delete(&self) -> bool;

    /// Whether the holding is expected to appreciate.
    spec fn spec_is_growth(&self) -> bool;

    /// Projected value of the holding on `date`.
    fn value(&self, date: Date) -> (r: i64)
        requires
            self.inv(),
            date.wf(),
        ensures
            r as int == self.spec_value(date),
            amount_ok(r as int),
    ;

    /// The holding's display name.
    fn name(&self) -> (r: String)
        ensures
            r@ == self.spec_name(),
    ;

    /// The identifier the owning portfolio assigned, if any.
    fn uuid(&self) -> (r: Option<u64>)
        ensures
            r == self.spec_uuid(),
    ;

    /// Whether the owning portfolio should purge this holding.
    fn should_delete(&self) -> (r: bool)
        ensures
            r == self.spec_should_delete(),
    ;

    /// Whether the holding is expected to appreciate.
    fn is_growth(&self) -> (r: bool)
        ensures
            r == self.spec_is_growth(),
    ;
}

/// A single tracked financial item, tagged by kind.
#[derive(Clone, Debug, PartialEq)]
pub enum Asset {
    RealEstate(RealEstate),
    Loan(Loan),
    Tradable(Tradable),
    Cash(Cash),
}

impl AssetTrait for Asset {
    open spec fn inv(&self) -> bool {
        match self {
            Asset::RealEstate(real_estate) => real_estate.inv(),
            Asset::Loan(loan) => loan.inv(),
            Asset::Tradable(tradable) => tradable.inv(),
            Asset::Cash(cash) => cash.inv(),
        }
    }

    open spec fn spec_value(&self, date: Date) -> int {
        match self {
            Asset::RealEstate(real_estate) => real_estate.spec_value(date),
            Asset::Loan(loan) => loan.spec_value(date),
            Asset::Tradable(tradable) => tradable.spec_value(date),
            Asset::Cash(cash) => cash.spec_value(date),
        }
    }

    open spec fn spec_name(&self) -> Seq<char> {
        match self {
            Asset::RealEstate(real_estate) => real_estate.spec_name(),
            Asset::Loan(loan) => loan.spec_name(),
            Asset::Tradable(tradable) => tradable.spec_name(),
            Asset::Cash(cash) => cash.spec_name(),
        }
    }

    open spec fn spec_uuid(&self) -> Option<u64> {
        match self {
            Asset::RealEstate(real_estate) => real_estate.spec_uuid(),
            Asset::Loan(loan) => loan.spec_uuid(),
            Asset::Tradable(tradable) => tradable.spec_uuid(),
            Asset::Cash(cash) => cash.spec_uuid(),
        }
    }

    open spec fn spec_should_delete(&self) -> bool {
        match self {
            Asset::RealEstate(real_estate) => real_estate.spec_should_delete(),
            Asset::Loan(loan) => loan.spec_should_delete(),
            Asset::Tradable(tradable) => tradable.spec_should_delete(),
            Asset::Cash(cash) => cash.spec_should_delete(),
        }
    }

    open spec fn spec_is_growth(&self) -> bool {
        match self {
            Asset::RealEstate(real_estate) => real_estate.spec_is_growth(),
            Asset::Loan(loan) => loan.spec_is_growth(),
            Asset::Tradable(tradable) => tradable.spec_is_growth(),
            Asset::Cash(cash) => cash.spec_is_growth(),
        }
    }

    fn value(&self, date: Date) -> (r: i64) {
        match self {
            Asset::RealEstate(real_estate) => real_estate.value(date),
            Asset::Loan(loan) => loan.value(date),
            Asset::Tradable(tradable) => tradable.value(date),
            Asset::Cash(cash) => cash.value(date),
        }
    }

    fn name(&self) -> (r: String) {
        match self {
            Asset::RealEstate(real_estate) => real_estate.name(),
            Asset::Loan(loan) => loan.name(),
            Asset::Tradable(tradable) => tradable.name(),
            Asset::Cash(cash) => cash.name(),
        }
    }

    fn uuid(&self) -> (r: Option<u64>) {
        match self {
            Asset::RealEstate(real_estate) => real_estate.uuid(),
            Asset::Loan(loan) => loan.uuid(),
            Asset::Tradable(tradable) => tradable.uuid(),
            Asset::Cash(cash) => cash.uuid(),
        }
    }

    fn should_delete(&self) -> (r: bool) {
        match self {
            Asset::RealEstate(real_estate) => real_estate.should_delete(),
            Asset::Loan(loan) => loan.should_delete(),
            Asset::Tradable(tradable) => tradable.should_delete(),
            Asset::Cash(cash) => cash.should_delete(),
        }
    }

    fn is_growth(&self) -> (r: bool) {
        match self {
            Asset::RealEstate(real_estate) => real_estate.is_growth(),
            Asset::Loan(loan) => loan.is_growth(),
            Asset::Tradable(tradable) => tradable.is_growth(),
            Asset::Cash(cash) => cash.is_growth(),
        }
    }
}

/// The holding's acquisition date.
pub open spec fn spec_acquisition_date(a: Asset) -> Date {
    match a {
        Asset::RealEstate(real_estate) => real_estate.acquisition_date,
        Asset::Loan(loan) => loan.acquisition_date,
        Asset::Tradable(tradable) => tradable.acquisition_date,
        Asset::Cash(cash) => cash.acquisition_date,
    }
}

/// The holding's base value on its acquisition date.
pub open spec fn spec_base_value(a: Asset) -> i64 {
    match a {
        Asset::RealEstate(real_estate) => real_estate.value,
        Asset::Loan(loan) => loan.value,
        Asset::Tradable(tradable) => tradable.value,
        Asset::Cash(cash) => cash.value,
    }
}

/// Whatever its kind, a holding queried on or before its acquisition date
/// is worth exactly its base value: no projection into the past.
pub proof fn lemma_value_at_or_before_acquisition(a: Asset, date: Date)
    requires
        date.days <= spec_acquisition_date(a).days,
    ensures
        a.spec_value(date) == spec_base_value(a),
{
}

/// The given holding with its identifier replaced.
pub open spec fn spec_with_id(a: Asset, id: u64) -> Asset {
    match a {
        Asset::RealEstate(real_estate) => Asset::RealEstate(
            RealEstate { id: Some(id), ..real_estate },
        ),
        Asset::Loan(loan) => Asset::Loan(Loan { id: Some(id), ..loan }),
        Asset::Tradable(tradable) => Asset::Tradable(Tradable { id: Some(id), ..tradable }),
        Asset::Cash(cash) => Asset::Cash(Cash { id: Some(id), ..cash }),
    }
}

/// Replacing the identifier touches nothing the valuation model reads.
pub proof fn lemma_with_id_same_model(a: Asset, id: u64)
    ensures
        spec_with_id(a, id).inv() == a.inv(),
        spec_with_id(a, id).spec_uuid() == Some(id),
        spec_with_id(a, id).spec_name() == a.spec_name(),
        spec_with_id(a, id).spec_should_delete() == a.spec_should_delete(),
        spec_with_id(a, id).spec_is_growth() == a.spec_is_growth(),
        forall|date: Date| #[trigger] spec_with_id(a, id).spec_value(date) == a.spec_value(date),
{
}

/// Stamps the portfolio-assigned identifier onto a holding.
pub fn set_asset_id(asset: Asset, id: u64) -> (r: Asset)
    ensures
        r == spec_with_id(asset, id),
{
    match asset {
        Asset::RealEstate(mut real_estate) => {
            real_estate.id = Some(id);
            Asset::RealEstate(real_estate)
        },
        Asset::Loan(mut loan) => {
            loan.id = Some(id);
            Asset::Loan(loan)
        },
        Asset::Tradable(mut tradable) => {
            tradable.id = Some(id);
            Asset::Tradable(tradable)
        },
        Asset::Cash(mut cash) => {
            cash.id = Some(id);
            Asset::Cash(cash)
        },
    }
}

/// The kind tag a user picks when creating a new holding.
#[derive(Clone, Copy, Debug, PartialEq, Eq, Structural)]
pub enum AssetType {
    RealEstate,
    Loan,
    Tradable,
    Cash,
}

} // verus!
