//! Net-worth projection engine.
//!
//! The library models a portfolio of financial holdings (real estate, loans,
//! tradable investments, cash accounts) and projects each holding's value
//! forward in time under a closed-form growth/amortization model.  Monetary
//! amounts are signed integers in the caller's minor unit; growth multipliers
//! are fixed-point numbers scaled by `fixed::SCALE`.  Calendar dates are day
//! numbers relative to 1970-01-01.

pub mod asset;
pub mod cash;
pub mod date;
pub mod fixed;
pub mod growth;
pub mod instrument;
pub mod investment;
pub mod liability;
pub mod loan;
pub mod plot_utils;
pub mod portfolio;
pub mod real_estate;
pub mod tradable;

pub use asset::Asset;
pub use asset::AssetTrait;
pub use asset::AssetType;
pub use cash::Cash;
pub use date::Date;
pub use instrument::FinancialInstrument;
pub use investment::Investment;
pub use liability::Liability;
pub use loan::Loan;
pub use plot_utils::extremes;
pub use plot_utils::get_portfolio_value_points;
pub use plot_utils::get_random_bytes_from_uuid;
pub use plot_utils::get_value_points_for_asset;
pub use portfolio::Portfolio;
pub use real_estate::RealEstate;
pub use tradable::ContributionFrequency;
pub use tradable::Tradable;
