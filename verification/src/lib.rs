//! Capital-at-risk analysis over pairs of vault registry snapshots.
//!
//! A vault holds collateral and owes debt. When the price of the collateral
//! falls, a vault whose collateral no longer covers its debt is liquidated.
//! From snapshots of all vaults at many block heights, and from a history of
//! the liquidations that took place, this crate measures how well a simple
//! estimate of the capital at risk foretells the capital that was in fact
//! liquidated.
//!
//! The analysis runs through these modules, in this order:
//!
//! - [`store`] keeps the blocks that were loaded, by ascending block height;
//! - [`liquidation`] indexes the history: for each vault, the times at which
//!   a liquidation of it began;
//! - [`pairs`] enumerates the pairs of blocks that lie within a week of each
//!   other;
//! - [`matcher`] follows each vault of the earlier block of a pair into the
//!   later block and into the index;
//! - [`exposure`] says what the estimated and the realized capital at risk of
//!   a matched pair are, and [`evaluation`] computes them;
//! - [`aggregate`] folds the deviations of all pairs into one statistic;
//! - [`analysis`] does all of it for a store and an index.
//!
//! The records that pass between them are in [`json_structure`].
//!
//! Quantities are binary64 numbers. The crate holds them as bit patterns
//! ([`binary64`]) and decides by integer arithmetic how they compare; the
//! products, quotients, sums and differences that the analysis needs are
//! asked of the caller ([`arithmetic`]). Block heights and timestamps are
//! unsigned integers written in decimal ([`numeral`]).

#![allow(non_snake_case)]

pub mod aggregate;
pub mod analysis;
pub mod arithmetic;
pub mod binary64;
pub mod evaluation;
pub mod exposure;
pub mod json_structure;
pub mod liquidation;
pub mod matcher;
pub mod numeral;
pub mod pairs;
pub mod store;
