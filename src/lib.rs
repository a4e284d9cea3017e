//! A price dashboard engine: instruments are seeded from a configuration and
//! price snapshots, trade histories are folded into running volume-weighted
//! averages, and live price updates from many listeners are applied by a
//! single writer to a store that is rendered as signed percent changes.
//!
//! Prices are whole numbers of ticks; see [`parse::PRICE_DECIMALS`].
use vstd::prelude::*;

pub mod aggregate;
pub mod config;
pub mod engine;
pub mod parse;
pub mod percent;
pub mod render;
pub mod store;
pub mod text;

verus! {

} // verus!
