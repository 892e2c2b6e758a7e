//! Trade-execution ingestion and realized profit-and-loss reconciliation.
//!
//! Amounts (prices, quantities, fees) are fixed-point integers counting
//! units of `1 / SCALE`; see [`fill::SCALE`].
use vstd::prelude::*;

pub mod envelope;
pub mod event;
pub mod fill;
pub mod pnl;
pub mod store;
pub mod users;
pub mod writer;

verus! {

} // verus!
