//! Bonding-curve pricing over a cumulative-supply lookup table, and the
//! lifecycle of a pool that sells a token along that curve until its supply
//! cap is reached and its liquidity is migrated to an external market.
//!
//! `table` holds the curve data and its interpolation, `curve` prices buys
//! and sells on it, and `state` applies them to a pool record and drives the
//! pool through its phases.

mod arith;
pub mod curve;
pub mod errors;
pub mod state;
pub mod table;
