//! Market-series construction, calibration, auditing and storage migration:
//! the rules, as verified code over plain values.
//!
//! Prices and ratios arrive as IEEE-754 bit patterns ([`ieee::Double`],
//! [`ieee::Single`]): the library orders, classifies and selects them exactly,
//! and leaves every rounding operation to its caller.

pub mod aggregation;
pub mod audit;
pub mod backfill;
pub mod bucket;
pub mod calendar;
pub mod calibrate;
pub mod candles;
pub mod fetch;
pub mod glue;
pub mod heal;
pub mod hlc;
pub mod ieee;
pub mod integrity;
pub mod latency;
pub mod merge;
pub mod migrate;
pub mod parkinson;
pub mod pipeline;
pub mod renko;
pub mod solver;
pub mod sweep;
pub mod tally;
pub mod text;
pub mod yaml;
