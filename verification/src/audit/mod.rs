//! Data-quality certification of one ticker over a trailing window.
//!
//! * [`index`]: gaps, missing days, microstructure invariants and the mid series
//!   of the index stream.
//! * [`kline`]: ten-second bars: consistency, grid, coverage, roll-up parity.
//! * [`messages`]: what a report says of a finding.
//! * [`renko`]: brick cadence, calibration and provenance.
//! * [`report`]: the report as text.
//! * [`ticker`]: what the parts find, put together.
//! * [`verdict`]: the reasons a ticker fails.

pub mod index;
pub mod kline;
pub mod messages;
pub mod renko;
pub mod report;
pub mod ticker;
pub mod verdict;
