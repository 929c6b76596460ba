//! Backfill of a ticker: fetch, fold into per-exchange indexes, merge into a
//! composite, derive bars, validate.

pub mod commands;
pub mod run;
pub mod steps;
