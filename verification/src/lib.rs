//! A backtesting engine for a scored day-trading strategy.
//!
//! The core is a deterministic day-by-day simulation: a rolling-window
//! indicator engine turns stored daily records into band statistics, a
//! scoring strategy turns those into entry and exit signals, and the
//! decision engine executes settle, mark-to-market and selection phases
//! against a liquidity and position-capacity constraint, one snapshot per
//! assessment date.  A runner drives the engine over a calendar range and
//! derives per-symbol holding intervals.
//!
//! The record store and the market-data source are collaborators behind
//! the `backend` and `crawler` traits; everything proved here holds for
//! every answer they can give.  Prices are plain unsigned integers (in a
//! fixed smallest currency unit), so all window statistics and band
//! comparisons are exact.

pub mod backend;
pub mod backtesting;
pub mod bollinger_band;
pub mod config;
pub mod crawler;
pub mod date;
pub mod decision;
pub mod finmind;
pub mod schema;
pub mod strategy;
pub mod utils;
pub mod view;
