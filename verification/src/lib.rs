//! A backtesting engine for trading strategies on historical candles.
//!
//! Candles are replayed one by one through a strategy ([`strategy::Strategy`]).  A
//! signal on a candle's close is filled at the open of the next candle; take profit
//! and stop loss fill at their level within a candle, every other exit at its close.
//! Each strategy on each market makes a cell ([`cell`]), whose trades and statistics
//! ([`stats`]) the engine ([`engine`]) adds up ([`summary`]).  What holds of every run
//! is stated in [`laws`], [`bars`] and [`runs`]; what amounts, returns and figures come
//! to, in [`amounts`], [`curve`] and [`figures`].
//!
//! Numbers are doubles held by their bits ([`number`]).  The arithmetic on them, and
//! the reading of decimal texts, are functions that the caller passes in.  What doubles are
//! worth, and what rounding keeps of true results, is in [`value`].
pub mod amounts;
pub mod bars;
pub mod candle;
pub mod cell;
pub mod clock;
pub mod config;
pub mod curve;
pub mod engine;
pub mod exits;
pub mod figures;
pub mod interval;
pub mod laws;
pub mod number;
pub mod position;
pub mod runs;
pub mod source;
pub mod stats;
pub mod store;
pub mod strategy;
pub mod summary;
pub mod talk;
pub mod text;
pub mod value;
