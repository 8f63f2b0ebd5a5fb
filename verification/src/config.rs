//! The settings of a backtest.
use crate::number::Double;
use vstd::prelude::*;

verus! {

/// Configuration for the backtest engine.
#[derive(Clone, Debug)]
pub struct BacktestConfig {
    pub strategies: Vec<String>,
    pub markets: Vec<String>,
    pub start_time_ms: i64,
    pub end_time_ms: i64,
    pub interval: String,
    pub starting_balance: Double,
    pub fee_rate: Double,
    pub borrow_rate_hourly: Double,
    pub leverage: Double,
}

} // verus!
