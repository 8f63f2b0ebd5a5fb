//! Strategies: what they are asked, and what they answer.
use crate::number::Double;
use vstd::prelude::*;

verus! {

/// Bits of 0.15.
pub const FALLBACK_MOMENTUM_PCT: u64 = 0x3fc3_3333_3333_3333;

/// Bits of 100.
pub const FALLBACK_CLIP_USD: u64 = 0x4059_0000_0000_0000;

/// Bits of 2.5.
pub const FALLBACK_TAKE_PROFIT_PCT: u64 = 0x4004_0000_0000_0000;

/// Bits of 1.
pub const FALLBACK_STOP_LOSS_PCT: u64 = 0x3ff0_0000_0000_0000;

/// Bits of 0.8.
pub const FALLBACK_TRAILING_STOP_PCT: u64 = 0x3fe9_9999_9999_999a;

/// Bits of 1.5.
pub const FALLBACK_TRAILING_ACTIVATION_PCT: u64 = 0x3ff8_0000_0000_0000;

/// Why a position is closed.
#[derive(Clone, Copy, Debug, PartialEq, Eq, Structural)]
pub enum ExitReason {
    StopLoss,
    TakeProfit,
    TrailingStop,
    TimeStop,
    MomentumLost,
    ReversalDetected,
}

/// The word that a trade record carries for a reason.
pub open spec fn label_of(reason: ExitReason) -> Seq<char> {
    match reason {
        ExitReason::StopLoss => "stop_loss"@,
        ExitReason::TakeProfit => "take_profit"@,
        ExitReason::TrailingStop => "trailing_stop"@,
        ExitReason::TimeStop => "time_stop"@,
        ExitReason::MomentumLost => "momentum_lost"@,
        ExitReason::ReversalDetected => "reversal"@,
    }
}

impl ExitReason {
    /// The word that a trade record carries for the reason.
    pub fn label(self) -> (r: &'static str)
        ensures
            r@ == label_of(self),
    {
        match self {
            ExitReason::StopLoss => "stop_loss",
            ExitReason::TakeProfit => "take_profit",
            ExitReason::TrailingStop => "trailing_stop",
            ExitReason::TimeStop => "time_stop",
            ExitReason::MomentumLost => "momentum_lost",
            ExitReason::ReversalDetected => "reversal",
        }
    }
}

/// What a strategy signals.
#[derive(Clone, Copy, Debug, PartialEq, Eq, Structural)]
pub enum Signal {
    /// Nothing to do.
    Hold,
    /// Open a long position.
    MomentumLong { strength: Double },
    /// Open a short position.
    MomentumShort { strength: Double },
    /// Close a long position.
    ExitLong { reason: ExitReason },
    /// Close a short position.
    ExitShort { reason: ExitReason },
}

/// What a strategy is told of the open position when it is asked for an exit.
#[derive(Clone, Copy, Debug, PartialEq, Eq, Structural)]
pub struct PositionContext {
    pub is_long: bool,
    pub entry_price: Double,
    pub current_price: Double,
    pub peak_price: Double,
    pub hold_secs: u64,
    pub max_hold_secs: u64,
    pub take_profit_pct: Double,
    pub stop_loss_pct: Double,
    pub trailing_stop_pct: Double,
    pub trailing_activation_pct: Double,
}

/// A strategy's parameters.
#[derive(Clone, Debug)]
pub struct StrategyParams {
    /// "long" or "short" keeps the strategy to that side, in any letter case.
    pub direction_bias: String,
    pub momentum_threshold_pct: Double,
    pub lookback_count: usize,
    pub scale_in_clips: usize,
    pub clip_size_usd: Double,
    pub max_hold_secs: u64,
    pub take_profit_pct: Double,
    pub stop_loss_pct: Double,
    pub trailing_stop_pct: Double,
    pub trailing_activation_pct: Double,
    pub cooldown_after_loss_secs: u64,
    pub use_native_tp_sl: bool,
}

impl StrategyParams {
    /// These are the parameters of a strategy that has none configured.
    pub open spec fn is_fallback(self) -> bool {
        &&& self.direction_bias@ == "neutral"@
        &&& self.momentum_threshold_pct == Double::of(FALLBACK_MOMENTUM_PCT)
        &&& self.lookback_count == 60
        &&& self.scale_in_clips == 1
        &&& self.clip_size_usd == Double::of(FALLBACK_CLIP_USD)
        &&& self.max_hold_secs == 1800
        &&& self.take_profit_pct == Double::of(FALLBACK_TAKE_PROFIT_PCT)
        &&& self.stop_loss_pct == Double::of(FALLBACK_STOP_LOSS_PCT)
        &&& self.trailing_stop_pct == Double::of(FALLBACK_TRAILING_STOP_PCT)
        &&& self.trailing_activation_pct == Double::of(FALLBACK_TRAILING_ACTIVATION_PCT)
        &&& self.cooldown_after_loss_secs == 300
        &&& self.use_native_tp_sl
    }

    /// The configured parameters, or the fallback where there are none.
    pub fn or_fallback(configured: Option<StrategyParams>) -> (r: StrategyParams)
        ensures
            configured matches Some(params) ==> r == params,
            configured is None ==> r.is_fallback(),
    {
        match configured {
            Some(params) => params,
            None => StrategyParams {
                direction_bias: "neutral".to_owned(),
                momentum_threshold_pct: Double::of(FALLBACK_MOMENTUM_PCT),
                lookback_count: 60,
                scale_in_clips: 1,
                clip_size_usd: Double::of(FALLBACK_CLIP_USD),
                max_hold_secs: 1800,
                take_profit_pct: Double::of(FALLBACK_TAKE_PROFIT_PCT),
                stop_loss_pct: Double::of(FALLBACK_STOP_LOSS_PCT),
                trailing_stop_pct: Double::of(FALLBACK_TRAILING_STOP_PCT),
                trailing_activation_pct: Double::of(FALLBACK_TRAILING_ACTIVATION_PCT),
                cooldown_after_loss_secs: 300,
                use_native_tp_sl: true,
            },
        }
    }
}

/// A trading strategy.  It is fed closing prices one by one, and asked after each
/// whether to open or to close a position.
pub trait Strategy: Sized {
    /// What the strategy sees of the market at one moment.
    type Snapshot;

    /// The parameters that the strategy runs with.
    fn parameters(&self) -> StrategyParams;

    /// The strategy after it has taken in the price at a time in milliseconds.
    fn push_price(self, price: Double, time_ms: i64) -> Self;

    /// What the strategy sees of the market now.
    fn snapshot(&self) -> Self::Snapshot;

    /// Whether to open a position.
    fn detect_entry(&self, snapshot: &Self::Snapshot) -> Signal;

    /// Whether to close the open position.
    fn detect_exit(&self, snapshot: &Self::Snapshot, context: &PositionContext) -> Option<Signal>;
}

} // verus!
