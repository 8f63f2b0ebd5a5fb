//! Exits at a price level: take profit and stop loss.
use crate::number::{
    answers, computes, minus, over, plus, times, Arithmetic, Double, Op, HUNDRED, ONE, ZERO,
};
use crate::strategy::ExitReason;
use vstd::prelude::*;

verus! {

/// The price this many percent above another.
pub open spec fn above(ar: Arithmetic, price: Double, pct: Double) -> Double {
    times(ar, price, plus(ar, Double::of(ONE), over(ar, pct, Double::of(HUNDRED))))
}

/// The price this many percent below another.
pub open spec fn below(ar: Arithmetic, price: Double, pct: Double) -> Double {
    times(ar, price, minus(ar, Double::of(ONE), over(ar, pct, Double::of(HUNDRED))))
}

/// Where a position takes its profit.
pub open spec fn take_profit_price(
    ar: Arithmetic,
    is_long: bool,
    entry_price: Double,
    tp_pct: Double,
) -> Double {
    if is_long {
        above(ar, entry_price, tp_pct)
    } else {
        below(ar, entry_price, tp_pct)
    }
}

/// Where a position stops its loss.
pub open spec fn stop_loss_price(
    ar: Arithmetic,
    is_long: bool,
    entry_price: Double,
    sl_pct: Double,
) -> Double {
    if is_long {
        below(ar, entry_price, sl_pct)
    } else {
        above(ar, entry_price, sl_pct)
    }
}

/// The candle's range reached the take-profit price; never with a percentage of
/// zero or below.
pub open spec fn take_profit_hit(
    ar: Arithmetic,
    is_long: bool,
    entry_price: Double,
    tp_pct: Double,
    low: Double,
    high: Double,
) -> bool {
    let level = take_profit_price(ar, is_long, entry_price, tp_pct);
    tp_pct.gt(Double::of(ZERO)) && if is_long {
        high.ge(level)
    } else {
        low.le(level)
    }
}

/// The candle's range reached the stop-loss price; never with a percentage of zero
/// or below.
pub open spec fn stop_loss_hit(
    ar: Arithmetic,
    is_long: bool,
    entry_price: Double,
    sl_pct: Double,
    low: Double,
    high: Double,
) -> bool {
    let level = stop_loss_price(ar, is_long, entry_price, sl_pct);
    sl_pct.gt(Double::of(ZERO)) && if is_long {
        low.le(level)
    } else {
        high.ge(level)
    }
}

/// The exit that a candle's range brings about, and its price.  The stop loss goes
/// before the take profit.
pub open spec fn level_exit(
    ar: Arithmetic,
    is_long: bool,
    entry_price: Double,
    tp_pct: Double,
    sl_pct: Double,
    low: Double,
    high: Double,
) -> Option<(ExitReason, Double)> {
    if entry_price.le(Double::of(ZERO)) || low.le(Double::of(ZERO)) || high.le(Double::of(ZERO)) {
        None
    } else if stop_loss_hit(ar, is_long, entry_price, sl_pct, low, high) {
        Some((ExitReason::StopLoss, stop_loss_price(ar, is_long, entry_price, sl_pct)))
    } else if take_profit_hit(ar, is_long, entry_price, tp_pct, low, high) {
        Some((ExitReason::TakeProfit, take_profit_price(ar, is_long, entry_price, tp_pct)))
    } else {
        None
    }
}

/// Check whether a candle's OHLC range crossed TP or SL levels for an open
/// position. Returns the resolved exit (reason + fill price) if any.
///
/// When both TP and SL would have been touched in the same candle, SL is
/// assumed to fill first: the conservative worst case for a backtest, and
/// the only honest assumption without tick data.
pub fn intra_candle_tp_sl_hit<F: Fn(Op) -> Double>(
    is_long: bool,
    entry_price: Double,
    tp_pct: Double,
    sl_pct: Double,
    low: Double,
    high: Double,
    calc: &F,
) -> (r: Option<(ExitReason, Double)>)
    requires
        answers(*calc),
    ensures
        forall|ar: Arithmetic| #[trigger]
            computes(*calc, ar) ==> r == level_exit(
                ar,
                is_long,
                entry_price,
                tp_pct,
                sl_pct,
                low,
                high,
            ),
        forall|ar: Arithmetic| #[trigger]
            computes(*calc, ar) ==> (r matches Some((reason, price)) ==> {
                let pct = if reason == ExitReason::StopLoss {
                    sl_pct
                } else {
                    tp_pct
                };
                let share = ar(Op::Div(pct, Double::of(HUNDRED)));
                price == ar(
                    Op::Mul(
                        entry_price,
                        if is_long == (reason == ExitReason::StopLoss) {
                            ar(Op::Sub(Double::of(ONE), share))
                        } else {
                            ar(Op::Add(Double::of(ONE), share))
                        },
                    ),
                )
            }),
{
    let zero = Double::of(ZERO);
    if entry_price.le(zero) || low.le(zero) || high.le(zero) {
        return None;
    }
    let tp_share = calc(Op::Div(tp_pct, Double::of(HUNDRED)));
    let sl_share = calc(Op::Div(sl_pct, Double::of(HUNDRED)));
    let (tp_factor, sl_factor) = if is_long {
        (calc(Op::Add(Double::of(ONE), tp_share)), calc(Op::Sub(Double::of(ONE), sl_share)))
    } else {
        (calc(Op::Sub(Double::of(ONE), tp_share)), calc(Op::Add(Double::of(ONE), sl_share)))
    };
    let tp_price = calc(Op::Mul(entry_price, tp_factor));
    let sl_price = calc(Op::Mul(entry_price, sl_factor));
    let tp_hit = tp_pct.gt(zero) && if is_long {
        high.ge(tp_price)
    } else {
        low.le(tp_price)
    };
    let sl_hit = sl_pct.gt(zero) && if is_long {
        low.le(sl_price)
    } else {
        high.ge(sl_price)
    };
    if sl_hit {
        Some((ExitReason::StopLoss, sl_price))
    } else if tp_hit {
        Some((ExitReason::TakeProfit, tp_price))
    } else {
        None
    }
}

/// A candle that reaches both levels stops the loss, whatever the arithmetic.
pub proof fn stop_loss_comes_first(
    ar: Arithmetic,
    is_long: bool,
    entry_price: Double,
    tp_pct: Double,
    sl_pct: Double,
    low: Double,
    high: Double,
)
    requires
        !entry_price.le(Double::of(ZERO)),
        !low.le(Double::of(ZERO)),
        !high.le(Double::of(ZERO)),
        take_profit_hit(ar, is_long, entry_price, tp_pct, low, high),
        stop_loss_hit(ar, is_long, entry_price, sl_pct, low, high),
    ensures
        level_exit(ar, is_long, entry_price, tp_pct, sl_pct, low, high) == Some(
            (ExitReason::StopLoss, stop_loss_price(ar, is_long, entry_price, sl_pct)),
        ),
{
}

/// With both percentages at zero or below, no price closes a position.
pub proof fn no_levels_no_exit(
    ar: Arithmetic,
    is_long: bool,
    entry_price: Double,
    tp_pct: Double,
    sl_pct: Double,
    low: Double,
    high: Double,
)
    requires
        !tp_pct.gt(Double::of(ZERO)),
        !sl_pct.gt(Double::of(ZERO)),
    ensures
        level_exit(ar, is_long, entry_price, tp_pct, sl_pct, low, high) is None,
{
}

} // verus!
