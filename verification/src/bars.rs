//! What one bar does to a run, field by field.
//!
//! The laws speak of a usable bar; one that is not usable changes nothing.
use crate::candle::Bar;
use crate::cell::{CellView, Reply, Terms};
use crate::clock::stamp_of;
use crate::exits::level_exit;
use crate::number::{Arithmetic, Double, Op, ZERO};
use crate::position::{PositionView, SECS_PER_HOUR};
use crate::strategy::{label_of, ExitReason, Signal};
use crate::value::{
    constants_are_worth_their_names, difference_is_met, is_rounding, is_worth, sum_is_met,
};
use vstd::prelude::*;

verus! {

/// The fee for one end of a trade of this size: on the size times the fee factor.
pub open spec fn end_fee(ar: Arithmetic, terms: Terms, size_usd: Double) -> Double {
    ar(Op::Mul(ar(Op::Mul(size_usd, terms.fee_factor)), terms.fee_rate))
}

/// A position at the end of a bar of the run.
pub open spec fn aged(ar: Arithmetic, terms: Terms, p: PositionView, bar: Bar) -> PositionView {
    PositionView {
        symbol: p.symbol,
        is_long: p.is_long,
        entry_price: p.entry_price,
        current_price: bar.close,
        peak_price: if p.is_long {
            if p.peak_price.lt(bar.close) {
                bar.close
            } else {
                p.peak_price
            }
        } else {
            if p.peak_price.equals(Double::of(ZERO)) || bar.close.lt(p.peak_price) {
                bar.close
            } else {
                p.peak_price
            }
        },
        size_usd: p.size_usd,
        leverage: p.leverage,
        open_time_ms: p.open_time_ms,
        entry_fee: p.entry_fee,
        accrued_borrow_fee: ar(
            Op::Add(
                p.accrued_borrow_fee,
                ar(
                    Op::Mul(
                        ar(Op::Mul(p.size_usd, p.borrow_rate_hourly)),
                        ar(Op::Div(terms.interval_secs, Double::of(SECS_PER_HOUR))),
                    ),
                ),
            ),
        ),
        borrow_rate_hourly: p.borrow_rate_hourly,
    }
}

/// The position that the run holds on a bar until it may close: the one it had, or one
/// that is opened at the bar's open where an entry was pending.
pub open spec fn held(ar: Arithmetic, cell: CellView, bar: Bar) -> Option<PositionView> {
    match cell.position {
        Some(p) => Some(aged(ar, cell.terms, p, bar)),
        None => match cell.pending {
            Some(is_long) => Some(
                aged(
                    ar,
                    cell.terms,
                    PositionView {
                        symbol: cell.stats.market,
                        is_long,
                        entry_price: bar.open,
                        current_price: bar.open,
                        peak_price: bar.open,
                        size_usd: cell.terms.clip_size_usd,
                        leverage: cell.terms.leverage,
                        open_time_ms: bar.t,
                        entry_fee: end_fee(ar, cell.terms, cell.terms.clip_size_usd),
                        accrued_borrow_fee: Double::of(ZERO),
                        borrow_rate_hourly: cell.terms.borrow_rate_hourly,
                    },
                    bar,
                ),
            ),
            None => None,
        },
    }
}

/// The reason and the price at which a held position closes on a bar: a level that the
/// bar's range reaches, or else the close where the strategy signals an exit for the
/// position's side.
pub open spec fn way_out(
    ar: Arithmetic,
    terms: Terms,
    p: PositionView,
    bar: Bar,
    signal: Option<Signal>,
) -> Option<(ExitReason, Double)> {
    let level = level_exit(
        ar,
        p.is_long,
        p.entry_price,
        terms.take_profit_pct,
        terms.stop_loss_pct,
        bar.low,
        bar.high,
    );
    if level is Some {
        level
    } else {
        match signal {
            Some(Signal::ExitLong { reason }) if p.is_long => Some((reason, bar.close)),
            Some(Signal::ExitShort { reason }) if !p.is_long => Some((reason, bar.close)),
            _ => None,
        }
    }
}

/// Without a position and without a pending entry, a bar makes no trade and opens nothing.
pub proof fn idle_bars_trade_nothing(ar: Arithmetic, cell: CellView, bar: Bar, reply: Reply)
    requires
        bar.is_usable(),
        cell.position is None,
        cell.pending is None,
    ensures
        ({
            let after = cell.after_bar(ar, bar, reply);
            &&& after.position is None
            &&& after.trades == cell.trades
            &&& after.balance == cell.balance
            &&& after.cooldown_until_ms == cell.cooldown_until_ms
            &&& after.terms == cell.terms
        }),
{
}

/// A held position that nothing closes stays, a bar older; no trade is made, and the
/// balance and the counts stay.
pub proof fn positions_stay_until_they_close(
    ar: Arithmetic,
    cell: CellView,
    bar: Bar,
    reply: Reply,
)
    requires
        bar.is_usable(),
        held(ar, cell, bar) matches Some(p) && way_out(
            ar,
            cell.terms,
            p,
            bar,
            reply.exit,
        ) is None,
    ensures
        ({
            let after = cell.after_bar(ar, bar, reply);
            &&& after.position == held(ar, cell, bar)
            &&& after.pending is None
            &&& after.trades == cell.trades
            &&& after.balance == cell.balance
            &&& after.cooldown_until_ms == cell.cooldown_until_ms
            &&& after.terms == cell.terms
            &&& after.stats.trade_count == cell.stats.trade_count
            &&& after.stats.win_count == cell.stats.win_count
            &&& after.stats.loss_count == cell.stats.loss_count
            &&& after.stats.net_pnl == cell.stats.net_pnl
            &&& after.stats.gross_pnl == cell.stats.gross_pnl
            &&& after.stats.total_fees == cell.stats.total_fees
        }),
{
}

/// A held position that has a way out becomes a trade at that price, for that reason and
/// at that bar's time: its gross profit is the size times the move in its favour over the
/// entry price, its net profit what the exit fee and the borrow fee leave of that.  The
/// net profit goes to the balance, and a lockout starts.
pub proof fn exits_become_trades(ar: Arithmetic, cell: CellView, bar: Bar, reply: Reply)
    requires
        bar.is_usable(),
        held(ar, cell, bar) matches Some(p) && way_out(
            ar,
            cell.terms,
            p,
            bar,
            reply.exit,
        ) is Some,
    ensures
        ({
            let after = cell.after_bar(ar, bar, reply);
            let p = held(ar, cell, bar)->0;
            let (reason, price) = way_out(ar, cell.terms, p, bar, reply.exit)->0;
            let trade = after.trades.last();
            let exit_fee = end_fee(ar, cell.terms, p.size_usd);
            &&& after.position is None
            &&& after.trades == cell.trades.push(trade)
            &&& after.terms == cell.terms
            &&& after.balance == ar(Op::Add(cell.balance, trade.net_pnl))
            &&& after.cooldown_until_ms == (bar.t + cell.terms.lockout_ms) as i64
            &&& trade.strategy == cell.stats.strategy
            &&& trade.market == cell.stats.market
            &&& trade.side == (if p.is_long {
                "LONG"@
            } else {
                "SHORT"@
            })
            &&& trade.entry_price == p.entry_price
            &&& trade.exit_price == price
            &&& trade.size_usd == p.size_usd
            &&& trade.gross_pnl == (if p.is_long {
                ar(
                    Op::Div(
                        ar(Op::Mul(p.size_usd, ar(Op::Sub(price, p.entry_price)))),
                        p.entry_price,
                    ),
                )
            } else {
                ar(
                    Op::Div(
                        ar(Op::Mul(p.size_usd, ar(Op::Sub(p.entry_price, price)))),
                        p.entry_price,
                    ),
                )
            })
            &&& trade.entry_fee == p.entry_fee
            &&& trade.exit_fee == exit_fee
            &&& trade.borrow_fee == p.accrued_borrow_fee
            &&& trade.net_pnl == ar(
                Op::Sub(ar(Op::Sub(trade.gross_pnl, exit_fee)), p.accrued_borrow_fee),
            )
            &&& trade.exit_reason == label_of(reason)
            &&& trade.entry_time == stamp_of(p.open_time_ms)
            &&& trade.exit_time == stamp_of(bar.t)
            &&& bar.t <= p.open_time_ms ==> trade.hold_secs == 0
            &&& bar.t > p.open_time_ms ==> 1000 * trade.hold_secs <= bar.t - p.open_time_ms < 1000
                * (trade.hold_secs + 1)
        }),
{
}

/// An entry that the strategy signals on a bar is queued just where the run holds nothing
/// at the bar's end, no lockout lasts, and the terms allow its side; nothing else is ever
/// queued.
pub proof fn entries_are_queued_when_free(ar: Arithmetic, cell: CellView, bar: Bar, reply: Reply)
    requires
        bar.is_usable(),
    ensures
        ({
            let after = cell.after_bar(ar, bar, reply);
            let free = after.position is None && bar.t >= after.cooldown_until_ms;
            &&& after.pending == Some(true) <==> free && reply.entry is MomentumLong
                && cell.terms.allows_long
            &&& after.pending == Some(false) <==> free && reply.entry is MomentumShort
                && cell.terms.allows_short
        }),
{
}

/// Each bar adds one sample to the equity curve, and it is the balance after the bar with
/// what is open at its end: nothing, or the open profit less the accrued borrow fee.  The
/// peak and the drawdown on record follow it.
pub proof fn samples_are_the_balance_and_what_is_open(
    ar: Arithmetic,
    cell: CellView,
    bar: Bar,
    reply: Reply,
)
    requires
        bar.is_usable(),
    ensures
        ({
            let after = cell.after_bar(ar, bar, reply);
            let sample = after.equity.last();
            let drop = ar(Op::Sub(after.max_equity, sample));
            &&& after.equity == cell.equity.push(sample)
            &&& after.position is None ==> sample == ar(Op::Add(after.balance, Double::of(ZERO)))
            &&& after.position matches Some(p) ==> sample == ar(
                Op::Add(after.balance, ar(Op::Sub(p.pnl_usd(ar), p.accrued_borrow_fee))),
            )
            &&& after.max_equity == (if cell.max_equity.lt(sample) {
                sample
            } else {
                cell.max_equity
            })
            &&& after.stats.max_drawdown_usd == (if cell.stats.max_drawdown_usd.lt(drop) {
                drop
            } else {
                cell.stats.max_drawdown_usd
            })
        }),
{
    let after = cell.after_bar(ar, bar, reply);
    assert(after.equity =~= cell.equity.push(after.equity.last()));
}

/// While nothing is open, the equity is worth the balance: what trades have lost or won is
/// in every sample after them.
pub proof fn idle_equity_is_worth_the_balance(
    ar: Arithmetic,
    cell: CellView,
    bar: Bar,
    reply: Reply,
)
    requires
        is_rounding(ar),
        bar.is_usable(),
        cell.after_bar(ar, bar, reply).position is None,
        cell.after_bar(ar, bar, reply).balance.is_finite(),
    ensures
        is_worth(
            cell.after_bar(ar, bar, reply).equity.last(),
            cell.after_bar(ar, bar, reply).balance,
        ),
{
    let after = cell.after_bar(ar, bar, reply);
    constants_are_worth_their_names();
    sum_is_met(ar, after.balance, Double::of(ZERO), after.balance);
}

/// While a position is open, the equity is worth the balance, the open profit and less the
/// accrued borrow fee; here where the two steps need no rounding.
pub proof fn open_equity_is_worth_balance_and_profit(
    ar: Arithmetic,
    cell: CellView,
    bar: Bar,
    reply: Reply,
    unrealized: Double,
    equity: Double,
)
    requires
        is_rounding(ar),
        bar.is_usable(),
        cell.after_bar(ar, bar, reply).balance.is_finite(),
        unrealized.is_finite() && equity.is_finite(),
        cell.after_bar(ar, bar, reply).position matches Some(p) && p.pnl_usd(ar).is_finite()
            && p.accrued_borrow_fee.is_finite() && unrealized.units() == p.pnl_usd(ar).units()
            - p.accrued_borrow_fee.units(),
        equity.units() == cell.after_bar(ar, bar, reply).balance.units() + unrealized.units(),
    ensures
        is_worth(cell.after_bar(ar, bar, reply).equity.last(), equity),
{
    let after = cell.after_bar(ar, bar, reply);
    let p = after.position->0;
    difference_is_met(ar, p.pnl_usd(ar), p.accrued_borrow_fee, unrealized);
    sum_is_met(ar, after.balance, ar(Op::Sub(p.pnl_usd(ar), p.accrued_borrow_fee)), equity);
}

} // verus!
