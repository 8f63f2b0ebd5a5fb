//! The run of one strategy over one market's candles.
//!
//! A signal that a candle's close gives rise to is filled at the open of the next
//! candle, so that nothing is decided on prices that are not yet known.  Exits at a
//! price level fill at that level; the others fill at the close.
use crate::candle::{Bar, HlCandle};
use crate::clock::{stamp, stamp_of};
use crate::config::BacktestConfig;
use crate::exits::{intra_candle_tp_sl_hit, level_exit};
use crate::number::{
    answers, computes, minus, over, plus, times, Arithmetic, Double, Op, ONE, THOUSAND, ZERO,
};
use crate::position::{secs_between, span_fits, BtPosition, PositionView};
use crate::source::{source_of, strategy_source_path};
use crate::stats::{
    no_stats, sharpe, sharpe_of, trade_views, BacktestCellStats, BtTrade, StatsView, TradeView,
};
use crate::strategy::{label_of, ExitReason, PositionContext, Signal, StrategyParams};
use crate::text::{lowercase_of, lowers_ascii, same_text, to_lowercase};
use vstd::prelude::*;

verus! {

/// After an exit, no entry is signalled for this many candles.
pub const LOCKOUT_BARS: i64 = 6;

/// The numbers that a run goes by.
#[derive(Clone, Copy, Debug, PartialEq, Eq, Structural)]
pub struct Terms {
    pub clip_size_usd: Double,
    pub take_profit_pct: Double,
    pub stop_loss_pct: Double,
    pub trailing_stop_pct: Double,
    pub trailing_activation_pct: Double,
    pub max_hold_secs: u64,
    pub leverage: Double,
    /// Fees are charged on the clip times this.
    pub fee_factor: Double,
    pub fee_rate: Double,
    pub borrow_rate_hourly: Double,
    pub interval_secs: Double,
    pub lockout_ms: i64,
    pub allows_long: bool,
    pub allows_short: bool,
}

/// The leverage, but at least 1.
pub open spec fn fee_factor_of(leverage: Double) -> Double {
    if leverage.gt(Double::of(ONE)) {
        leverage
    } else {
        Double::of(ONE)
    }
}

/// The terms that a strategy's parameters and the settings of a backtest come to,
/// with candles of this length.
pub open spec fn terms_of(
    ar: Arithmetic,
    params: StrategyParams,
    config: BacktestConfig,
    interval_ms: i64,
) -> Terms {
    Terms {
        clip_size_usd: params.clip_size_usd,
        take_profit_pct: params.take_profit_pct,
        stop_loss_pct: params.stop_loss_pct,
        trailing_stop_pct: params.trailing_stop_pct,
        trailing_activation_pct: params.trailing_activation_pct,
        max_hold_secs: params.max_hold_secs,
        leverage: config.leverage,
        fee_factor: fee_factor_of(config.leverage),
        fee_rate: config.fee_rate,
        borrow_rate_hourly: config.borrow_rate_hourly,
        interval_secs: over(ar, ar(Op::OfInt(interval_ms)), Double::of(THOUSAND)),
        lockout_ms: (LOCKOUT_BARS * interval_ms) as i64,
        allows_long: lowercase_of(params.direction_bias@) != "short"@,
        allows_short: lowercase_of(params.direction_bias@) != "long"@,
    }
}

impl Terms {
    /// Works out the terms of a run with candles of this length.
    pub fn new<F: Fn(Op) -> Double>(
        params: &StrategyParams,
        config: &BacktestConfig,
        interval_ms: i64,
        calc: &F,
    ) -> (r: Terms)
        requires
            answers(*calc),
            i64::MIN <= LOCKOUT_BARS * interval_ms <= i64::MAX,
        ensures
            forall|ar: Arithmetic| #[trigger]
                computes(*calc, ar) ==> r == terms_of(ar, *params, *config, interval_ms),
            r.lockout_ms == LOCKOUT_BARS * interval_ms,
            lowers_ascii(params.direction_bias@),
    {
        let bias = to_lowercase(params.direction_bias.as_str());
        let whole = calc(Op::OfInt(interval_ms));
        Terms {
            clip_size_usd: params.clip_size_usd,
            take_profit_pct: params.take_profit_pct,
            stop_loss_pct: params.stop_loss_pct,
            trailing_stop_pct: params.trailing_stop_pct,
            trailing_activation_pct: params.trailing_activation_pct,
            max_hold_secs: params.max_hold_secs,
            leverage: config.leverage,
            fee_factor: if config.leverage.gt(Double::of(ONE)) {
                config.leverage
            } else {
                Double::of(ONE)
            },
            fee_rate: config.fee_rate,
            borrow_rate_hourly: config.borrow_rate_hourly,
            interval_secs: calc(Op::Div(whole, Double::of(THOUSAND))),
            lockout_ms: LOCKOUT_BARS * interval_ms,
            allows_long: !same_text(bias.as_str(), "short"),
            allows_short: !same_text(bias.as_str(), "long"),
        }
    }
}

/// What a strategy answered on one bar.  Where it was not asked for an exit, the
/// answer is none; where it was not asked for an entry, the answer is to hold.
#[derive(Clone, Copy, Debug, PartialEq, Eq, Structural)]
pub struct Reply {
    pub exit: Option<Signal>,
    pub entry: Signal,
}

/// The state of a run.
#[derive(Clone, Debug)]
pub struct CellRun {
    pub terms: Terms,
    /// The open position, if there is one.
    pub position: Option<BtPosition>,
    /// The side to be opened at the next open, if there is one.
    pub pending: Option<bool>,
    /// The balance after the trades closed so far.
    pub balance: Double,
    pub max_equity: Double,
    /// Before this time no entry is signalled.
    pub cooldown_until_ms: i64,
    /// The equity before the first bar and after each bar.
    pub equity: Vec<Double>,
    pub stats: BacktestCellStats,
    pub trades: Vec<BtTrade>,
}

/// What the state of a run holds.
pub struct CellView {
    pub terms: Terms,
    pub position: Option<PositionView>,
    pub pending: Option<bool>,
    pub balance: Double,
    pub max_equity: Double,
    pub cooldown_until_ms: i64,
    pub equity: Seq<Double>,
    pub stats: StatsView,
    pub trades: Seq<TradeView>,
}

pub open spec fn position_view(position: Option<BtPosition>) -> Option<PositionView> {
    match position {
        Some(p) => Some(p@),
        None => None,
    }
}

impl View for CellRun {
    type V = CellView;

    open spec fn view(&self) -> CellView {
        CellView {
            terms: self.terms,
            position: position_view(self.position),
            pending: self.pending,
            balance: self.balance,
            max_equity: self.max_equity,
            cooldown_until_ms: self.cooldown_until_ms,
            equity: self.equity@,
            stats: self.stats@,
            trades: trade_views(self.trades@),
        }
    }
}

/// The fee for opening or closing a position of this size.
pub open spec fn turnover_fee(ar: Arithmetic, terms: Terms, size_usd: Double) -> Double {
    times(ar, times(ar, size_usd, terms.fee_factor), terms.fee_rate)
}

/// The profit of a position that is closed at `price`, before fees.
pub open spec fn gross_at(ar: Arithmetic, p: PositionView, price: Double) -> Double {
    if p.is_long {
        over(ar, times(ar, p.size_usd, minus(ar, price, p.entry_price)), p.entry_price)
    } else {
        over(ar, times(ar, p.size_usd, minus(ar, p.entry_price, price)), p.entry_price)
    }
}

pub open spec fn side_of(is_long: bool) -> Seq<char> {
    if is_long {
        "LONG"@
    } else {
        "SHORT"@
    }
}

/// The record of a position that was closed at `price` and at `time_ms` with this
/// gross profit.
pub open spec fn trade_of(
    ar: Arithmetic,
    terms: Terms,
    stats: StatsView,
    p: PositionView,
    price: Double,
    gross: Double,
    reason: Seq<char>,
    time_ms: i64,
) -> TradeView {
    let exit_fee = turnover_fee(ar, terms, p.size_usd);
    TradeView {
        strategy: stats.strategy,
        market: stats.market,
        side: side_of(p.is_long),
        entry_price: p.entry_price,
        exit_price: price,
        size_usd: p.size_usd,
        gross_pnl: gross,
        entry_fee: p.entry_fee,
        exit_fee,
        borrow_fee: p.accrued_borrow_fee,
        net_pnl: minus(ar, minus(ar, gross, exit_fee), p.accrued_borrow_fee),
        hold_secs: secs_between(p.open_time_ms as int, time_ms as int),
        exit_reason: reason,
        entry_time: stamp_of(p.open_time_ms),
        exit_time: stamp_of(time_ms),
    }
}

impl CellView {
    /// A position that is opened at the bar's open.
    pub open spec fn opened(self, ar: Arithmetic, is_long: bool, bar: Bar) -> PositionView {
        PositionView {
            symbol: self.stats.market,
            is_long,
            entry_price: bar.open,
            current_price: bar.open,
            peak_price: bar.open,
            size_usd: self.terms.clip_size_usd,
            leverage: self.terms.leverage,
            open_time_ms: bar.t,
            entry_fee: turnover_fee(ar, self.terms, self.terms.clip_size_usd),
            accrued_borrow_fee: Double::of(ZERO),
            borrow_rate_hourly: self.terms.borrow_rate_hourly,
        }
    }

    /// A pending entry is filled at the bar's open; with a position open already it
    /// is dropped.
    pub open spec fn filled(self, ar: Arithmetic, bar: Bar) -> CellView {
        CellView {
            position: match self.position {
                Some(p) => Some(p),
                None => match self.pending {
                    Some(is_long) => Some(self.opened(ar, is_long, bar)),
                    None => None,
                },
            },
            pending: None,
            ..self
        }
    }

    /// The open position takes in the bar's close.
    pub open spec fn marked(self, ar: Arithmetic, bar: Bar) -> CellView {
        CellView {
            position: match self.position {
                Some(p) => Some(p.updated(ar, bar.close, self.terms.interval_secs)),
                None => None,
            },
            ..self
        }
    }

    /// The run once the bar's prices are taken in.
    pub open spec fn begun(self, ar: Arithmetic, bar: Bar) -> CellView {
        self.filled(ar, bar).marked(ar, bar)
    }

    /// The exit that the bar's range brings about.
    pub open spec fn level(self, ar: Arithmetic, bar: Bar) -> Option<(ExitReason, Double)> {
        match self.position {
            Some(p) => level_exit(
                ar,
                p.is_long,
                p.entry_price,
                self.terms.take_profit_pct,
                self.terms.stop_loss_pct,
                bar.low,
                bar.high,
            ),
            None => None,
        }
    }

    /// What the strategy is told of the open position.
    pub open spec fn context(self, bar: Bar) -> Option<PositionContext> {
        match self.position {
            Some(p) => Some(
                PositionContext {
                    is_long: p.is_long,
                    entry_price: p.entry_price,
                    current_price: bar.close,
                    peak_price: p.peak_price,
                    hold_secs: secs_between(p.open_time_ms as int, bar.t as int) as u64,
                    max_hold_secs: self.terms.max_hold_secs,
                    take_profit_pct: self.terms.take_profit_pct,
                    stop_loss_pct: self.terms.stop_loss_pct,
                    trailing_stop_pct: self.terms.trailing_stop_pct,
                    trailing_activation_pct: self.terms.trailing_activation_pct,
                },
            ),
            None => None,
        }
    }

    /// What the strategy is asked: with a position open that the bar's range leaves
    /// open, whether to close it.
    pub open spec fn query(self, ar: Arithmetic, bar: Bar) -> Option<PositionContext> {
        if self.level(ar, bar) is None {
            self.context(bar)
        } else {
            None
        }
    }

    /// The exit that is taken, and its price: the one at a price level, or else the
    /// one that the strategy signals for the position's side, at the close.
    pub open spec fn exit_with(
        self,
        bar: Bar,
        level: Option<(ExitReason, Double)>,
        signal: Option<Signal>,
    ) -> Option<(ExitReason, Double)> {
        match self.position {
            None => None,
            Some(p) => match level {
                Some(hit) => Some(hit),
                None => match signal {
                    Some(Signal::ExitLong { reason }) => if p.is_long {
                        Some((reason, bar.close))
                    } else {
                        None
                    },
                    Some(Signal::ExitShort { reason }) => if !p.is_long {
                        Some((reason, bar.close))
                    } else {
                        None
                    },
                    _ => None,
                },
            },
        }
    }

    /// The run with its position closed on the bar.
    pub open spec fn closed(
        self,
        ar: Arithmetic,
        bar: Bar,
        reason: ExitReason,
        price: Double,
    ) -> CellView {
        let p = self.position->0;
        let trade = trade_of(
            ar,
            self.terms,
            self.stats,
            p,
            price,
            gross_at(ar, p, price),
            label_of(reason),
            bar.t,
        );
        CellView {
            position: None,
            balance: plus(ar, self.balance, trade.net_pnl),
            cooldown_until_ms: (bar.t + self.terms.lockout_ms) as i64,
            stats: self.stats.booked(ar, trade).ranked(ar, trade),
            trades: self.trades.push(trade),
            ..self
        }
    }

    /// The balance with the open position at its current price.
    pub open spec fn equity_now(self, ar: Arithmetic) -> Double {
        let unrealized = match self.position {
            Some(p) => minus(ar, p.pnl_usd(ar), p.accrued_borrow_fee),
            None => Double::of(ZERO),
        };
        plus(ar, self.balance, unrealized)
    }

    /// The run with one more sample on its equity curve.
    pub open spec fn sampled(self, ar: Arithmetic) -> CellView {
        let now = self.equity_now(ar);
        let top = if now.gt(self.max_equity) {
            now
        } else {
            self.max_equity
        };
        let drawdown = minus(ar, top, now);
        CellView {
            equity: self.equity.push(now),
            max_equity: top,
            stats: StatsView {
                max_drawdown_usd: if drawdown.gt(self.stats.max_drawdown_usd) {
                    drawdown
                } else {
                    self.stats.max_drawdown_usd
                },
                ..self.stats
            },
            ..self
        }
    }

    /// The run once the exit, if there is one, is carried out and the equity sampled.
    pub open spec fn ended(
        self,
        ar: Arithmetic,
        bar: Bar,
        exit: Option<(ExitReason, Double)>,
    ) -> CellView {
        match exit {
            Some((reason, price)) => self.closed(ar, bar, reason, price).sampled(ar),
            None => self.sampled(ar),
        }
    }

    /// The strategy is asked for an entry.
    pub open spec fn wants_entry(self, bar: Bar) -> bool {
        self.position is None && bar.t >= self.cooldown_until_ms && self.pending is None
    }

    /// The run with the entry that the strategy signals pending, where the terms
    /// allow its side.
    pub open spec fn queued(self, signal: Signal) -> CellView {
        CellView {
            pending: match signal {
                Signal::MomentumLong { .. } => if self.terms.allows_long {
                    Some(true)
                } else {
                    self.pending
                },
                Signal::MomentumShort { .. } => if self.terms.allows_short {
                    Some(false)
                } else {
                    self.pending
                },
                _ => self.pending,
            },
            ..self
        }
    }

    /// The run once the bar is done but for the entry.
    pub open spec fn settled(self, ar: Arithmetic, bar: Bar, exit: Option<Signal>) -> CellView {
        let begun = self.begun(ar, bar);
        begun.ended(ar, bar, begun.exit_with(bar, begun.level(ar, bar), exit))
    }

    /// The run after one more bar, given what the strategy answered.  A bar that is
    /// not usable is passed over.
    pub open spec fn after_bar(self, ar: Arithmetic, bar: Bar, reply: Reply) -> CellView {
        if !bar.is_usable() {
            self
        } else {
            let settled = self.settled(ar, bar, reply.exit);
            if settled.wants_entry(bar) {
                settled.queued(reply.entry)
            } else {
                settled
            }
        }
    }

    /// The run after these bars.
    pub open spec fn after_bars(self, ar: Arithmetic, bars: Seq<Bar>, replies: Seq<Reply>) -> CellView
        decreases bars.len(),
    {
        if bars.len() == 0 {
            self
        } else {
            self.after_bars(ar, bars.drop_last(), replies.drop_last()).after_bar(
                ar,
                bars.last(),
                replies.last(),
            )
        }
    }

    /// The run with a position that is still open closed at its current price.
    pub open spec fn forced(self, ar: Arithmetic, last_ms: i64) -> CellView {
        match self.position {
            None => self,
            Some(p) => {
                let trade = trade_of(
                    ar,
                    self.terms,
                    self.stats,
                    p,
                    p.current_price,
                    p.pnl_usd(ar),
                    "end_of_data"@,
                    last_ms,
                );
                CellView {
                    position: None,
                    stats: self.stats.booked(ar, trade).ranked(ar, trade),
                    trades: self.trades.push(trade),
                    ..self
                }
            },
        }
    }

    /// The run at its end: nothing is open, and the statistics are complete.
    pub open spec fn finished(self, ar: Arithmetic, last_ms: i64) -> CellView {
        let forced = self.forced(ar, last_ms);
        CellView {
            stats: StatsView {
                sharpe_ratio: sharpe_of(ar, forced.equity, self.terms.interval_secs),
                ..forced.stats
            }.finalized(ar),
            ..forced
        }
    }
}

/// The statistics of a run that has not begun.
pub open spec fn blank_stats(
    strategy: Seq<char>,
    market: Seq<char>,
    interval: Seq<char>,
    candles: Seq<HlCandle>,
) -> StatsView {
    StatsView {
        strategy,
        market,
        interval,
        total_candles: candles.len(),
        start_time: stamp_of(
            if candles.len() > 0 {
                candles.first().t
            } else {
                0
            },
        ),
        end_time: stamp_of(
            if candles.len() > 0 {
                candles.last().t_close
            } else {
                0
            },
        ),
        strategy_source: source_of(strategy),
        ..no_stats()
    }
}

/// A run that has not begun.
pub open spec fn fresh_cell(terms: Terms, balance: Double, stats: StatsView) -> CellView {
    CellView {
        terms,
        position: None,
        pending: None,
        balance,
        max_equity: balance,
        cooldown_until_ms: 0,
        equity: seq![balance],
        stats,
        trades: Seq::empty(),
    }
}

/// The open time of the position, if there is one.
pub open spec fn opened_at(position: Option<BtPosition>) -> Option<i64> {
    match position {
        Some(p) => Some(p.open_time_ms),
        None => None,
    }
}

impl CellRun {
    /// Times reckoned on a bar at `t` fit the machine's integers.
    pub open spec fn time_fits(self, t: int) -> bool {
        &&& self.position matches Some(p) ==> span_fits(p.open_time_ms as int, t)
        &&& i64::MIN <= t + self.terms.lockout_ms <= i64::MAX
    }

    /// One more trade can be counted.
    pub open spec fn has_room(self) -> bool {
        self.stats.trade_count < usize::MAX && self.stats.win_count < usize::MAX
            && self.stats.loss_count < usize::MAX
    }

    /// Starts a run.
    pub fn start(
        strategy: &str,
        market: &str,
        interval: &str,
        candles: &Vec<HlCandle>,
        terms: Terms,
        balance: Double,
    ) -> (r: CellRun)
        ensures
            r@ == fresh_cell(
                terms,
                balance,
                blank_stats(strategy@, market@, interval@, candles@),
            ),
    {
        let (first_ms, last_ms) = if candles.len() > 0 {
            (candles[0].t, candles[candles.len() - 1].t_close)
        } else {
            (0, 0)
        };
        let none = BacktestCellStats::default();
        let stats = BacktestCellStats {
            strategy: strategy.to_owned(),
            market: market.to_owned(),
            interval: interval.to_owned(),
            total_candles: candles.len(),
            start_time: stamp(first_ms),
            end_time: stamp(last_ms),
            strategy_source: strategy_source_path(strategy),
            ..none
        };
        let mut equity: Vec<Double> = Vec::new();
        equity.push(balance);
        let r = CellRun {
            terms,
            position: None,
            pending: None,
            balance,
            max_equity: balance,
            cooldown_until_ms: 0,
            equity,
            stats,
            trades: Vec::new(),
        };
        assert(r@.equity =~= seq![balance]);
        assert(r@.trades =~= Seq::empty());
        r
    }

    /// The fee for opening or closing a position of this size.
    fn fee<F: Fn(Op) -> Double>(&self, size_usd: Double, calc: &F) -> (r: Double)
        requires
            answers(*calc),
        ensures
            forall|ar: Arithmetic| #[trigger]
                computes(*calc, ar) ==> r == turnover_fee(ar, self.terms, size_usd),
    {
        let notional = calc(Op::Mul(size_usd, self.terms.fee_factor));
        calc(Op::Mul(notional, self.terms.fee_rate))
    }

    /// Takes in a bar's prices: fills the pending entry at the open, then lets the
    /// open position take in the close.
    pub fn begin_bar<F: Fn(Op) -> Double>(&mut self, bar: Bar, calc: &F)
        requires
            answers(*calc),
        ensures
            forall|ar: Arithmetic| #[trigger]
                computes(*calc, ar) ==> final(self)@ == old(self)@.begun(ar, bar),
            opened_at(final(self).position) == (match opened_at(old(self).position) {
                Some(t) => Some(t),
                None => if old(self).pending is Some {
                    Some(bar.t)
                } else {
                    None
                },
            }),
            final(self).pending is None,
            final(self).terms == old(self).terms,
            final(self).stats == old(self).stats,
            final(self).trades == old(self).trades,
    {
        let pending = self.pending;
        self.pending = None;
        let opened = match self.position.take() {
            Some(p) => Some(p),
            None => match pending {
                Some(is_long) => Some(
                    BtPosition {
                        symbol: self.stats.market.clone(),
                        is_long,
                        entry_price: bar.open,
                        current_price: bar.open,
                        peak_price: bar.open,
                        size_usd: self.terms.clip_size_usd,
                        leverage: self.terms.leverage,
                        open_time_ms: bar.t,
                        entry_fee: self.fee(self.terms.clip_size_usd, calc),
                        accrued_borrow_fee: Double::of(ZERO),
                        borrow_rate_hourly: self.terms.borrow_rate_hourly,
                    },
                ),
                None => None,
            },
        };
        if let Some(p) = opened {
            let mut p = p;
            p.update_price(bar.close, self.terms.interval_secs, calc);
            self.position = Some(p);
        }
    }

    /// The exit that the bar's range brings about.
    pub fn level<F: Fn(Op) -> Double>(&self, bar: Bar, calc: &F) -> (r: Option<(ExitReason, Double)>)
        requires
            answers(*calc),
        ensures
            forall|ar: Arithmetic| #[trigger]
                computes(*calc, ar) ==> r == self@.level(ar, bar),
            self.position is None ==> r is None,
    {
        match &self.position {
            Some(p) => intra_candle_tp_sl_hit(
                p.is_long,
                p.entry_price,
                self.terms.take_profit_pct,
                self.terms.stop_loss_pct,
                bar.low,
                bar.high,
                calc,
            ),
            None => None,
        }
    }

    /// What the strategy is told of the open position.
    pub fn context(&self, bar: Bar) -> (r: Option<PositionContext>)
        requires
            self.time_fits(bar.t as int),
        ensures
            r == self@.context(bar),
    {
        match &self.position {
            Some(p) => Some(
                PositionContext {
                    is_long: p.is_long,
                    entry_price: p.entry_price,
                    current_price: bar.close,
                    peak_price: p.peak_price,
                    hold_secs: p.hold_secs(bar.t),
                    max_hold_secs: self.terms.max_hold_secs,
                    take_profit_pct: self.terms.take_profit_pct,
                    stop_loss_pct: self.terms.stop_loss_pct,
                    trailing_stop_pct: self.terms.trailing_stop_pct,
                    trailing_activation_pct: self.terms.trailing_activation_pct,
                },
            ),
            None => None,
        }
    }

    /// The exit that is taken, and its price.
    pub fn exit_with(
        &self,
        bar: Bar,
        level: Option<(ExitReason, Double)>,
        signal: Option<Signal>,
    ) -> (r: Option<(ExitReason, Double)>)
        ensures
            r == self@.exit_with(bar, level, signal),
    {
        match &self.position {
            None => None,
            Some(p) => match level {
                Some(hit) => Some(hit),
                None => match signal {
                    Some(Signal::ExitLong { reason }) => if p.is_long {
                        Some((reason, bar.close))
                    } else {
                        None
                    },
                    Some(Signal::ExitShort { reason }) => if !p.is_long {
                        Some((reason, bar.close))
                    } else {
                        None
                    },
                    _ => None,
                },
            },
        }
    }

    /// The record of a position that was closed.
    fn trade<F: Fn(Op) -> Double>(
        &self,
        p: &BtPosition,
        price: Double,
        gross: Double,
        reason: &str,
        time_ms: i64,
        calc: &F,
    ) -> (r: BtTrade)
        requires
            answers(*calc),
            span_fits(p.open_time_ms as int, time_ms as int),
        ensures
            forall|ar: Arithmetic| #[trigger]
                computes(*calc, ar) ==> r@ == trade_of(
                    ar,
                    self.terms,
                    self.stats@,
                    p@,
                    price,
                    gross,
                    reason@,
                    time_ms,
                ),
    {
        let exit_fee = self.fee(p.size_usd, calc);
        let after_exit = calc(Op::Sub(gross, exit_fee));
        let side = if p.is_long {
            "LONG"
        } else {
            "SHORT"
        };
        BtTrade {
            strategy: self.stats.strategy.clone(),
            market: self.stats.market.clone(),
            side: side.to_owned(),
            entry_price: p.entry_price,
            exit_price: price,
            size_usd: p.size_usd,
            gross_pnl: gross,
            entry_fee: p.entry_fee,
            exit_fee,
            borrow_fee: p.accrued_borrow_fee,
            net_pnl: calc(Op::Sub(after_exit, p.accrued_borrow_fee)),
            hold_secs: p.hold_secs(time_ms),
            exit_reason: reason.to_owned(),
            entry_time: stamp(p.open_time_ms),
            exit_time: stamp(time_ms),
        }
    }

    /// Closes the open position on the bar.
    fn close<F: Fn(Op) -> Double>(
        &mut self,
        bar: Bar,
        reason: ExitReason,
        price: Double,
        calc: &F,
    )
        requires
            answers(*calc),
            old(self).position is Some,
            old(self).time_fits(bar.t as int),
            old(self).has_room(),
        ensures
            forall|ar: Arithmetic| #[trigger]
                computes(*calc, ar) ==> final(self)@ == old(self)@.closed(ar, bar, reason, price),
            final(self).position is None,
            final(self).pending == old(self).pending,
            final(self).terms == old(self).terms,
            final(self).stats.trade_count == old(self).stats.trade_count + 1,
            final(self).stats.win_count + final(self).stats.loss_count
                == old(self).stats.win_count + old(self).stats.loss_count + 1,
            final(self).trades.len() == old(self).trades.len() + 1,
    {
        if let Some(p) = self.position.take() {
            let change = if p.is_long {
                calc(Op::Sub(price, p.entry_price))
            } else {
                calc(Op::Sub(p.entry_price, price))
            };
            let scaled = calc(Op::Mul(p.size_usd, change));
            let gross = calc(Op::Div(scaled, p.entry_price));
            let trade = self.trade(&p, price, gross, reason.label(), bar.t, calc);
            self.balance = calc(Op::Add(self.balance, trade.net_pnl));
            self.cooldown_until_ms = bar.t + self.terms.lockout_ms;
            self.stats.book(&trade, calc);
            self.stats.rank(&trade, calc);
            let ghost before = self.trades@;
            self.trades.push(trade);
            assert(trade_views(self.trades@) =~= trade_views(before).push(trade@));
        }
    }

    /// Samples the equity.
    fn sample<F: Fn(Op) -> Double>(&mut self, calc: &F)
        requires
            answers(*calc),
        ensures
            forall|ar: Arithmetic| #[trigger]
                computes(*calc, ar) ==> final(self)@ == old(self)@.sampled(ar),
            final(self).position == old(self).position,
            final(self).pending == old(self).pending,
            final(self).terms == old(self).terms,
            final(self).stats.trade_count == old(self).stats.trade_count,
            final(self).stats.win_count == old(self).stats.win_count,
            final(self).stats.loss_count == old(self).stats.loss_count,
            final(self).trades == old(self).trades,
    {
        let unrealized = match &self.position {
            Some(p) => {
                let profit = p.unrealized_pnl_usd(calc);
                calc(Op::Sub(profit, p.accrued_borrow_fee))
            },
            None => Double::of(ZERO),
        };
        let now = calc(Op::Add(self.balance, unrealized));
        self.equity.push(now);
        if now.gt(self.max_equity) {
            self.max_equity = now;
        }
        let drawdown = calc(Op::Sub(self.max_equity, now));
        if drawdown.gt(self.stats.max_drawdown_usd) {
            self.stats.max_drawdown_usd = drawdown;
        }
    }

    /// Carries out the exit, if there is one, and samples the equity.
    pub fn end_bar<F: Fn(Op) -> Double>(
        &mut self,
        bar: Bar,
        exit: Option<(ExitReason, Double)>,
        calc: &F,
    )
        requires
            answers(*calc),
            exit is Some ==> old(self).position is Some,
            old(self).time_fits(bar.t as int),
            old(self).has_room(),
        ensures
            forall|ar: Arithmetic| #[trigger]
                computes(*calc, ar) ==> final(self)@ == old(self)@.ended(ar, bar, exit),
            exit is Some ==> final(self).position is None,
            exit is None ==> final(self).position == old(self).position,
            final(self).pending == old(self).pending,
            final(self).terms == old(self).terms,
            final(self).stats.trade_count == old(self).stats.trade_count + (if exit is Some {
                1int
            } else {
                0
            }),
            final(self).stats.win_count + final(self).stats.loss_count
                == old(self).stats.win_count + old(self).stats.loss_count + (if exit is Some {
                1int
            } else {
                0
            }),
            final(self).trades.len() == old(self).trades.len() + (if exit is Some {
                1int
            } else {
                0
            }),
    {
        if let Some((reason, price)) = exit {
            self.close(bar, reason, price, calc);
        }
        self.sample(calc);
    }

    /// Whether the strategy is to be asked for an entry.
    pub fn wants_entry(&self, bar: Bar) -> (r: bool)
        ensures
            r == self@.wants_entry(bar),
    {
        self.position.is_none() && bar.t >= self.cooldown_until_ms && self.pending.is_none()
    }

    /// Makes the entry that the strategy signals pending, where the terms allow its
    /// side.
    pub fn queue(&mut self, signal: Signal)
        ensures
            final(self)@ == old(self)@.queued(signal),
            final(self).position == old(self).position,
            final(self).terms == old(self).terms,
            final(self).stats == old(self).stats,
            final(self).trades == old(self).trades,
    {
        match signal {
            Signal::MomentumLong { .. } => if self.terms.allows_long {
                self.pending = Some(true);
            },
            Signal::MomentumShort { .. } => if self.terms.allows_short {
                self.pending = Some(false);
            },
            _ => {},
        }
    }

    /// Closes a position that is still open at its current price, and completes the
    /// statistics.
    pub fn finish<F: Fn(Op) -> Double>(&mut self, last_ms: i64, calc: &F)
        requires
            answers(*calc),
            old(self).position matches Some(p) ==> span_fits(
                p.open_time_ms as int,
                last_ms as int,
            ),
            old(self).position is Some ==> old(self).has_room(),
        ensures
            forall|ar: Arithmetic| #[trigger]
                computes(*calc, ar) ==> final(self)@ == old(self)@.finished(ar, last_ms),
            final(self).position is None,
            final(self).stats.trade_count == old(self).stats.trade_count + (
            if old(self).position is Some {
                1int
            } else {
                0
            }),
            final(self).trades.len() == old(self).trades.len() + (if old(self).position is Some {
                1int
            } else {
                0
            }),
    {
        if let Some(p) = self.position.take() {
            let gross = p.unrealized_pnl_usd(calc);
            let trade = self.trade(&p, p.current_price, gross, "end_of_data", last_ms, calc);
            self.stats.book(&trade, calc);
            self.stats.rank(&trade, calc);
            let ghost before = self.trades@;
            self.trades.push(trade);
            assert(trade_views(self.trades@) =~= trade_views(before).push(trade@));
        }
        self.stats.sharpe_ratio = sharpe(&self.equity, self.terms.interval_secs, calc);
        self.stats.finalize(calc);
    }
}

/// The model of a run says what the run holds, field by field.
pub proof fn run_views_are_faithful(run: CellRun)
    ensures
        run@.terms == run.terms,
        run.position is None <==> run@.position is None,
        run.position matches Some(p) ==> run@.position == Some(p@),
        run@.pending == run.pending,
        run@.balance == run.balance,
        run@.max_equity == run.max_equity,
        run@.cooldown_until_ms == run.cooldown_until_ms,
        run@.equity == run.equity@,
        run@.stats == run.stats@,
        run@.trades.len() == run.trades@.len(),
        forall|k: int| 0 <= k < run.trades@.len() ==> #[trigger] run@.trades[k] == run.trades@[k]@,
{
}

} // verus!
