//! What holds of every run, whatever the prices, the strategy and the arithmetic.
use crate::candle::{bar_of, Bar, HlCandle};
use crate::cell::{
    fee_factor_of, gross_at, side_of, trade_of, turnover_fee, CellView, Reply, Terms,
};
use crate::config::BacktestConfig;
use crate::engine::{bars_of, cell_start, is_cell_by, is_cell_of};
use crate::number::{minus, plus, times, Arithmetic, Double, Op, Reading, ONE, ZERO};
use crate::position::PositionView;
use crate::source::source_of;
use crate::stats::{mean_hold, sum_of, StatsView, TradeView};
use crate::strategy::{label_of, ExitReason, Signal, Strategy, StrategyParams};
use crate::talk::{replies_of, Round};
use crate::text::{ascii_lowered, is_ascii_text, lowercase_of};
use vstd::prelude::*;

verus! {

/// The gross profits of the trades.
pub open spec fn gross_pnls(trades: Seq<TradeView>) -> Seq<Double> {
    trades.map_values(|t: TradeView| t.gross_pnl)
}

/// The net profits of the trades.
pub open spec fn net_pnls(trades: Seq<TradeView>) -> Seq<Double> {
    trades.map_values(|t: TradeView| t.net_pnl)
}

/// All the fees of each trade.
pub open spec fn all_fees(ar: Arithmetic, trades: Seq<TradeView>) -> Seq<Double> {
    trades.map_values(
        |t: TradeView| ar(Op::Add(ar(Op::Add(t.entry_fee, t.exit_fee)), t.borrow_fee)),
    )
}

pub open spec fn entry_fees(trades: Seq<TradeView>) -> Seq<Double> {
    trades.map_values(|t: TradeView| t.entry_fee)
}

pub open spec fn exit_fees(trades: Seq<TradeView>) -> Seq<Double> {
    trades.map_values(|t: TradeView| t.exit_fee)
}

pub open spec fn borrow_fees(trades: Seq<TradeView>) -> Seq<Double> {
    trades.map_values(|t: TradeView| t.borrow_fee)
}

/// How many of the trades did not lose money.
pub open spec fn wins_in(trades: Seq<TradeView>) -> nat
    decreases trades.len(),
{
    if trades.len() == 0 {
        0
    } else {
        wins_in(trades.drop_last()) + (if Double::of(ZERO).le(trades.last().net_pnl) {
            1nat
        } else {
            0
        })
    }
}

/// The counts, the totals and the mean hold time are those of the trades, and each
/// trade carries the names of its cell.
pub open spec fn sums_trades(ar: Arithmetic, stats: StatsView, trades: Seq<TradeView>) -> bool {
    &&& stats.trade_count == trades.len()
    &&& stats.win_count == wins_in(trades)
    &&& stats.win_count + stats.loss_count == stats.trade_count
    &&& stats.gross_pnl == sum_of(ar, gross_pnls(trades))
    &&& stats.net_pnl == sum_of(ar, net_pnls(trades))
    &&& stats.total_fees == sum_of(ar, all_fees(ar, trades))
    &&& stats.entry_fees_total == sum_of(ar, entry_fees(trades))
    &&& stats.exit_fees_total == sum_of(ar, exit_fees(trades))
    &&& stats.borrow_fees_total == sum_of(ar, borrow_fees(trades))
    &&& stats.avg_hold_secs == mean_hold(ar, trades)
    &&& forall|k: int|
        0 <= k < trades.len() ==> (#[trigger] trades[k]).strategy == stats.strategy
            && trades[k].market == stats.market
}

proof fn sum_goes_on(ar: Arithmetic, stats: StatsView, trades: Seq<TradeView>, trade: TradeView)
    requires
        sums_trades(ar, stats, trades),
        trade.strategy == stats.strategy,
        trade.market == stats.market,
    ensures
        sums_trades(ar, stats.booked(ar, trade).ranked(ar, trade), trades.push(trade)),
{
    let longer = trades.push(trade);
    assert(longer.drop_last() =~= trades);
    assert(gross_pnls(longer).drop_last() =~= gross_pnls(trades));
    assert(net_pnls(longer).drop_last() =~= net_pnls(trades));
    assert(all_fees(ar, longer).drop_last() =~= all_fees(ar, trades));
    assert(entry_fees(longer).drop_last() =~= entry_fees(trades));
    assert(exit_fees(longer).drop_last() =~= exit_fees(trades));
    assert(borrow_fees(longer).drop_last() =~= borrow_fees(trades));
}

proof fn sums_after_bar(ar: Arithmetic, cell: CellView, bar: Bar, reply: Reply)
    requires
        sums_trades(ar, cell.stats, cell.trades),
    ensures
        sums_trades(
            ar,
            cell.after_bar(ar, bar, reply).stats,
            cell.after_bar(ar, bar, reply).trades,
        ),
{
    let begun = cell.begun(ar, bar);
    match begun.exit_with(bar, begun.level(ar, bar), reply.exit) {
        Some((reason, price)) => {
            let p = begun.position->0;
            let trade = trade_of(
                ar,
                begun.terms,
                begun.stats,
                p,
                price,
                gross_at(ar, p, price),
                label_of(reason),
                bar.t,
            );
            sum_goes_on(ar, begun.stats, begun.trades, trade);
        },
        None => {},
    }
}

proof fn sums_after_bars(ar: Arithmetic, cell: CellView, bars: Seq<Bar>, replies: Seq<Reply>)
    requires
        sums_trades(ar, cell.stats, cell.trades),
    ensures
        sums_trades(
            ar,
            cell.after_bars(ar, bars, replies).stats,
            cell.after_bars(ar, bars, replies).trades,
        ),
    decreases bars.len(),
{
    if bars.len() > 0 {
        sums_after_bars(ar, cell, bars.drop_last(), replies.drop_last());
        sums_after_bar(
            ar,
            cell.after_bars(ar, bars.drop_last(), replies.drop_last()),
            bars.last(),
            replies.last(),
        );
    }
}

/// The statistics of a cell are those of its trades: every trade is counted once, as
/// a win or as a loss, the totals are the sums over the trades in their order, and the
/// mean hold time is that of all the trades.
pub proof fn statistics_sum_the_trades<S: Strategy>(
    ar: Arithmetic,
    rd: Reading,
    config: BacktestConfig,
    strategy_name: Seq<char>,
    market: Seq<char>,
    candles: Seq<HlCandle>,
    strategy: S,
    stats: StatsView,
    trades: Seq<TradeView>,
)
    requires
        is_cell_of(
            ar,
            rd,
            config,
            strategy_name,
            market,
            candles,
            strategy,
            stats,
            trades,
        ),
    ensures
        sums_trades(ar, stats, trades),
{
    let (params, rounds) = choose|params: StrategyParams, rounds: Seq<Round<S>>| #[trigger]
        is_cell_by(
            ar,
            rd,
            config,
            strategy_name,
            market,
            candles,
            strategy,
            params,
            rounds,
            stats,
            trades,
        );
    let start = cell_start(ar, config, params, strategy_name, market, candles);
    let bars = bars_of(rd, candles);
    let replies = replies_of(rounds);
    assert(start.trades =~= Seq::empty());
    sums_after_bars(ar, start, bars, replies);
    let run = start.after_bars(ar, bars, replies);
    if run.position is Some {
        let p = run.position->0;
        let last_ms = if bars.len() > 0 {
            bars.last().t
        } else {
            0
        };
        let trade = trade_of(
            ar,
            run.terms,
            run.stats,
            p,
            p.current_price,
            p.pnl_usd(ar),
            "end_of_data"@,
            last_ms,
        );
        sum_goes_on(ar, run.stats, run.trades, trade);
    }
}

/// The terms allow a position on this side.
pub open spec fn allows(terms: Terms, is_long: bool) -> bool {
    if is_long {
        terms.allows_long
    } else {
        terms.allows_short
    }
}

/// The run keeps to the sides that its terms allow.
pub open spec fn keeps_sides(cell: CellView) -> bool {
    &&& cell.position matches Some(p) ==> allows(cell.terms, p.is_long)
    &&& cell.pending matches Some(is_long) ==> allows(cell.terms, is_long)
    &&& forall|k: int|
        0 <= k < cell.trades.len() ==> (#[trigger] cell.trades[k]).side == side_of(true)
            && cell.terms.allows_long || cell.trades[k].side == side_of(false)
            && cell.terms.allows_short
}

proof fn sides_after_bars(ar: Arithmetic, cell: CellView, bars: Seq<Bar>, replies: Seq<Reply>)
    requires
        keeps_sides(cell),
    ensures
        keeps_sides(cell.after_bars(ar, bars, replies)),
        cell.after_bars(ar, bars, replies).terms == cell.terms,
    decreases bars.len(),
{
    if bars.len() > 0 {
        sides_after_bars(ar, cell, bars.drop_last(), replies.drop_last());
    }
}

/// A strategy with the bias "short", in any letter case, never trades long, and one
/// with the bias "long" never trades short.
pub proof fn bias_is_kept<S: Strategy>(
    ar: Arithmetic,
    rd: Reading,
    config: BacktestConfig,
    strategy_name: Seq<char>,
    market: Seq<char>,
    candles: Seq<HlCandle>,
    strategy: S,
    params: StrategyParams,
    rounds: Seq<Round<S>>,
    stats: StatsView,
    trades: Seq<TradeView>,
)
    requires
        is_cell_by(
            ar,
            rd,
            config,
            strategy_name,
            market,
            candles,
            strategy,
            params,
            rounds,
            stats,
            trades,
        ),
    ensures
        lowercase_of(params.direction_bias@) == "short"@ ==> forall|k: int|
            0 <= k < trades.len() ==> (#[trigger] trades[k]).side == "SHORT"@,
        lowercase_of(params.direction_bias@) == "long"@ ==> forall|k: int|
            0 <= k < trades.len() ==> (#[trigger] trades[k]).side == "LONG"@,
        is_ascii_text(params.direction_bias@) && ascii_lowered(params.direction_bias@) == "short"@
            ==> forall|k: int| 0 <= k < trades.len() ==> (#[trigger] trades[k]).side == "SHORT"@,
        is_ascii_text(params.direction_bias@) && ascii_lowered(params.direction_bias@) == "long"@
            ==> forall|k: int| 0 <= k < trades.len() ==> (#[trigger] trades[k]).side == "LONG"@,
{
    let start = cell_start(ar, config, params, strategy_name, market, candles);
    let bars = bars_of(rd, candles);
    sides_after_bars(ar, start, bars, replies_of(rounds));
}

/// A strategy with an ASCII bias may trade long unless the bias is "short", and short
/// unless it is "long", in any letter case.
pub proof fn other_biases_leave_both_sides_open<S: Strategy>(
    ar: Arithmetic,
    rd: Reading,
    config: BacktestConfig,
    strategy_name: Seq<char>,
    market: Seq<char>,
    candles: Seq<HlCandle>,
    strategy: S,
    params: StrategyParams,
    rounds: Seq<Round<S>>,
    stats: StatsView,
    trades: Seq<TradeView>,
)
    requires
        is_cell_by(
            ar,
            rd,
            config,
            strategy_name,
            market,
            candles,
            strategy,
            params,
            rounds,
            stats,
            trades,
        ),
        is_ascii_text(params.direction_bias@),
    ensures
        ({
            let terms = cell_start(ar, config, params, strategy_name, market, candles).terms;
            &&& terms.allows_long <==> ascii_lowered(params.direction_bias@) != "short"@
            &&& terms.allows_short <==> ascii_lowered(params.direction_bias@) != "long"@
        }),
{
}

/// The trade was a clip in size, paid the same fee when it was opened and when it was
/// closed, and its net profit is what the exit fee and the borrow fee left of the gross.
pub open spec fn pays_its_way(ar: Arithmetic, terms: Terms, trade: TradeView) -> bool {
    &&& trade.size_usd == terms.clip_size_usd
    &&& trade.entry_fee == turnover_fee(ar, terms, terms.clip_size_usd)
    &&& trade.exit_fee == turnover_fee(ar, terms, terms.clip_size_usd)
    &&& trade.net_pnl == minus(ar, minus(ar, trade.gross_pnl, trade.exit_fee), trade.borrow_fee)
}

/// What is open is a clip in size and has paid the fee for it, and so had every trade.
pub open spec fn pays_fees(ar: Arithmetic, cell: CellView) -> bool {
    &&& cell.position matches Some(p) ==> p.size_usd == cell.terms.clip_size_usd && p.entry_fee
        == turnover_fee(ar, cell.terms, cell.terms.clip_size_usd)
    &&& forall|k: int|
        0 <= k < cell.trades.len() ==> pays_its_way(ar, cell.terms, #[trigger] cell.trades[k])
}

proof fn fees_after_bars(ar: Arithmetic, cell: CellView, bars: Seq<Bar>, replies: Seq<Reply>)
    requires
        pays_fees(ar, cell),
    ensures
        pays_fees(ar, cell.after_bars(ar, bars, replies)),
        cell.after_bars(ar, bars, replies).terms == cell.terms,
    decreases bars.len(),
{
    if bars.len() > 0 {
        fees_after_bars(ar, cell, bars.drop_last(), replies.drop_last());
    }
}

/// Every trade pays its fees on the levered notional: on the clip times the leverage,
/// and on no less than the clip, once when it is opened and once when it is closed.
pub proof fn fees_are_on_the_levered_notional<S: Strategy>(
    ar: Arithmetic,
    rd: Reading,
    config: BacktestConfig,
    strategy_name: Seq<char>,
    market: Seq<char>,
    candles: Seq<HlCandle>,
    strategy: S,
    params: StrategyParams,
    rounds: Seq<Round<S>>,
    stats: StatsView,
    trades: Seq<TradeView>,
    k: int,
)
    requires
        is_cell_by(
            ar,
            rd,
            config,
            strategy_name,
            market,
            candles,
            strategy,
            params,
            rounds,
            stats,
            trades,
        ),
        0 <= k < trades.len(),
    ensures
        trades[k].size_usd == params.clip_size_usd,
        trades[k].entry_fee == times(
            ar,
            times(ar, params.clip_size_usd, fee_factor_of(config.leverage)),
            config.fee_rate,
        ),
        trades[k].exit_fee == trades[k].entry_fee,
        trades[k].net_pnl == minus(
            ar,
            minus(ar, trades[k].gross_pnl, trades[k].exit_fee),
            trades[k].borrow_fee,
        ),
{
    let start = cell_start(ar, config, params, strategy_name, market, candles);
    let bars = bars_of(rd, candles);
    fees_after_bars(ar, start, bars, replies_of(rounds));
    assert(pays_its_way(ar, start.terms, trades[k]));
}

/// Nothing that a strategy answers on a bar's close opens a position on that bar: two
/// entry signals lead to the same run but for what is pending.
pub proof fn signals_wait_for_the_next_open(
    ar: Arithmetic,
    cell: CellView,
    bar: Bar,
    exit: Option<Signal>,
    one: Signal,
    other: Signal,
)
    ensures
        cell.after_bar(ar, bar, Reply { exit, entry: one }) == (CellView {
            pending: cell.after_bar(ar, bar, Reply { exit, entry: one }).pending,
            ..cell.after_bar(ar, bar, Reply { exit, entry: other })
        }),
{
}

/// A position is opened only where an entry was pending before the bar, on the
/// pending side, at the bar's open price and time.
pub proof fn positions_open_at_the_open(ar: Arithmetic, cell: CellView, bar: Bar, reply: Reply)
    requires
        cell.position is None,
    ensures
        cell.after_bar(ar, bar, reply).position matches Some(p) ==> {
            &&& cell.pending == Some(p.is_long)
            &&& p.entry_price == bar.open
            &&& p.open_time_ms == bar.t
        },
        cell.after_bar(ar, bar, reply).trades != cell.trades ==> {
            &&& cell.pending is Some
            &&& cell.after_bar(ar, bar, reply).trades.last().entry_price == bar.open
        },
        cell.pending is None ==> cell.after_bar(ar, bar, reply).position is None,
{
}

/// An open position takes in the close of each usable bar exactly once: one borrow
/// fee is added, and the best price follows.
pub proof fn open_positions_accrue_once(
    ar: Arithmetic,
    cell: CellView,
    bar: Bar,
    reply: Reply,
    before: PositionView,
    after: PositionView,
)
    requires
        cell.position == Some(before),
        cell.after_bar(ar, bar, reply).position == Some(after),
    ensures
        bar.is_usable() ==> after == before.updated(ar, bar.close, cell.terms.interval_secs),
        !bar.is_usable() ==> after == before,
{
}

/// A bar with a price that is zero, below zero or no number text changes nothing.
pub proof fn unusable_bars_change_nothing(ar: Arithmetic, cell: CellView, bar: Bar, reply: Reply)
    requires
        !bar.is_usable(),
    ensures
        cell.after_bar(ar, bar, reply) == cell,
{
}

/// A candle with a price text that cannot be read makes no usable bar.
pub proof fn unreadable_candles_are_unusable(rd: Reading, candle: HlCandle)
    requires
        rd(candle.o@) is None || rd(candle.h@) is None || rd(candle.l@) is None || rd(
            candle.c@,
        ) is None,
    ensures
        !bar_of(rd, candle).is_usable(),
{
}

/// Where the bar's range reaches a level, the strategy is not asked and has no say.
pub proof fn levels_go_before_the_strategy(
    ar: Arithmetic,
    cell: CellView,
    bar: Bar,
    one: Option<Signal>,
    other: Option<Signal>,
)
    requires
        cell.begun(ar, bar).level(ar, bar) is Some,
    ensures
        cell.begun(ar, bar).query(ar, bar) is None,
        cell.settled(ar, bar, one) == cell.settled(ar, bar, other),
{
}

/// The reason that an exit signal gives.
pub open spec fn reason_in(signal: Option<Signal>) -> Option<ExitReason> {
    match signal {
        Some(Signal::ExitLong { reason }) => Some(reason),
        Some(Signal::ExitShort { reason }) => Some(reason),
        _ => None,
    }
}

/// A bar adds at most one trade, and only where a position was open or pending.  It
/// fills at the level that the bar's range reached, or else at the bar's close for a
/// reason that the strategy gave.
pub proof fn exits_fill_at_level_or_close(ar: Arithmetic, cell: CellView, bar: Bar, reply: Reply)
    ensures
        cell.after_bar(ar, bar, reply).trades == cell.trades || {
            let after = cell.after_bar(ar, bar, reply);
            let begun = cell.begun(ar, bar);
            let trade = after.trades.last();
            &&& after.trades == cell.trades.push(trade)
            &&& begun.position is Some
            &&& after.position is None
            &&& match begun.level(ar, bar) {
                Some((reason, price)) => trade.exit_price == price && trade.exit_reason == label_of(
                    reason,
                ),
                None => trade.exit_price == bar.close && reason_in(reply.exit) is Some
                    && trade.exit_reason == label_of(reason_in(reply.exit)->0),
            }
        },
{
    let after = cell.after_bar(ar, bar, reply);
    let begun = cell.begun(ar, bar);
    if bar.is_usable() {
        match begun.exit_with(bar, begun.level(ar, bar), reply.exit) {
            Some((reason, price)) => {
                assert(after.trades =~= cell.trades.push(after.trades.last()));
            },
            None => {},
        }
    }
}

/// An exit starts a lockout: nothing is pending until the lockout's time has come.
pub proof fn exits_start_a_lockout(ar: Arithmetic, cell: CellView, bar: Bar, reply: Reply)
    requires
        cell.after_bar(ar, bar, reply).trades != cell.trades,
        cell.terms.lockout_ms > 0,
        bar.t + cell.terms.lockout_ms <= i64::MAX,
    ensures
        cell.after_bar(ar, bar, reply).position is None,
        cell.after_bar(ar, bar, reply).pending is None,
        cell.after_bar(ar, bar, reply).cooldown_until_ms == bar.t + cell.terms.lockout_ms,
{
}

/// While a lockout lasts, no trade is made, no position is opened and no entry is
/// queued, whatever the strategy answers.
pub proof fn lockouts_hold(ar: Arithmetic, cell: CellView, bars: Seq<Bar>, replies: Seq<Reply>)
    requires
        cell.position is None,
        cell.pending is None,
        forall|k: int| 0 <= k < bars.len() ==> (#[trigger] bars[k]).t < cell.cooldown_until_ms,
    ensures
        cell.after_bars(ar, bars, replies).position is None,
        cell.after_bars(ar, bars, replies).pending is None,
        cell.after_bars(ar, bars, replies).cooldown_until_ms == cell.cooldown_until_ms,
        cell.after_bars(ar, bars, replies).trades == cell.trades,
    decreases bars.len(),
{
    if bars.len() > 0 {
        assert forall|k: int| 0 <= k < bars.drop_last().len() implies (
        #[trigger] bars.drop_last()[k]).t < cell.cooldown_until_ms by {
            assert(bars[k].t < cell.cooldown_until_ms);
        }
        lockouts_hold(ar, cell, bars.drop_last(), replies.drop_last());
        assert(bars[bars.len() - 1].t < cell.cooldown_until_ms);
    }
}

/// Trades are only added: those made so far stay as they are.
pub proof fn trades_are_only_added(
    ar: Arithmetic,
    cell: CellView,
    bars: Seq<Bar>,
    replies: Seq<Reply>,
)
    ensures
        cell.trades.len() <= cell.after_bars(ar, bars, replies).trades.len(),
        cell.after_bars(ar, bars, replies).trades.take(cell.trades.len() as int) == cell.trades,
    decreases bars.len(),
{
    if bars.len() > 0 {
        let earlier = cell.after_bars(ar, bars.drop_last(), replies.drop_last());
        let now = cell.after_bars(ar, bars, replies);
        trades_are_only_added(ar, cell, bars.drop_last(), replies.drop_last());
        exits_fill_at_level_or_close(ar, earlier, bars.last(), replies.last());
        if now.trades != earlier.trades {
            assert(now.trades.take(cell.trades.len() as int) =~= earlier.trades.take(
                cell.trades.len() as int,
            ));
        }
    } else {
        assert(cell.trades.take(cell.trades.len() as int) =~= cell.trades);
    }
}

/// At the end nothing is open: a position that was becomes one last trade, at its
/// current price, and its equity curve and balance stay as they are.
pub proof fn nothing_stays_open(ar: Arithmetic, cell: CellView, last_ms: i64)
    ensures
        cell.finished(ar, last_ms).position is None,
        cell.finished(ar, last_ms).balance == cell.balance,
        cell.finished(ar, last_ms).equity == cell.equity,
        match cell.position {
            None => cell.finished(ar, last_ms).trades == cell.trades,
            Some(p) => {
                let trades = cell.finished(ar, last_ms).trades;
                &&& trades == cell.trades.push(trades.last())
                &&& trades.last().exit_price == p.current_price
                &&& trades.last().exit_reason == "end_of_data"@
            },
        },
{
    let trades = cell.finished(ar, last_ms).trades;
    if cell.position is Some {
        assert(trades =~= cell.trades.push(trades.last()));
    }
}

/// How many of the bars are usable.
pub open spec fn usable_in(bars: Seq<Bar>) -> nat
    decreases bars.len(),
{
    if bars.len() == 0 {
        0
    } else {
        usable_in(bars.drop_last()) + (if bars.last().is_usable() {
            1nat
        } else {
            0
        })
    }
}

/// The equity is sampled once for each usable bar, after the samples that are there.
pub proof fn equity_is_sampled_per_bar(
    ar: Arithmetic,
    cell: CellView,
    bars: Seq<Bar>,
    replies: Seq<Reply>,
)
    ensures
        cell.after_bars(ar, bars, replies).equity.len() == cell.equity.len() + usable_in(bars),
        cell.after_bars(ar, bars, replies).equity.take(cell.equity.len() as int) == cell.equity,
    decreases bars.len(),
{
    if bars.len() > 0 {
        let earlier = cell.after_bars(ar, bars.drop_last(), replies.drop_last());
        let now = cell.after_bars(ar, bars, replies);
        equity_is_sampled_per_bar(ar, cell, bars.drop_last(), replies.drop_last());
        assert(now.equity.take(cell.equity.len() as int) =~= earlier.equity.take(
            cell.equity.len() as int,
        ));
    } else {
        assert(cell.equity.take(cell.equity.len() as int) =~= cell.equity);
    }
}

/// Fees are charged on no less than the clip itself.
pub proof fn fee_factor_is_at_least_one(leverage: Double)
    ensures
        Double::of(ONE).le(fee_factor_of(leverage)),
{
}

/// The balance is the starting balance with the net profit of each trade added, in
/// their order.
pub open spec fn balance_after(ar: Arithmetic, start: Double, trades: Seq<TradeView>) -> Double
    decreases trades.len(),
{
    if trades.len() == 0 {
        start
    } else {
        plus(ar, balance_after(ar, start, trades.drop_last()), trades.last().net_pnl)
    }
}

/// The balance moves with the trades and with nothing else.
pub proof fn balance_follows_the_trades(
    ar: Arithmetic,
    start: Double,
    cell: CellView,
    bars: Seq<Bar>,
    replies: Seq<Reply>,
)
    requires
        cell.balance == balance_after(ar, start, cell.trades),
    ensures
        cell.after_bars(ar, bars, replies).balance == balance_after(
            ar,
            start,
            cell.after_bars(ar, bars, replies).trades,
        ),
    decreases bars.len(),
{
    if bars.len() > 0 {
        let earlier = cell.after_bars(ar, bars.drop_last(), replies.drop_last());
        let now = cell.after_bars(ar, bars, replies);
        balance_follows_the_trades(ar, start, cell, bars.drop_last(), replies.drop_last());
        exits_fill_at_level_or_close(ar, earlier, bars.last(), replies.last());
        if now.trades != earlier.trades {
            assert(now.trades.drop_last() =~= earlier.trades);
        } else {
            let begun = earlier.begun(ar, bars.last());
            if bars.last().is_usable() && begun.exit_with(
                bars.last(),
                begun.level(ar, bars.last()),
                replies.last().exit,
            ) is Some {
                assert(now.trades.len() == earlier.trades.len() + 1);
            }
        }
    }
}

/// The best and the worst trade bound the trades: none has gained more than the best or
/// lost more than the worst.  The best is one of the trades, or zero where none has
/// gained more than that; and so is the worst where none has lost.
pub open spec fn bounds_trades(stats: StatsView, trades: Seq<TradeView>) -> bool {
    &&& Double::of(ZERO).le(stats.best_trade_pnl)
    &&& stats.worst_trade_pnl.le(Double::of(ZERO))
    &&& forall|k: int|
        0 <= k < trades.len() && !(#[trigger] trades[k]).net_pnl.is_nan() ==> trades[k].net_pnl.le(
            stats.best_trade_pnl,
        ) && stats.worst_trade_pnl.le(trades[k].net_pnl)
    &&& stats.best_trade_pnl == Double::of(ZERO) || has_net(trades, stats.best_trade_pnl)
    &&& stats.worst_trade_pnl == Double::of(ZERO) || has_net(trades, stats.worst_trade_pnl)
}

/// One of the trades has this net profit.
pub open spec fn has_net(trades: Seq<TradeView>, net: Double) -> bool {
    exists|k: int| 0 <= k < trades.len() && (#[trigger] trades[k]).net_pnl == net
}

proof fn net_stays(trades: Seq<TradeView>, trade: TradeView, net: Double)
    requires
        has_net(trades, net),
    ensures
        has_net(trades.push(trade), net),
{
    let k = choose|k: int| 0 <= k < trades.len() && (#[trigger] trades[k]).net_pnl == net;
    assert(trades.push(trade)[k].net_pnl == net);
}

proof fn bounds_go_on(ar: Arithmetic, stats: StatsView, trades: Seq<TradeView>, trade: TradeView)
    requires
        bounds_trades(stats, trades),
    ensures
        bounds_trades(stats.booked(ar, trade).ranked(ar, trade), trades.push(trade)),
{
    let longer = trades.push(trade);
    let after = stats.booked(ar, trade).ranked(ar, trade);
    assert(longer[trades.len() as int] == trade);
    if has_net(trades, stats.best_trade_pnl) {
        net_stays(trades, trade, stats.best_trade_pnl);
    }
    if has_net(trades, stats.worst_trade_pnl) {
        net_stays(trades, trade, stats.worst_trade_pnl);
    }
    assert forall|k: int|
        0 <= k < longer.len() && !(#[trigger] longer[k]).net_pnl.is_nan() implies longer[k].net_pnl.le(
        after.best_trade_pnl,
    ) && after.worst_trade_pnl.le(longer[k].net_pnl) by {
        if k < trades.len() {
            assert(longer[k] == trades[k]);
        }
    }
}

/// The best and the worst trade bound the trades made on bars.
pub proof fn best_and_worst_bound_the_trades(
    ar: Arithmetic,
    cell: CellView,
    bars: Seq<Bar>,
    replies: Seq<Reply>,
)
    requires
        bounds_trades(cell.stats, cell.trades),
    ensures
        bounds_trades(
            cell.after_bars(ar, bars, replies).stats,
            cell.after_bars(ar, bars, replies).trades,
        ),
    decreases bars.len(),
{
    if bars.len() > 0 {
        let earlier = cell.after_bars(ar, bars.drop_last(), replies.drop_last());
        let now = cell.after_bars(ar, bars, replies);
        best_and_worst_bound_the_trades(ar, cell, bars.drop_last(), replies.drop_last());
        let bar = bars.last();
        let begun = earlier.begun(ar, bar);
        if bar.is_usable() {
            match begun.exit_with(bar, begun.level(ar, bar), replies.last().exit) {
                Some((reason, price)) => {
                    let p = begun.position->0;
                    let trade = trade_of(
                        ar,
                        begun.terms,
                        begun.stats,
                        p,
                        price,
                        gross_at(ar, p, price),
                        label_of(reason),
                        bar.t,
                    );
                    bounds_go_on(ar, begun.stats, begun.trades, trade);
                    assert(now.trades == begun.trades.push(trade));
                },
                None => {},
            }
        }
    }
}

/// A run over some bars is a run over the first of them and then over the rest.
pub proof fn runs_can_be_split(
    ar: Arithmetic,
    cell: CellView,
    bars: Seq<Bar>,
    replies: Seq<Reply>,
    k: int,
)
    requires
        0 <= k <= bars.len(),
        replies.len() == bars.len(),
    ensures
        cell.after_bars(ar, bars, replies) == cell.after_bars(
            ar,
            bars.take(k),
            replies.take(k),
        ).after_bars(ar, bars.skip(k), replies.skip(k)),
    decreases bars.len(),
{
    if k == bars.len() {
        assert(bars.take(k) =~= bars);
        assert(replies.take(k) =~= replies);
        assert(bars.skip(k) =~= Seq::empty());
    } else {
        runs_can_be_split(ar, cell, bars.drop_last(), replies.drop_last(), k);
        assert(bars.drop_last().take(k) =~= bars.take(k));
        assert(replies.drop_last().take(k) =~= replies.take(k));
        assert(bars.drop_last().skip(k) =~= bars.skip(k).drop_last());
        assert(replies.drop_last().skip(k) =~= replies.skip(k).drop_last());
    }
}

/// The drawdown on record never shrinks.
pub proof fn drawdown_never_shrinks(
    ar: Arithmetic,
    cell: CellView,
    bars: Seq<Bar>,
    replies: Seq<Reply>,
)
    requires
        !cell.stats.max_drawdown_usd.is_nan(),
    ensures
        cell.stats.max_drawdown_usd.le(cell.after_bars(ar, bars, replies).stats.max_drawdown_usd),
    decreases bars.len(),
{
    if bars.len() > 0 {
        drawdown_never_shrinks(ar, cell, bars.drop_last(), replies.drop_last());
    }
}

/// The drawdown on record covers every sample of the equity, also those taken while
/// a position was open: at no usable bar has the equity stood further below its peak.
pub proof fn drawdown_covers_every_sample(
    ar: Arithmetic,
    cell: CellView,
    bars: Seq<Bar>,
    replies: Seq<Reply>,
    k: int,
)
    requires
        0 <= k < bars.len(),
        replies.len() == bars.len(),
        bars[k].is_usable(),
        !cell.stats.max_drawdown_usd.is_nan(),
    ensures
        ({
            let then = cell.after_bars(ar, bars.take(k + 1), replies.take(k + 1));
            !minus(ar, then.max_equity, then.equity.last()).gt(
                cell.after_bars(ar, bars, replies).stats.max_drawdown_usd,
            )
        }),
{
    let earlier = cell.after_bars(ar, bars.take(k), replies.take(k));
    let then = cell.after_bars(ar, bars.take(k + 1), replies.take(k + 1));
    assert(bars.take(k + 1).drop_last() =~= bars.take(k));
    assert(replies.take(k + 1).drop_last() =~= replies.take(k));
    assert(then == earlier.after_bar(ar, bars[k], replies[k]));
    drawdown_never_shrinks(ar, cell, bars.take(k + 1), replies.take(k + 1));
    runs_can_be_split(ar, cell, bars, replies, k + 1);
    drawdown_never_shrinks(ar, then, bars.skip(k + 1), replies.skip(k + 1));
}

/// No sample is above the peak.
pub open spec fn peak_covers(cell: CellView) -> bool {
    &&& !cell.max_equity.is_nan()
    &&& forall|k: int|
        0 <= k < cell.equity.len() ==> !(#[trigger] cell.equity[k]).gt(cell.max_equity)
}

/// The peak covers every sample of the equity: none is larger.
pub proof fn peak_covers_every_sample(
    ar: Arithmetic,
    cell: CellView,
    bars: Seq<Bar>,
    replies: Seq<Reply>,
)
    requires
        peak_covers(cell),
    ensures
        peak_covers(cell.after_bars(ar, bars, replies)),
    decreases bars.len(),
{
    if bars.len() > 0 {
        peak_covers_every_sample(ar, cell, bars.drop_last(), replies.drop_last());
    }
}

proof fn bar_trades_have_reasons(ar: Arithmetic, cell: CellView, bars: Seq<Bar>, replies: Seq<Reply>)
    requires
        forall|k: int|
            0 <= k < cell.trades.len() ==> (#[trigger] cell.trades[k]).exit_reason
                != "end_of_data"@,
    ensures
        forall|k: int|
            0 <= k < cell.after_bars(ar, bars, replies).trades.len() ==> (
            #[trigger] cell.after_bars(ar, bars, replies).trades[k]).exit_reason
                != "end_of_data"@,
    decreases bars.len(),
{
    if bars.len() > 0 {
        let earlier = cell.after_bars(ar, bars.drop_last(), replies.drop_last());
        bar_trades_have_reasons(ar, cell, bars.drop_last(), replies.drop_last());
        exits_fill_at_level_or_close(ar, earlier, bars.last(), replies.last());
        reveal_strlit("end_of_data");
        reveal_strlit("stop_loss");
        reveal_strlit("take_profit");
        reveal_strlit("trailing_stop");
        reveal_strlit("time_stop");
        reveal_strlit("momentum_lost");
        reveal_strlit("reversal");
        assert("end_of_data"@[0] == 'e');
        assert("take_profit"@[0] == 't');
    }
}

/// The best and the worst trade on record bound all the trades of a cell, also one that
/// the end of the data closed.
pub proof fn best_and_worst_bound_the_cell<S: Strategy>(
    ar: Arithmetic,
    rd: Reading,
    config: BacktestConfig,
    strategy_name: Seq<char>,
    market: Seq<char>,
    candles: Seq<HlCandle>,
    strategy: S,
    stats: StatsView,
    trades: Seq<TradeView>,
)
    requires
        is_cell_of(
            ar,
            rd,
            config,
            strategy_name,
            market,
            candles,
            strategy,
            stats,
            trades,
        ),
    ensures
        bounds_trades(stats, trades),
{
    let (params, rounds) = choose|params: StrategyParams, rounds: Seq<Round<S>>| #[trigger]
        is_cell_by(
            ar,
            rd,
            config,
            strategy_name,
            market,
            candles,
            strategy,
            params,
            rounds,
            stats,
            trades,
        );
    let start = cell_start(ar, config, params, strategy_name, market, candles);
    let bars = bars_of(rd, candles);
    let replies = replies_of(rounds);
    best_and_worst_bound_the_trades(ar, start, bars, replies);
    let run = start.after_bars(ar, bars, replies);
    if run.position is Some {
        let p = run.position->0;
        let last_ms = if bars.len() > 0 {
            bars.last().t
        } else {
            0
        };
        let trade = trade_of(
            ar,
            run.terms,
            run.stats,
            p,
            p.current_price,
            p.pnl_usd(ar),
            "end_of_data"@,
            last_ms,
        );
        bounds_go_on(ar, run.stats, run.trades, trade);
    }
}

/// Of a cell's trades only the last can be one that the end of the data closed.
pub proof fn only_the_last_trade_is_forced<S: Strategy>(
    ar: Arithmetic,
    rd: Reading,
    config: BacktestConfig,
    strategy_name: Seq<char>,
    market: Seq<char>,
    candles: Seq<HlCandle>,
    strategy: S,
    stats: StatsView,
    trades: Seq<TradeView>,
)
    requires
        is_cell_of(
            ar,
            rd,
            config,
            strategy_name,
            market,
            candles,
            strategy,
            stats,
            trades,
        ),
    ensures
        forall|k: int|
            0 <= k < trades.len() - 1 ==> (#[trigger] trades[k]).exit_reason != "end_of_data"@,
{
    let (params, rounds) = choose|params: StrategyParams, rounds: Seq<Round<S>>| #[trigger]
        is_cell_by(
            ar,
            rd,
            config,
            strategy_name,
            market,
            candles,
            strategy,
            params,
            rounds,
            stats,
            trades,
        );
    let start = cell_start(ar, config, params, strategy_name, market, candles);
    let bars = bars_of(rd, candles);
    let replies = replies_of(rounds);
    bar_trades_have_reasons(ar, start, bars, replies);
    let run = start.after_bars(ar, bars, replies);
    assert forall|k: int| 0 <= k < run.trades.len() implies trades[k] == #[trigger] run.trades[k] by {
    }
    assert forall|k: int| 0 <= k < trades.len() - 1 implies (#[trigger] trades[k]).exit_reason
        != "end_of_data"@ by {
        assert(trades[k] == run.trades[k]);
    }
}

/// The drawdown of a cell is not below zero.
pub proof fn drawdown_is_not_negative<S: Strategy>(
    ar: Arithmetic,
    rd: Reading,
    config: BacktestConfig,
    strategy_name: Seq<char>,
    market: Seq<char>,
    candles: Seq<HlCandle>,
    strategy: S,
    stats: StatsView,
    trades: Seq<TradeView>,
)
    requires
        is_cell_of(
            ar,
            rd,
            config,
            strategy_name,
            market,
            candles,
            strategy,
            stats,
            trades,
        ),
    ensures
        Double::of(ZERO).le(stats.max_drawdown_usd),
{
    let (params, rounds) = choose|params: StrategyParams, rounds: Seq<Round<S>>| #[trigger]
        is_cell_by(
            ar,
            rd,
            config,
            strategy_name,
            market,
            candles,
            strategy,
            params,
            rounds,
            stats,
            trades,
        );
    let start = cell_start(ar, config, params, strategy_name, market, candles);
    drawdown_never_shrinks(ar, start, bars_of(rd, candles), replies_of(rounds));
}

/// The record of a cell says which strategy and market it is, how many candles there
/// were, what the strategy's source is, and whether the Sharpe ratio is at least 1.
pub proof fn cells_are_identified<S: Strategy>(
    ar: Arithmetic,
    rd: Reading,
    config: BacktestConfig,
    strategy_name: Seq<char>,
    market: Seq<char>,
    candles: Seq<HlCandle>,
    strategy: S,
    stats: StatsView,
    trades: Seq<TradeView>,
)
    requires
        is_cell_of(
            ar,
            rd,
            config,
            strategy_name,
            market,
            candles,
            strategy,
            stats,
            trades,
        ),
    ensures
        stats.strategy == strategy_name,
        stats.market == market,
        stats.interval == config.interval@,
        stats.total_candles == candles.len(),
        stats.strategy_source == source_of(strategy_name),
        stats.sharpe_pass == stats.sharpe_ratio.ge(Double::of(ONE)),
{
    let (params, rounds) = choose|params: StrategyParams, rounds: Seq<Round<S>>| #[trigger]
        is_cell_by(
            ar,
            rd,
            config,
            strategy_name,
            market,
            candles,
            strategy,
            params,
            rounds,
            stats,
            trades,
        );
    let start = cell_start(ar, config, params, strategy_name, market, candles);
    names_stay(ar, start, bars_of(rd, candles), replies_of(rounds));
}

proof fn names_stay(ar: Arithmetic, cell: CellView, bars: Seq<Bar>, replies: Seq<Reply>)
    ensures
        cell.after_bars(ar, bars, replies).stats.strategy == cell.stats.strategy,
        cell.after_bars(ar, bars, replies).stats.market == cell.stats.market,
        cell.after_bars(ar, bars, replies).stats.interval == cell.stats.interval,
        cell.after_bars(ar, bars, replies).stats.total_candles == cell.stats.total_candles,
        cell.after_bars(ar, bars, replies).stats.strategy_source == cell.stats.strategy_source,
    decreases bars.len(),
{
    if bars.len() > 0 {
        names_stay(ar, cell, bars.drop_last(), replies.drop_last());
    }
}

} // verus!
