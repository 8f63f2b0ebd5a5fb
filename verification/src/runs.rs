//! How runs begin, go on and end, and where each of their trades comes from.
use crate::amounts::gross_profit_has_the_sign_of_the_move;
use crate::bars::{
    end_fee, exits_become_trades, held, idle_bars_trade_nothing, positions_stay_until_they_close,
    way_out,
};
use crate::candle::{Bar, HlCandle};
use crate::cell::{gross_at, CellView, Reply, Terms};
use crate::clock::stamp_of;
use crate::config::BacktestConfig;
use crate::engine::{bars_of, cell_start, is_cell_by};
use crate::exits::level_exit;
use crate::interval::interval_ms;
use crate::laws::{equity_is_sampled_per_bar, usable_in};
use crate::number::{Arithmetic, Double, Op, Reading, ONE, THOUSAND, ZERO};
use crate::position::{secs_between, PositionView, SECS_PER_HOUR};
use crate::source::source_of;
use crate::stats::{sharpe_of, StatsView, TradeView};
use crate::strategy::{label_of, PositionContext, Signal, Strategy, StrategyParams};
use crate::talk::{converses, replies_of, Round};
use crate::text::lowercase_of;
use crate::value::{
    comparisons_go_by_worth, constants_are_worth_their_names, integer_is_met, is_rounding,
    is_worth, quotient_is_met, scale,
};
use vstd::prelude::*;

verus! {

/// A run takes its numbers from the strategy's parameters and the settings of the
/// backtest.  Fees are charged on the leverage, or on 1 where that is more; a lockout
/// lasts six candles.
pub proof fn terms_come_from_parameters_and_settings(
    ar: Arithmetic,
    config: BacktestConfig,
    params: StrategyParams,
    strategy_name: Seq<char>,
    market: Seq<char>,
    candles: Seq<HlCandle>,
)
    requires
        0 <= 6 * interval_ms(config.interval@) <= i64::MAX,
    ensures
        ({
            let terms = cell_start(ar, config, params, strategy_name, market, candles).terms;
            &&& terms.clip_size_usd == params.clip_size_usd
            &&& terms.take_profit_pct == params.take_profit_pct
            &&& terms.stop_loss_pct == params.stop_loss_pct
            &&& terms.trailing_stop_pct == params.trailing_stop_pct
            &&& terms.trailing_activation_pct == params.trailing_activation_pct
            &&& terms.max_hold_secs == params.max_hold_secs
            &&& terms.leverage == config.leverage
            &&& terms.fee_rate == config.fee_rate
            &&& terms.borrow_rate_hourly == config.borrow_rate_hourly
            &&& Double::of(ONE).lt(config.leverage) ==> terms.fee_factor == config.leverage
            &&& !Double::of(ONE).lt(config.leverage) ==> terms.fee_factor == Double::of(ONE)
            &&& terms.lockout_ms == 6 * interval_ms(config.interval@)
            &&& terms.interval_secs == ar(
                Op::Div(
                    ar(Op::OfInt(interval_ms(config.interval@) as i64)),
                    Double::of(THOUSAND),
                ),
            )
            &&& terms.allows_long <==> lowercase_of(params.direction_bias@) != "short"@
            &&& terms.allows_short <==> lowercase_of(params.direction_bias@) != "long"@
        }),
{
}

/// The seconds of a candle are a thousandth of its milliseconds; here where both are
/// doubles.
pub proof fn seconds_are_a_thousandth_of_milliseconds(
    ar: Arithmetic,
    config: BacktestConfig,
    params: StrategyParams,
    strategy_name: Seq<char>,
    market: Seq<char>,
    candles: Seq<HlCandle>,
    ms: Double,
    secs: Double,
)
    requires
        is_rounding(ar),
        0 <= interval_ms(config.interval@) <= i64::MAX,
        ms.is_finite() && ms.units() == interval_ms(config.interval@) * scale(),
        secs.is_finite() && 1000 * secs.units() == ms.units(),
    ensures
        is_worth(
            cell_start(ar, config, params, strategy_name, market, candles).terms.interval_secs,
            secs,
        ),
{
    constants_are_worth_their_names();
    let (s, m, u) = (secs.units(), ms.units(), scale());
    integer_is_met(ar, interval_ms(config.interval@) as i64, ms);
    assert(s * (1000 * u) == m * u) by (nonlinear_arith)
        requires
            1000 * s == m,
    ;
    quotient_is_met(
        ar,
        ar(Op::OfInt(interval_ms(config.interval@) as i64)),
        Double::of(THOUSAND),
        secs,
    );
}

/// A run begins with the starting balance, with nothing open or pending, without a trade
/// and free to enter; its record names the cell and its candles, and all its figures are
/// zero.
pub proof fn runs_begin_blank(
    ar: Arithmetic,
    config: BacktestConfig,
    params: StrategyParams,
    strategy_name: Seq<char>,
    market: Seq<char>,
    candles: Seq<HlCandle>,
)
    ensures
        ({
            let start = cell_start(ar, config, params, strategy_name, market, candles);
            let zero = Double::of(ZERO);
            &&& start.position is None
            &&& start.pending is None
            &&& start.balance == config.starting_balance
            &&& start.max_equity == config.starting_balance
            &&& start.equity == seq![config.starting_balance]
            &&& start.cooldown_until_ms == 0
            &&& start.trades == Seq::<TradeView>::empty()
            &&& start.stats.strategy == strategy_name
            &&& start.stats.market == market
            &&& start.stats.interval == config.interval@
            &&& start.stats.total_candles == candles.len()
            &&& start.stats.strategy_source == source_of(strategy_name)
            &&& candles.len() > 0 ==> start.stats.start_time == stamp_of(candles.first().t)
                && start.stats.end_time == stamp_of(candles.last().t_close)
            &&& candles.len() == 0 ==> start.stats.start_time == stamp_of(0)
                && start.stats.end_time == stamp_of(0)
            &&& start.stats.trade_count == 0
            &&& start.stats.win_count == 0
            &&& start.stats.loss_count == 0
            &&& start.stats.gross_pnl == zero
            &&& start.stats.net_pnl == zero
            &&& start.stats.total_fees == zero
            &&& start.stats.entry_fees_total == zero
            &&& start.stats.exit_fees_total == zero
            &&& start.stats.borrow_fees_total == zero
            &&& start.stats.max_drawdown_usd == zero
            &&& start.stats.avg_hold_secs == zero
            &&& start.stats.best_trade_pnl == zero
            &&& start.stats.worst_trade_pnl == zero
            &&& start.stats.sharpe_ratio == zero
        }),
{
}

/// A run over no bars is where it began, and one over one bar more is one bar further.
pub proof fn runs_go_bar_by_bar(
    ar: Arithmetic,
    cell: CellView,
    bars: Seq<Bar>,
    replies: Seq<Reply>,
    bar: Bar,
    reply: Reply,
)
    ensures
        cell.after_bars(ar, Seq::empty(), Seq::empty()) == cell,
        cell.after_bars(ar, bars.push(bar), replies.push(reply)) == cell.after_bars(
            ar,
            bars,
            replies,
        ).after_bar(ar, bar, reply),
{
    assert(bars.push(bar).drop_last() =~= bars);
    assert(replies.push(reply).drop_last() =~= replies);
}

/// A bar that is not usable is passed over: one with a price that is zero or below.
pub proof fn bars_are_usable_with_positive_prices(bar: Bar)
    requires
        !bar.open.is_nan() && !bar.high.is_nan() && !bar.low.is_nan() && !bar.close.is_nan(),
    ensures
        bar.is_usable() <==> bar.open.units() > 0 && bar.high.units() > 0 && bar.low.units() > 0
            && bar.close.units() > 0,
{
    constants_are_worth_their_names();
    let zero = Double::of(ZERO);
    comparisons_go_by_worth(bar.open, zero);
    comparisons_go_by_worth(bar.high, zero);
    comparisons_go_by_worth(bar.low, zero);
    comparisons_go_by_worth(bar.close, zero);
}

/// What a strategy is told of a position that it is asked to close.
pub open spec fn told(terms: Terms, p: PositionView, bar: Bar, secs: u64) -> PositionContext {
    PositionContext {
        is_long: p.is_long,
        entry_price: p.entry_price,
        current_price: bar.close,
        peak_price: p.peak_price,
        hold_secs: secs,
        max_hold_secs: terms.max_hold_secs,
        take_profit_pct: terms.take_profit_pct,
        stop_loss_pct: terms.stop_loss_pct,
        trailing_stop_pct: terms.trailing_stop_pct,
        trailing_activation_pct: terms.trailing_activation_pct,
    }
}

/// `secs` are the whole seconds from `open_ms` to `now_ms`, and none if that is earlier.
pub open spec fn are_secs_between(open_ms: i64, now_ms: i64, secs: int) -> bool {
    if now_ms <= open_ms {
        secs == 0
    } else {
        1000 * secs <= now_ms - open_ms < 1000 * (secs + 1)
    }
}

/// A round in which a usable bar was put to the strategy: it took in the close, once, and
/// was then asked about an exit just where it held a position that no level closed, and
/// about an entry just where it held nothing at the end and no lockout lasted.
pub open spec fn asks_rightly<S: Strategy>(
    ar: Arithmetic,
    before: CellView,
    bar: Bar,
    round: Round<S>,
) -> bool {
    let after = before.after_bar(ar, bar, round.reply);
    let stays = match held(ar, before, bar) {
        Some(p) => level_exit(
            ar,
            p.is_long,
            p.entry_price,
            before.terms.take_profit_pct,
            before.terms.stop_loss_pct,
            bar.low,
            bar.high,
        ) is None,
        None => false,
    };
    &&& call_ensures(S::push_price, (round.before, bar.close, bar.t), round.after)
    &&& call_ensures(S::snapshot, (&round.after,), round.snapshot)
    &&& stays ==> exists|secs: u64|
        {
            let context = told(before.terms, held(ar, before, bar)->0, bar, secs);
            &&& #[trigger] are_secs_between(
                held(ar, before, bar)->0.open_time_ms,
                bar.t,
                secs as int,
            )
            &&& call_ensures(
                S::detect_exit,
                (&round.after, &round.snapshot, &context),
                round.reply.exit,
            )
        }
    &&& !stays ==> round.reply.exit is None
    &&& if after.position is None && bar.t >= after.cooldown_until_ms {
        call_ensures(S::detect_entry, (&round.after, &round.snapshot), round.reply.entry)
    } else {
        round.reply.entry == Signal::Hold
    }
}

proof fn converses_so_far<S: Strategy>(
    ar: Arithmetic,
    cell: CellView,
    first: S,
    bars: Seq<Bar>,
    rounds: Seq<Round<S>>,
    k: int,
)
    requires
        converses(ar, cell, first, bars, rounds),
        0 <= k <= bars.len(),
    ensures
        rounds.len() == bars.len(),
        converses(ar, cell, first, bars.take(k), rounds.take(k)),
    decreases bars.len(),
{
    if k == bars.len() {
        assert(bars.take(k) =~= bars);
        assert(rounds.take(k) =~= rounds);
    } else {
        converses_so_far(ar, cell, first, bars.drop_last(), rounds.drop_last(), k);
        assert(bars.drop_last().take(k) =~= bars.take(k));
        assert(rounds.drop_last().take(k) =~= rounds.take(k));
    }
}

/// The strategy goes through the bars one after the other: on each it starts as the bar
/// before left it, a bar that is not usable leaves it as it is, and on every other it is
/// given the close and asked what the run needs to know.
pub proof fn strategies_are_asked_on_every_bar<S: Strategy>(
    ar: Arithmetic,
    cell: CellView,
    first: S,
    bars: Seq<Bar>,
    rounds: Seq<Round<S>>,
    k: int,
)
    requires
        converses(ar, cell, first, bars, rounds),
        0 <= k < bars.len(),
    ensures
        rounds.len() == bars.len(),
        rounds[k].before == (if k == 0 {
            first
        } else {
            rounds[k - 1].after
        }),
        !bars[k].is_usable() ==> rounds[k].after == rounds[k].before,
        bars[k].is_usable() ==> asks_rightly(
            ar,
            cell.after_bars(ar, bars.take(k), replies_of(rounds.take(k))),
            bars[k],
            rounds[k],
        ),
{
    converses_so_far(ar, cell, first, bars, rounds, k + 1);
    let (seen, said) = (bars.take(k + 1), rounds.take(k + 1));
    assert(seen.drop_last() =~= bars.take(k));
    assert(said.drop_last() =~= rounds.take(k));
    assert(said.last() == rounds[k]);
    if k > 0 {
        assert(rounds.take(k).last() == rounds[k - 1]);
    }
    let before = cell.after_bars(ar, bars.take(k), replies_of(rounds.take(k)));
    let bar = bars[k];
    let round = rounds[k];
    if bar.is_usable() {
        if let Some(p) = held(ar, before, bar) {
            let begun = before.begun(ar, bar);
            assert(begun.position == Some(p));
            let secs = secs_between(p.open_time_ms as int, bar.t as int);
            assert(secs <= u64::MAX);
            assert(are_secs_between(p.open_time_ms, bar.t, secs as u64 as int));
            assert(begun.context(bar) == Some(told(before.terms, p, bar, secs as u64)));
        }
    }
}

/// At the end, a position that is still open becomes a trade at its current price and at
/// the time of the last candle, for the reason that the data has ended: its gross profit is
/// the open profit, and its fees are those of any other trade.  Without one, no trade is
/// added.  The equity curve, the balance and the drawdown stay, and the Sharpe ratio is that
/// of the curve.
pub proof fn runs_end_with_nothing_open(ar: Arithmetic, cell: CellView, last_ms: i64)
    ensures
        ({
            let end = cell.finished(ar, last_ms);
            &&& end.position is None
            &&& end.equity == cell.equity
            &&& end.balance == cell.balance
            &&& end.stats.max_drawdown_usd == cell.stats.max_drawdown_usd
            &&& end.stats.sharpe_ratio == sharpe_of(ar, cell.equity, cell.terms.interval_secs)
            &&& end.stats.total_candles == cell.stats.total_candles
            &&& cell.position is None ==> end.trades == cell.trades
            &&& cell.position matches Some(p) ==> {
                let trade = end.trades.last();
                let exit_fee = end_fee(ar, cell.terms, p.size_usd);
                &&& end.trades == cell.trades.push(trade)
                &&& trade.strategy == cell.stats.strategy
                &&& trade.market == cell.stats.market
                &&& trade.side == (if p.is_long {
                    "LONG"@
                } else {
                    "SHORT"@
                })
                &&& trade.entry_price == p.entry_price
                &&& trade.exit_price == p.current_price
                &&& trade.size_usd == p.size_usd
                &&& trade.gross_pnl == p.pnl_usd(ar)
                &&& trade.entry_fee == p.entry_fee
                &&& trade.exit_fee == exit_fee
                &&& trade.borrow_fee == p.accrued_borrow_fee
                &&& trade.net_pnl == ar(
                    Op::Sub(ar(Op::Sub(trade.gross_pnl, exit_fee)), p.accrued_borrow_fee),
                )
                &&& trade.exit_reason == "end_of_data"@
                &&& trade.entry_time == stamp_of(p.open_time_ms)
                &&& trade.exit_time == stamp_of(last_ms)
                &&& are_secs_between(p.open_time_ms, last_ms, trade.hold_secs)
            }
        }),
{
    let end = cell.finished(ar, last_ms);
    if cell.position is Some {
        assert(end.trades =~= cell.trades.push(end.trades.last()));
    }
}

/// What a position that was opened and aged by the terms has accrued over this many bars.
pub open spec fn accrued_over(ar: Arithmetic, terms: Terms, bars: nat) -> Double
    decreases bars,
{
    if bars == 0 {
        Double::of(ZERO)
    } else {
        ar(
            Op::Add(
                accrued_over(ar, terms, (bars - 1) as nat),
                ar(
                    Op::Mul(
                        ar(Op::Mul(terms.clip_size_usd, terms.borrow_rate_hourly)),
                        ar(Op::Div(terms.interval_secs, Double::of(SECS_PER_HOUR))),
                    ),
                ),
            ),
        )
    }
}

/// The close of the last usable bar.
pub open spec fn last_close(bars: Seq<Bar>) -> Double
    decreases bars.len(),
{
    if bars.len() == 0 || bars.last().is_usable() {
        bars.last().close
    } else {
        last_close(bars.drop_last())
    }
}

/// A usable bar from the one at `i` on closed at this price.
pub open spec fn has_closed_at(bars: Seq<Bar>, i: int, price: Double) -> bool {
    exists|m: int|
        i <= m < bars.len() && (#[trigger] bars[m]).is_usable() && bars[m].close == price
}

/// The price is the best for this side among the open of the bar at `i` and the closes from
/// there on: the highest for a long position, the lowest for a short one.
pub open spec fn is_best_since(bars: Seq<Bar>, is_long: bool, price: Double, i: int) -> bool {
    &&& price == bars[i].open || has_closed_at(bars, i, price)
    &&& is_long ==> !price.lt(bars[i].open)
    &&& !is_long ==> !bars[i].open.lt(price)
    &&& forall|m: int|
        i <= m < bars.len() && (#[trigger] bars[m]).is_usable() ==> if is_long {
            !price.lt(bars[m].close)
        } else {
            !bars[m].close.lt(price)
        }
}

/// The position was opened at the open of the bar at `i`, for a clip and its fee, and has
/// accrued a borrow fee on each usable bar since.  Its price is the last close, and its best
/// price the best since then.
pub open spec fn is_open_since(
    ar: Arithmetic,
    terms: Terms,
    bars: Seq<Bar>,
    p: PositionView,
    i: int,
) -> bool {
    &&& 0 <= i < bars.len()
    &&& bars[i].is_usable()
    &&& p.entry_price == bars[i].open
    &&& p.open_time_ms == bars[i].t
    &&& p.size_usd == terms.clip_size_usd
    &&& p.borrow_rate_hourly == terms.borrow_rate_hourly
    &&& p.entry_fee == end_fee(ar, terms, terms.clip_size_usd)
    &&& p.accrued_borrow_fee == accrued_over(ar, terms, usable_in(bars.skip(i)))
    &&& p.current_price == last_close(bars)
    &&& is_best_since(bars, p.is_long, p.peak_price, i)
}

/// The trade was opened at the open of the bar at `i` and closed on the bar at `j`, at a
/// level that this bar's range reached or at its close.  It is a clip in size; its gross
/// profit is that size times the move in its favour over the entry price; it has paid a
/// borrow fee for each usable bar from the one to the other, and a fee at both ends.
pub open spec fn is_trade_between(
    ar: Arithmetic,
    terms: Terms,
    bars: Seq<Bar>,
    trade: TradeView,
    i: int,
    j: int,
) -> bool {
    let is_long = trade.side == "LONG"@;
    let level = level_exit(
        ar,
        is_long,
        bars[i].open,
        terms.take_profit_pct,
        terms.stop_loss_pct,
        bars[j].low,
        bars[j].high,
    );
    &&& 0 <= i <= j < bars.len()
    &&& bars[i].is_usable() && bars[j].is_usable()
    &&& trade.side == "LONG"@ || trade.side == "SHORT"@
    &&& trade.entry_price == bars[i].open
    &&& trade.entry_time == stamp_of(bars[i].t)
    &&& trade.exit_time == stamp_of(bars[j].t)
    &&& are_secs_between(bars[i].t, bars[j].t, trade.hold_secs)
    &&& match level {
        Some((reason, price)) => trade.exit_price == price && trade.exit_reason == label_of(reason),
        None => trade.exit_price == bars[j].close,
    }
    &&& trade.size_usd == terms.clip_size_usd
    &&& trade.gross_pnl == ar(
        Op::Div(
            ar(
                Op::Mul(
                    trade.size_usd,
                    if is_long {
                        ar(Op::Sub(trade.exit_price, trade.entry_price))
                    } else {
                        ar(Op::Sub(trade.entry_price, trade.exit_price))
                    },
                ),
            ),
            trade.entry_price,
        ),
    )
    &&& trade.entry_fee == end_fee(ar, terms, terms.clip_size_usd)
    &&& trade.exit_fee == end_fee(ar, terms, terms.clip_size_usd)
    &&& trade.borrow_fee == accrued_over(ar, terms, usable_in(bars.subrange(i, j + 1)))
    &&& trade.net_pnl == ar(
        Op::Sub(ar(Op::Sub(trade.gross_pnl, trade.exit_fee)), trade.borrow_fee),
    )
}

/// The trade was made between two of these bars.
pub open spec fn is_traded(
    ar: Arithmetic,
    terms: Terms,
    bars: Seq<Bar>,
    trade: TradeView,
) -> bool {
    exists|i: int, j: int| #[trigger] is_trade_between(ar, terms, bars, trade, i, j)
}

/// What is open and what was traded comes from these bars.
pub open spec fn comes_from(ar: Arithmetic, cell: CellView, bars: Seq<Bar>) -> bool {
    &&& cell.position matches Some(p) ==> exists|i: int| #[trigger]
        is_open_since(ar, cell.terms, bars, p, i)
    &&& forall|k: int|
        0 <= k < cell.trades.len() ==> is_traded(ar, cell.terms, bars, #[trigger] cell.trades[k])
}

proof fn trade_stays_between(
    ar: Arithmetic,
    terms: Terms,
    bars: Seq<Bar>,
    bar: Bar,
    trade: TradeView,
    i: int,
    j: int,
)
    requires
        is_trade_between(ar, terms, bars, trade, i, j),
    ensures
        is_trade_between(ar, terms, bars.push(bar), trade, i, j),
{
    assert(bars.push(bar).subrange(i, j + 1) =~= bars.subrange(i, j + 1));
}

proof fn usable_goes_on(bars: Seq<Bar>, bar: Bar, i: int)
    requires
        0 <= i <= bars.len(),
    ensures
        usable_in(bars.push(bar).skip(i)) == usable_in(bars.skip(i)) + (if bar.is_usable() {
            1nat
        } else {
            0
        }),
{
    assert(bars.push(bar).skip(i).drop_last() =~= bars.skip(i));
    assert(bars.push(bar).skip(i).last() == bar);
}

/// A close that is no better, or a bar that is not usable, leaves the best price the best.
proof fn best_stays(bars: Seq<Bar>, bar: Bar, is_long: bool, price: Double, i: int)
    requires
        0 <= i < bars.len(),
        is_best_since(bars, is_long, price, i),
        bar.is_usable() ==> if is_long {
            !price.lt(bar.close)
        } else {
            !bar.close.lt(price)
        },
    ensures
        is_best_since(bars.push(bar), is_long, price, i),
{
    let longer = bars.push(bar);
    if has_closed_at(bars, i, price) {
        let m = choose|m: int|
            i <= m < bars.len() && (#[trigger] bars[m]).is_usable() && bars[m].close == price;
        assert(longer[m].is_usable() && longer[m].close == price);
    }
    assert forall|m: int| i <= m < longer.len() && (#[trigger] longer[m]).is_usable() implies (if is_long {
        !price.lt(longer[m].close)
    } else {
        !longer[m].close.lt(price)
    }) by {
        if m < bars.len() {
            assert(bars[m].is_usable());
        }
    }
}

/// A usable bar with a better close makes that the best price.
proof fn best_moves(bars: Seq<Bar>, bar: Bar, is_long: bool, price: Double, i: int)
    requires
        0 <= i < bars.len(),
        is_best_since(bars, is_long, price, i),
        bar.is_usable(),
        if is_long {
            price.lt(bar.close)
        } else {
            bar.close.lt(price)
        },
    ensures
        is_best_since(bars.push(bar), is_long, bar.close, i),
{
    let longer = bars.push(bar);
    assert(longer[bars.len() as int] == bar);
    assert forall|m: int| i <= m < longer.len() && (#[trigger] longer[m]).is_usable() implies (if is_long {
        !bar.close.lt(longer[m].close)
    } else {
        !longer[m].close.lt(bar.close)
    }) by {
        if m < bars.len() {
            assert(bars[m].is_usable());
        }
    }
}

/// What is held on a bar has been open since a bar up to this one.
proof fn held_is_open_since(ar: Arithmetic, cell: CellView, bars: Seq<Bar>, bar: Bar) -> (i: int)
    requires
        comes_from(ar, cell, bars),
        bar.is_usable(),
        held(ar, cell, bar) is Some,
    ensures
        is_open_since(ar, cell.terms, bars.push(bar), held(ar, cell, bar)->0, i),
{
    let longer = bars.push(bar);
    let n = bars.len() as int;
    match cell.position {
        Some(p) => {
            let i = choose|i: int| #[trigger] is_open_since(ar, cell.terms, bars, p, i);
            usable_goes_on(bars, bar, i);
            assert(longer[i] == bars[i]);
            assert(!p.peak_price.equals(Double::of(ZERO))) by {
                if has_closed_at(bars, i, p.peak_price) {
                    let m = choose|m: int|
                        i <= m < bars.len() && (#[trigger] bars[m]).is_usable() && bars[m].close
                            == p.peak_price;
                    assert(bars[m].is_usable());
                }
            }
            if p.is_long && p.peak_price.lt(bar.close) || !p.is_long && bar.close.lt(p.peak_price) {
                best_moves(bars, bar, p.is_long, p.peak_price, i);
            } else {
                best_stays(bars, bar, p.is_long, p.peak_price, i);
            }
            i
        },
        None => {
            usable_goes_on(bars, bar, n);
            assert(bars.skip(n) =~= Seq::empty());
            assert(usable_in(bars.skip(n)) == 0);
            assert(accrued_over(ar, cell.terms, 0) == Double::of(ZERO));
            assert(longer[n] == bar);
            let p = held(ar, cell, bar)->0;
            assert(is_best_since(longer, p.is_long, p.peak_price, n)) by {
                assert(longer[n].is_usable() && longer[n].close == bar.close);
            }
            n
        },
    }
}

proof fn origins_go_on(ar: Arithmetic, cell: CellView, bars: Seq<Bar>, bar: Bar, reply: Reply)
    requires
        comes_from(ar, cell, bars),
    ensures
        comes_from(ar, cell.after_bar(ar, bar, reply), bars.push(bar)),
        cell.after_bar(ar, bar, reply).terms == cell.terms,
{
    let after = cell.after_bar(ar, bar, reply);
    let longer = bars.push(bar);
    let n = bars.len() as int;
    // The trades that were there before.
    assert forall|k: int| 0 <= k < cell.trades.len() implies is_traded(
        ar,
        cell.terms,
        longer,
        #[trigger] cell.trades[k],
    ) by {
        let t = cell.trades[k];
        let (i, j) = choose|i: int, j: int| #[trigger]
            is_trade_between(ar, cell.terms, bars, t, i, j);
        trade_stays_between(ar, cell.terms, bars, bar, t, i, j);
    }
    if !bar.is_usable() {
        if let Some(p) = cell.position {
            let i = choose|i: int| #[trigger] is_open_since(ar, cell.terms, bars, p, i);
            usable_goes_on(bars, bar, i);
            assert(longer[i] == bars[i]);
            best_stays(bars, bar, p.is_long, p.peak_price, i);
            assert(longer.drop_last() =~= bars);
            assert(is_open_since(ar, cell.terms, longer, p, i));
        }
    } else {
        match held(ar, cell, bar) {
            None => {
                idle_bars_trade_nothing(ar, cell, bar, reply);
            },
            Some(p) => {
                let i = held_is_open_since(ar, cell, bars, bar);
                match way_out(ar, cell.terms, p, bar, reply.exit) {
                    None => {
                        positions_stay_until_they_close(ar, cell, bar, reply);
                    },
                    Some((reason, price)) => {
                        exits_become_trades(ar, cell, bar, reply);
                        let trade = after.trades.last();
                        assert(longer[n] == bar);
                        assert(longer.subrange(i, n + 1) =~= longer.skip(i));
                        reveal_strlit("LONG");
                        reveal_strlit("SHORT");
                        assert("LONG"@ != "SHORT"@) by {
                            assert("LONG"@.len() != "SHORT"@.len());
                        }
                        assert((trade.side == "LONG"@) == p.is_long);
                        assert(is_trade_between(ar, cell.terms, longer, trade, i, n));
                        assert forall|k: int| 0 <= k < after.trades.len() implies is_traded(
                            ar,
                            after.terms,
                            longer,
                            #[trigger] after.trades[k],
                        ) by {
                            if k < cell.trades.len() {
                                assert(after.trades[k] == cell.trades[k]);
                            } else {
                                assert(after.trades[k] == trade);
                            }
                        }
                    },
                }
            },
        }
    }
}

proof fn origins_of_bars(ar: Arithmetic, cell: CellView, bars: Seq<Bar>, replies: Seq<Reply>)
    requires
        comes_from(ar, cell, Seq::empty()),
    ensures
        comes_from(ar, cell.after_bars(ar, bars, replies), bars),
        cell.after_bars(ar, bars, replies).terms == cell.terms,
    decreases bars.len(),
{
    if bars.len() > 0 {
        let (bs, rs) = (bars.drop_last(), replies.drop_last());
        origins_of_bars(ar, cell, bs, rs);
        origins_go_on(ar, cell.after_bars(ar, bs, rs), bs, bars.last(), replies.last());
        assert(bs.push(bars.last()) =~= bars);
    } else {
        assert(bars =~= Seq::empty());
    }
}

/// Every trade of a cell comes from two of its candles: it was opened at the open of the
/// first and closed on the second, at a level or at the close, and its profit and its fees
/// follow from these prices and the candles between; but the last trade may be one that
/// the end of the data closed, which was opened just so.
pub proof fn trades_come_from_their_candles<S: Strategy>(
    ar: Arithmetic,
    rd: Reading,
    config: BacktestConfig,
    strategy_name: Seq<char>,
    market: Seq<char>,
    candles: Seq<HlCandle>,
    strategy: S,
    params: StrategyParams,
    rounds: Seq<Round<S>>,
    stats: StatsView,
    trades: Seq<TradeView>,
    k: int,
)
    requires
        is_cell_by(
            ar,
            rd,
            config,
            strategy_name,
            market,
            candles,
            strategy,
            params,
            rounds,
            stats,
            trades,
        ),
        0 <= k < trades.len(),
    ensures
        ({
            let terms = cell_start(ar, config, params, strategy_name, market, candles).terms;
            let bars = bars_of(rd, candles);
            ||| is_traded(ar, terms, bars, trades[k])
            ||| k == trades.len() - 1 && trades[k].exit_reason == "end_of_data"@ && exists|
                p: PositionView,
                i: int,
            | #[trigger]
                is_open_since(ar, terms, bars, p, i) && trades[k].entry_price == bars[i].open
                    && trades[k].entry_time == stamp_of(bars[i].t) && trades[k].exit_time
                    == stamp_of(candles.last().t) && are_secs_between(
                    bars[i].t,
                    candles.last().t,
                    trades[k].hold_secs,
                ) && trades[k].borrow_fee == accrued_over(ar, terms, usable_in(bars.skip(i)))
                    && trades[k].entry_fee == end_fee(ar, terms, terms.clip_size_usd)
                    && trades[k].exit_fee == end_fee(ar, terms, terms.clip_size_usd)
                    && trades[k].exit_price == last_close(bars) && trades[k].gross_pnl
                    == p.pnl_usd(ar)
        }),
{
    let start = cell_start(ar, config, params, strategy_name, market, candles);
    let bars = bars_of(rd, candles);
    let replies = replies_of(rounds);
    origins_of_bars(ar, start, bars, replies);
    let run = start.after_bars(ar, bars, replies);
    if k < run.trades.len() {
        assert(trades[k] == run.trades[k]);
    } else {
        let p = run.position->0;
        let i = choose|i: int| #[trigger] is_open_since(ar, start.terms, bars, p, i);
        runs_end_with_nothing_open(ar, run, bars.last().t);
        assert(bars.last().t == candles.last().t);
        assert(is_open_since(ar, start.terms, bars, p, i));
    }
}

/// A trade that was closed at a worse price than it was opened at has made no gross profit,
/// and one that was closed at a better price no gross loss.  The doubles `most` and `top`
/// bound the prices, and the size times them.
pub proof fn trades_have_the_sign_of_their_move(
    ar: Arithmetic,
    terms: Terms,
    bars: Seq<Bar>,
    trade: TradeView,
    i: int,
    j: int,
    most: Double,
    top: Double,
)
    requires
        is_rounding(ar),
        is_trade_between(ar, terms, bars, trade, i, j),
        trade.entry_price.is_finite() && trade.exit_price.is_finite(),
        trade.size_usd.is_finite() && most.is_finite() && top.is_finite(),
        0 < trade.entry_price.units() <= most.units(),
        0 < trade.exit_price.units() <= most.units(),
        0 <= trade.size_usd.units(),
        trade.size_usd.units() * most.units() <= top.units() * scale(),
    ensures
        trade.side == "LONG"@ && trade.exit_price.lt(trade.entry_price) ==> trade.gross_pnl.le(
            Double::of(ZERO),
        ),
        trade.side == "LONG"@ && trade.exit_price.gt(trade.entry_price) ==> trade.gross_pnl.ge(
            Double::of(ZERO),
        ),
        trade.side == "SHORT"@ && trade.exit_price.lt(trade.entry_price) ==> trade.gross_pnl.ge(
            Double::of(ZERO),
        ),
        trade.side == "SHORT"@ && trade.exit_price.gt(trade.entry_price) ==> trade.gross_pnl.le(
            Double::of(ZERO),
        ),
{
    reveal_strlit("LONG");
    reveal_strlit("SHORT");
    assert("LONG"@.len() != "SHORT"@.len());
    let p = PositionView {
        symbol: trade.market,
        is_long: trade.side == "LONG"@,
        entry_price: trade.entry_price,
        current_price: trade.exit_price,
        peak_price: trade.exit_price,
        size_usd: trade.size_usd,
        leverage: terms.leverage,
        open_time_ms: bars[i].t,
        entry_fee: trade.entry_fee,
        accrued_borrow_fee: trade.borrow_fee,
        borrow_rate_hourly: terms.borrow_rate_hourly,
    };
    assert(gross_at(ar, p, trade.exit_price) == trade.gross_pnl);
    comparisons_go_by_worth(trade.exit_price, trade.entry_price);
    gross_profit_has_the_sign_of_the_move(ar, p, trade.exit_price, most, top);
}

/// The record of a cell is that of its run: the Sharpe ratio is that of the run's equity
/// curve, with one sample before the first candle and one after each usable one, the
/// drawdown is the run's, and its times and names are those of the candles and the cell.
pub proof fn records_are_those_of_the_run<S: Strategy>(
    ar: Arithmetic,
    rd: Reading,
    config: BacktestConfig,
    strategy_name: Seq<char>,
    market: Seq<char>,
    candles: Seq<HlCandle>,
    strategy: S,
    params: StrategyParams,
    rounds: Seq<Round<S>>,
    stats: StatsView,
    trades: Seq<TradeView>,
)
    requires
        is_cell_by(
            ar,
            rd,
            config,
            strategy_name,
            market,
            candles,
            strategy,
            params,
            rounds,
            stats,
            trades,
        ),
    ensures
        ({
            let start = cell_start(ar, config, params, strategy_name, market, candles);
            let bars = bars_of(rd, candles);
            let run = start.after_bars(ar, bars, replies_of(rounds));
            &&& run.equity.len() == 1 + usable_in(bars)
            &&& stats.sharpe_ratio == sharpe_of(ar, run.equity, start.terms.interval_secs)
            &&& stats.max_drawdown_usd == run.stats.max_drawdown_usd
            &&& stats.strategy == strategy_name
            &&& stats.market == market
            &&& candles.len() > 0 ==> stats.start_time == stamp_of(candles.first().t)
                && stats.end_time == stamp_of(candles.last().t_close)
            &&& call_ensures(S::parameters, (&strategy,), params)
            &&& converses(ar, start, strategy, bars, rounds)
        }),
{
    let start = cell_start(ar, config, params, strategy_name, market, candles);
    let bars = bars_of(rd, candles);
    let replies = replies_of(rounds);
    equity_is_sampled_per_bar(ar, start, bars, replies);
    records_stay(ar, start, bars, replies);
}

proof fn records_stay(ar: Arithmetic, cell: CellView, bars: Seq<Bar>, replies: Seq<Reply>)
    ensures
        cell.after_bars(ar, bars, replies).stats.strategy == cell.stats.strategy,
        cell.after_bars(ar, bars, replies).stats.market == cell.stats.market,
        cell.after_bars(ar, bars, replies).stats.start_time == cell.stats.start_time,
        cell.after_bars(ar, bars, replies).stats.end_time == cell.stats.end_time,
        cell.after_bars(ar, bars, replies).terms == cell.terms,
    decreases bars.len(),
{
    if bars.len() > 0 {
        records_stay(ar, cell, bars.drop_last(), replies.drop_last());
    }
}

/// The time that a position has been held is counted in whole seconds.
pub proof fn hold_times_are_whole_seconds(open_ms: i64, now_ms: i64)
    ensures
        are_secs_between(open_ms, now_ms, secs_between(open_ms as int, now_ms as int)),
{
}

} // verus!
