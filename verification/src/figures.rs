//! What the figures of a cell and of a whole backtest come to.
use crate::candle::HlCandle;
use crate::config::BacktestConfig;
use crate::curve::{exact_sums_are_met, sums_exactly};
use crate::number::{Arithmetic, Double, Op, HUNDRED, ONE, ZERO};
use crate::stats::{mean_hold, StatsView, TradeView, LEAST_GROSS_PNL};
use crate::store::counts_say_what_the_store_holds;
use crate::summary::{
    cell_views, failing_keys, fees, net_pnls, sums_up, trades_in, BacktestResult,
};
use crate::text::texts;
use crate::value::{
    abs_is_the_size, comparisons_go_by_worth, constants_are_worth_their_names, count_is_met,
    is_rounding, is_worth, product_is_met, quotient_is_met, scale, sum_is_met,
};
use vstd::prelude::*;

verus! {

/// The seconds that the trades were held in all.
pub open spec fn seconds_in(trades: Seq<TradeView>) -> int
    decreases trades.len(),
{
    if trades.len() == 0 {
        0
    } else {
        seconds_in(trades.drop_last()) + trades.last().hold_secs
    }
}

/// The mean hold time of trades is the seconds that they were held in all over their
/// number.  Here no step needs rounding: for each number of trades, the number itself, the
/// seconds held in all, those of the last trade and the mean are doubles.
pub proof fn mean_hold_is_the_seconds_over_the_trades(
    ar: Arithmetic,
    trades: Seq<TradeView>,
    counts: Seq<Double>,
    totals: Seq<Double>,
    holds: Seq<Double>,
    means: Seq<Double>,
)
    requires
        is_rounding(ar),
        trades.len() <= u64::MAX,
        counts.len() == trades.len() + 1,
        totals.len() == trades.len() + 1,
        means.len() == trades.len() + 1,
        holds.len() == trades.len(),
        forall|k: int|
            0 <= k < counts.len() ==> (#[trigger] counts[k]).is_finite() && counts[k].units() == k
                * scale(),
        forall|k: int|
            0 <= k < totals.len() ==> (#[trigger] totals[k]).is_finite() && totals[k].units()
                == seconds_in(trades.take(k)) * scale(),
        forall|k: int|
            0 <= k < holds.len() ==> (#[trigger] holds[k]).is_finite() && holds[k].units()
                == trades[k].hold_secs * scale() && 0 <= trades[k].hold_secs <= u64::MAX,
        forall|k: int|
            0 < k < means.len() ==> (#[trigger] means[k]).is_finite() && means[k].units() * k
                == totals[k].units(),
    ensures
        trades.len() > 0 ==> is_worth(mean_hold(ar, trades), means.last()),
        trades.len() > 0 ==> mean_hold(ar, trades).units() * trades.len() == seconds_in(trades)
            * scale(),
        trades.len() == 0 ==> mean_hold(ar, trades) == Double::of(ZERO),
    decreases trades.len(),
{
    constants_are_worth_their_names();
    if trades.len() > 0 {
        let n = trades.len() as int;
        let u = scale();
        let shorter = trades.drop_last();
        assert forall|k: int| 0 <= k < totals.drop_last().len() implies (
        #[trigger] totals.drop_last()[k]).is_finite() && totals.drop_last()[k].units()
            == seconds_in(shorter.take(k)) * u by {
            assert(totals[k].is_finite());
            assert(shorter.take(k) =~= trades.take(k));
        }
        assert forall|k: int| 0 <= k < counts.drop_last().len() implies (
        #[trigger] counts.drop_last()[k]).is_finite() && counts.drop_last()[k].units() == k * u by {
            assert(counts[k].is_finite());
        }
        assert forall|k: int| 0 <= k < holds.drop_last().len() implies (
        #[trigger] holds.drop_last()[k]).is_finite() && holds.drop_last()[k].units()
            == shorter[k].hold_secs * u && 0 <= shorter[k].hold_secs <= u64::MAX by {
            assert(holds[k].is_finite());
        }
        assert forall|k: int| 0 < k < means.drop_last().len() implies (
        #[trigger] means.drop_last()[k]).is_finite() && means.drop_last()[k].units() * k
            == totals.drop_last()[k].units() by {
            assert(means[k].is_finite());
        }
        mean_hold_is_the_seconds_over_the_trades(
            ar,
            shorter,
            counts.drop_last(),
            totals.drop_last(),
            holds.drop_last(),
            means.drop_last(),
        );
        let last = trades.last().hold_secs;
        assert(holds[n - 1].is_finite() && means[n].is_finite());
        assert(totals[n].is_finite() && totals[n - 1].is_finite());
        assert(counts[n].is_finite() && counts[n - 1].is_finite());
        assert(trades.take(n) =~= trades && trades.take(n - 1) =~= shorter);
        count_is_met(ar, last as u64, holds[n - 1]);
        let secs = ar(Op::OfCount(last as u64));
        let (t, s, m) = (totals[n].units(), seconds_in(shorter), means[n].units());
        assert((s + last) * u == s * u + last * u) by (nonlinear_arith);
        if n == 1 {
            assert(seconds_in(shorter) == 0);
        } else {
            let mean = mean_hold(ar, shorter);
            let w = mean.units();
            count_is_met(ar, (n - 1) as u64, counts[n - 1]);
            count_is_met(ar, n as u64, counts[n]);
            let before = ar(Op::OfCount((n - 1) as u64));
            assert((s * u) * u == w * ((n - 1) * u)) by (nonlinear_arith)
                requires
                    w * (n - 1) == s * u,
            ;
            product_is_met(ar, mean, before, totals[n - 1]);
            let held = ar(Op::Mul(mean, before));
            sum_is_met(ar, held, secs, totals[n]);
            assert(m * (n * u) == t * u) by (nonlinear_arith)
                requires
                    m * n == t,
            ;
            assert(n * u != 0) by (nonlinear_arith)
                requires
                    n > 0,
                    u > 0,
            ;
            quotient_is_met(ar, ar(Op::Add(held, secs)), ar(Op::OfCount(n as u64)), means[n]);
        }
    }
}

/// The win rate is a hundred times the wins over the trades; here where the counts, the
/// share and the rate are doubles.  Without trades it is zero.
pub proof fn win_rate_is_the_share_of_wins(
    ar: Arithmetic,
    stats: StatsView,
    wins: Double,
    trades: Double,
    share: Double,
    rate: Double,
)
    requires
        is_rounding(ar),
        0 < stats.trade_count <= u64::MAX,
        stats.win_count <= u64::MAX,
        wins.is_finite() && wins.units() == stats.win_count * scale(),
        trades.is_finite() && trades.units() == stats.trade_count * scale(),
        share.is_finite() && share.units() * stats.trade_count == wins.units(),
        rate.is_finite() && rate.units() == 100 * share.units(),
    ensures
        is_worth(stats.finalized(ar).win_rate, rate),
        stats.finalized(ar).win_rate.units() * stats.trade_count == 100 * scale()
            * stats.win_count,
{
    constants_are_worth_their_names();
    let u = scale();
    let (n, w, h, r) = (
        stats.trade_count as int,
        stats.win_count as int,
        share.units(),
        rate.units(),
    );
    count_is_met(ar, stats.win_count as u64, wins);
    count_is_met(ar, stats.trade_count as u64, trades);
    assert(n * u != 0) by (nonlinear_arith)
        requires
            n > 0,
            u > 0,
    ;
    assert(h * (n * u) == (w * u) * u) by (nonlinear_arith)
        requires
            h * n == w * u,
    ;
    let (a, b) = (ar(Op::OfCount(stats.win_count as u64)), ar(
        Op::OfCount(stats.trade_count as u64),
    ));
    quotient_is_met(ar, a, b, share);
    assert(r * u == h * (100 * u)) by (nonlinear_arith)
        requires
            r == 100 * h,
    ;
    product_is_met(ar, ar(Op::Div(a, b)), Double::of(HUNDRED), rate);
    assert(r * n == 100 * u * w) by (nonlinear_arith)
        requires
            r == 100 * h,
            h * n == w * u,
    ;
}

/// The fee ratio is a hundred times the fees over the size of the gross profit; here where
/// the share and the ratio are doubles.
pub proof fn fee_ratio_is_the_share_of_the_gross_profit(
    ar: Arithmetic,
    stats: StatsView,
    share: Double,
    ratio: Double,
)
    requires
        is_rounding(ar),
        stats.gross_pnl.is_finite() && stats.total_fees.is_finite(),
        Double::of(LEAST_GROSS_PNL).lt(stats.gross_pnl.abs()),
        share.is_finite() && share.units() * (if stats.gross_pnl.units() < 0 {
            -stats.gross_pnl.units()
        } else {
            stats.gross_pnl.units()
        }) == stats.total_fees.units() * scale(),
        ratio.is_finite() && ratio.units() == 100 * share.units(),
    ensures
        is_worth(stats.finalized(ar).fee_ratio, ratio),
{
    constants_are_worth_their_names();
    abs_is_the_size(stats.gross_pnl);
    let size = stats.gross_pnl.abs();
    comparisons_go_by_worth(Double::of(LEAST_GROSS_PNL), size);
    comparisons_go_by_worth(Double::of(ZERO), Double::of(LEAST_GROSS_PNL));
    quotient_is_met(ar, stats.total_fees, size, share);
    let (h, r, u) = (share.units(), ratio.units(), scale());
    assert(r * u == h * (100 * u)) by (nonlinear_arith)
        requires
            r == 100 * h,
    ;
    product_is_met(ar, ar(Op::Div(stats.total_fees, size)), Double::of(HUNDRED), ratio);
}

/// What completing the statistics fills in: no win rate without trades, no fee ratio where
/// the gross profit is next to nothing, and a pass just where the Sharpe ratio is worth 1
/// or more; every other figure stays.
pub proof fn completing_fills_in_three_figures(ar: Arithmetic, stats: StatsView)
    ensures
        ({
            let after = stats.finalized(ar);
            &&& stats.trade_count == 0 ==> after.win_rate == Double::of(ZERO)
            &&& stats.trade_count > 0 ==> after.win_rate == ar(
                Op::Mul(
                    ar(
                        Op::Div(
                            ar(Op::OfCount(stats.win_count as u64)),
                            ar(Op::OfCount(stats.trade_count as u64)),
                        ),
                    ),
                    Double::of(HUNDRED),
                ),
            )
            &&& !Double::of(LEAST_GROSS_PNL).lt(stats.gross_pnl.abs()) ==> after.fee_ratio
                == Double::of(ZERO)
            &&& Double::of(LEAST_GROSS_PNL).lt(stats.gross_pnl.abs()) ==> after.fee_ratio == ar(
                Op::Mul(
                    ar(Op::Div(stats.total_fees, stats.gross_pnl.abs())),
                    Double::of(HUNDRED),
                ),
            )
            &&& stats.sharpe_ratio.is_nan() ==> !after.sharpe_pass
            &&& !stats.sharpe_ratio.is_nan() ==> (after.sharpe_pass <==> stats.sharpe_ratio.units()
                >= scale())
            &&& after == (StatsView {
                win_rate: after.win_rate,
                fee_ratio: after.fee_ratio,
                sharpe_pass: after.sharpe_pass,
                ..stats
            })
        }),
{
    constants_are_worth_their_names();
    if !stats.sharpe_ratio.is_nan() {
        comparisons_go_by_worth(stats.sharpe_ratio, Double::of(ONE));
    }
}

/// Taking a trade into the statistics adds it to each count and total, and leaves what it
/// does not bear on.
pub proof fn booking_adds_the_trade(ar: Arithmetic, stats: StatsView, trade: TradeView)
    ensures
        ({
            let after = stats.booked(ar, trade).ranked(ar, trade);
            let won = Double::of(ZERO).le(trade.net_pnl);
            &&& after.trade_count == stats.trade_count + 1
            &&& after.win_count == stats.win_count + (if won {
                1int
            } else {
                0
            })
            &&& after.loss_count == stats.loss_count + (if won {
                0int
            } else {
                1
            })
            &&& after.gross_pnl == ar(Op::Add(stats.gross_pnl, trade.gross_pnl))
            &&& after.net_pnl == ar(Op::Add(stats.net_pnl, trade.net_pnl))
            &&& after.total_fees == ar(
                Op::Add(
                    stats.total_fees,
                    ar(Op::Add(ar(Op::Add(trade.entry_fee, trade.exit_fee)), trade.borrow_fee)),
                ),
            )
            &&& after.entry_fees_total == ar(Op::Add(stats.entry_fees_total, trade.entry_fee))
            &&& after.exit_fees_total == ar(Op::Add(stats.exit_fees_total, trade.exit_fee))
            &&& after.borrow_fees_total == ar(Op::Add(stats.borrow_fees_total, trade.borrow_fee))
            &&& after.best_trade_pnl == (if stats.best_trade_pnl.lt(trade.net_pnl) {
                trade.net_pnl
            } else {
                stats.best_trade_pnl
            })
            &&& after.worst_trade_pnl == (if trade.net_pnl.lt(stats.worst_trade_pnl) {
                trade.net_pnl
            } else {
                stats.worst_trade_pnl
            })
            &&& stats.trade_count == 0 ==> after.avg_hold_secs == ar(
                Op::OfCount(trade.hold_secs as u64),
            )
            &&& stats.trade_count > 0 ==> after.avg_hold_secs == ar(
                Op::Div(
                    ar(
                        Op::Add(
                            ar(
                                Op::Mul(
                                    stats.avg_hold_secs,
                                    ar(Op::OfCount(stats.trade_count as u64)),
                                ),
                            ),
                            ar(Op::OfCount(trade.hold_secs as u64)),
                        ),
                    ),
                    ar(Op::OfCount((stats.trade_count + 1) as u64)),
                ),
            )
            &&& after.strategy == stats.strategy
            &&& after.market == stats.market
            &&& after.interval == stats.interval
            &&& after.start_time == stats.start_time
            &&& after.end_time == stats.end_time
            &&& after.strategy_source == stats.strategy_source
            &&& after.total_candles == stats.total_candles
            &&& after.max_drawdown_usd == stats.max_drawdown_usd
            &&& after.sharpe_ratio == stats.sharpe_ratio
        }),
{
}

/// The trades of cells are those of the first ones and those of the others.
pub proof fn trades_of_cells_add_up(first: Seq<StatsView>, rest: Seq<StatsView>)
    ensures
        trades_in(first + rest) == trades_in(first) + trades_in(rest),
        rest.len() == 1 ==> trades_in(rest) == rest[0].trade_count,
        rest.len() == 0 ==> trades_in(rest) == 0,
    decreases rest.len(),
{
    if rest.len() == 0 {
        assert(first + rest =~= first);
    } else {
        trades_of_cells_add_up(first, rest.drop_last());
        assert((first + rest).drop_last() =~= first + rest.drop_last());
        if rest.len() == 1 {
            assert(trades_in(rest.drop_last()) == 0);
        }
    }
}

/// The failing cells are those among the first and those among the others; a cell alone is
/// listed as its strategy, a colon and its market, unless it passes.
pub proof fn failing_cells_add_up(first: Seq<StatsView>, rest: Seq<StatsView>)
    ensures
        failing_keys(first + rest) == failing_keys(first) + failing_keys(rest),
        rest.len() == 1 && !rest[0].sharpe_pass ==> failing_keys(rest) == seq![
            rest[0].strategy + ":"@ + rest[0].market,
        ],
        rest.len() == 1 && rest[0].sharpe_pass ==> failing_keys(rest) == Seq::<Seq<char>>::empty(),
        rest.len() == 0 ==> failing_keys(rest) == Seq::<Seq<char>>::empty(),
    decreases rest.len(),
{
    if rest.len() == 0 {
        assert(first + rest =~= first);
        assert(failing_keys(first) + failing_keys(rest) =~= failing_keys(first));
    } else {
        failing_cells_add_up(first, rest.drop_last());
        assert((first + rest).drop_last() =~= first + rest.drop_last());
        assert(failing_keys(first + rest) =~= failing_keys(first) + failing_keys(rest));
        if rest.len() == 1 {
            assert(failing_keys(rest.drop_last()) =~= Seq::<Seq<char>>::empty());
            if !rest[0].sharpe_pass {
                assert(failing_keys(rest) =~= seq![rest[0].strategy + ":"@ + rest[0].market]);
            }
        }
    }
}

/// The totals of a backtest are worth the sums over its cells, and the final balance the
/// starting balance and the total net profit; here where no sum needs rounding.
pub proof fn totals_are_worth_the_sums(
    ar: Arithmetic,
    config: BacktestConfig,
    store: Map<Seq<char>, Seq<HlCandle>>,
    result: BacktestResult,
    nets: Seq<Double>,
    paid: Seq<Double>,
    balance: Double,
)
    requires
        is_rounding(ar),
        sums_up(ar, config, store, result),
        sums_exactly(Seq::new(result.cells@.len(), |k: int| result.cells@[k].net_pnl), nets),
        sums_exactly(Seq::new(result.cells@.len(), |k: int| result.cells@[k].total_fees), paid),
        config.starting_balance.is_finite() && balance.is_finite(),
        balance.units() == config.starting_balance.units() + nets.last().units(),
    ensures
        result.start_balance == config.starting_balance,
        is_worth(result.total_net_pnl, nets.last()),
        is_worth(result.total_fees, paid.last()),
        is_worth(result.final_balance, balance),
{
    let cells = cell_views(result.cells@);
    assert(net_pnls(cells) =~= Seq::new(
        result.cells@.len(),
        |k: int| result.cells@[k].net_pnl,
    ));
    assert(fees(cells) =~= Seq::new(result.cells@.len(), |k: int| result.cells@[k].total_fees));
    exact_sums_are_met(ar, net_pnls(cells), nets);
    exact_sums_are_met(ar, fees(cells), paid);
    assert(nets[nets.len() - 1].is_finite());
    sum_is_met(ar, config.starting_balance, result.total_net_pnl, balance);
}

/// What the result of a backtest says follows from its cells and its candles.
pub proof fn results_say_what_the_cells_say(
    ar: Arithmetic,
    config: BacktestConfig,
    store: Map<Seq<char>, Seq<HlCandle>>,
    result: BacktestResult,
)
    requires
        sums_up(ar, config, store, result),
    ensures
        result.start_balance == config.starting_balance,
        result.final_balance == ar(Op::Add(config.starting_balance, result.total_net_pnl)),
        result.total_trades == trades_in(cell_views(result.cells@)),
        texts(result.below_sharpe_threshold@) == failing_keys(cell_views(result.cells@)),
        forall|m: Seq<char>| #[trigger]
            store.dom().contains(m) ==> exists|k: int|
                0 <= k < result.candle_stats@.len() && (#[trigger] result.candle_stats@[k]).0@ == m
                    && result.candle_stats@[k].1 == store[m].len(),
        forall|k: int|
            0 <= k < result.candle_stats@.len() ==> store.dom().contains(
                (#[trigger] result.candle_stats@[k]).0@,
            ),
{
    counts_say_what_the_store_holds(store, result.candle_stats@);
}

} // verus!
