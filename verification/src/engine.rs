//! The backtesting engine: replays candles through strategies.
use crate::candle::{bar_of, Bar, HlCandle};
use crate::cell::{
    blank_stats, fresh_cell, opened_at, terms_of, CellRun, CellView, Reply, Terms, LOCKOUT_BARS,
};
use crate::config::BacktestConfig;
use crate::interval::{
    has_count, interval_fits, interval_ms, is_interval, parse_interval_ms, split_interval, unit_of,
    IntervalError,
};
use crate::number::{answers, answers_texts, computes, reads, Arithmetic, Double, Op, Reading};
use crate::position::span_fits;
use crate::stats::{trade_views, BacktestCellStats, BtTrade, StatsView, TradeView};
use crate::store::CandleStore;
use crate::strategy::{Signal, Strategy, StrategyParams};
use crate::summary::{cell_views, summarize, sums_up, trades_in, BacktestResult};
use crate::talk::{converses, converses_on, is_round, left_by, replies_of, Round};
use crate::text::{concat, join, joined, lowers_ascii, same_text, texts};
use vstd::prelude::*;

verus! {

/// Why a backtest cannot be set up or run.
#[derive(Clone, Debug)]
pub enum EngineError {
    /// A strategy is asked for that does not exist; with the names that do.
    UnknownStrategy { name: String, available: String },
    /// The interval is none.
    Interval { error: IntervalError },
    /// No market has a candle.
    NoCandles,
}

impl EngineError {
    /// The error in words.
    pub open spec fn words(self) -> Seq<char> {
        match self {
            EngineError::UnknownStrategy { name, available } => "Unknown strategy '"@ + name@
                + "'. Available: "@ + available@,
            EngineError::Interval { error } => error.words(),
            EngineError::NoCandles =>
                "No candle data fetched for any market. Check time range and symbols."@,
        }
    }

    /// The error in words.
    pub fn message(&self) -> (r: String)
        ensures
            r@ == self.words(),
    {
        match self {
            EngineError::UnknownStrategy { name, available } => {
                let head = concat("Unknown strategy '", name.as_str());
                let middle = concat(head.as_str(), "'. Available: ");
                concat(middle.as_str(), available.as_str())
            },
            EngineError::Interval { error } => error.message(),
            EngineError::NoCandles =>
                "No candle data fetched for any market. Check time range and symbols.".to_owned(),
        }
    }
}

/// The backtesting engine. Replays historical candles through strategies.
#[derive(Clone, Debug)]
pub struct BacktestEngine {
    pub bt_config: BacktestConfig,
}

/// The prices of the candles as numbers.
pub open spec fn bars_of(rd: Reading, candles: Seq<HlCandle>) -> Seq<Bar> {
    candles.map_values(|candle: HlCandle| bar_of(rd, candle))
}

/// Times reckoned on the candles, and a lockout after an exit, fit the machine's
/// integers.
pub open spec fn times_fit(interval: Seq<char>, candles: Seq<HlCandle>) -> bool {
    &&& interval_fits(interval)
    &&& is_interval(interval) ==> {
        &&& LOCKOUT_BARS * interval_ms(interval) <= i64::MAX
        &&& forall|k: int|
            0 <= k < candles.len() ==> (#[trigger] candles[k]).t + LOCKOUT_BARS * interval_ms(
                interval,
            ) <= i64::MAX
        &&& forall|i: int, j: int|
            0 <= i <= j < candles.len() ==> span_fits(
                (#[trigger] candles[i]).t as int,
                (#[trigger] candles[j]).t as int,
            )
    }
}

/// The run of a cell before its first bar.
pub open spec fn cell_start(
    ar: Arithmetic,
    config: BacktestConfig,
    params: StrategyParams,
    strategy_name: Seq<char>,
    market: Seq<char>,
    candles: Seq<HlCandle>,
) -> CellView {
    fresh_cell(
        terms_of(ar, params, config, interval_ms(config.interval@) as i64),
        config.starting_balance,
        blank_stats(strategy_name, market, config.interval@, candles),
    )
}

/// The run of a cell at its end, given what the strategy answered on each bar.
pub open spec fn cell_end(
    ar: Arithmetic,
    start: CellView,
    bars: Seq<Bar>,
    replies: Seq<Reply>,
) -> CellView {
    let run = start.after_bars(ar, bars, replies);
    run.finished(
        ar,
        if bars.len() > 0 {
            bars.last().t
        } else {
            0
        },
    )
}

/// These are the statistics and trades of a strategy on a market's candles, with
/// these parameters and this exchange between the strategy and the run.
pub open spec fn is_cell_by<S: Strategy>(
    ar: Arithmetic,
    rd: Reading,
    config: BacktestConfig,
    strategy_name: Seq<char>,
    market: Seq<char>,
    candles: Seq<HlCandle>,
    strategy: S,
    params: StrategyParams,
    rounds: Seq<Round<S>>,
    stats: StatsView,
    trades: Seq<TradeView>,
) -> bool {
    let start = cell_start(ar, config, params, strategy_name, market, candles);
    let bars = bars_of(rd, candles);
    let end = cell_end(ar, start, bars, replies_of(rounds));
    &&& call_ensures(S::parameters, (&strategy,), params)
    &&& lowers_ascii(params.direction_bias@)
    &&& converses(ar, start, strategy, bars, rounds)
    &&& stats == end.stats
    &&& trades == end.trades
}

/// These are the statistics and trades of a strategy on a market's candles: there is
/// an exchange between the strategy and the run, over every candle in order, that
/// leaves them.
pub open spec fn is_cell_of<S: Strategy>(
    ar: Arithmetic,
    rd: Reading,
    config: BacktestConfig,
    strategy_name: Seq<char>,
    market: Seq<char>,
    candles: Seq<HlCandle>,
    strategy: S,
    stats: StatsView,
    trades: Seq<TradeView>,
) -> bool {
    exists|params: StrategyParams, rounds: Seq<Round<S>>| #[trigger]
        is_cell_by(
            ar,
            rd,
            config,
            strategy_name,
            market,
            candles,
            strategy,
            params,
            rounds,
            stats,
            trades,
        )
}

/// The market has candles.
pub open spec fn has_data(store: Map<Seq<char>, Seq<HlCandle>>, market: Seq<char>) -> bool {
    store.dom().contains(market) && store[market].len() > 0
}

/// A strategy on each market that has candles, in the order of the markets.
pub open spec fn row_of(
    strategy: Seq<char>,
    markets: Seq<Seq<char>>,
    store: Map<Seq<char>, Seq<HlCandle>>,
) -> Seq<(Seq<char>, Seq<char>)>
    decreases markets.len(),
{
    if markets.len() == 0 {
        Seq::empty()
    } else {
        let earlier = row_of(strategy, markets.drop_last(), store);
        if has_data(store, markets.last()) {
            earlier.push((strategy, markets.last()))
        } else {
            earlier
        }
    }
}

/// The cells of a backtest: each strategy in order on each market that has candles.
pub open spec fn plan_of(
    strategies: Seq<Seq<char>>,
    markets: Seq<Seq<char>>,
    store: Map<Seq<char>, Seq<HlCandle>>,
) -> Seq<(Seq<char>, Seq<char>)>
    decreases strategies.len(),
{
    if strategies.len() == 0 {
        Seq::empty()
    } else {
        plan_of(strategies.drop_last(), markets, store) + row_of(
            strategies.last(),
            markets,
            store,
        )
    }
}

/// A strategy on a market.
#[derive(Clone, Debug)]
pub struct CellName {
    pub strategy: String,
    pub market: String,
}

/// The strategies and markets that the names stand for.
pub open spec fn cell_names(cells: Seq<CellName>) -> Seq<(Seq<char>, Seq<char>)> {
    cells.map_values(|cell: CellName| (cell.strategy@, cell.market@))
}

proof fn row_has_data(
    strategy: Seq<char>,
    markets: Seq<Seq<char>>,
    store: Map<Seq<char>, Seq<HlCandle>>,
    k: int,
)
    requires
        0 <= k < row_of(strategy, markets, store).len(),
    ensures
        has_data(store, row_of(strategy, markets, store)[k].1),
    decreases markets.len(),
{
    let earlier = row_of(strategy, markets.drop_last(), store);
    if k < earlier.len() {
        row_has_data(strategy, markets.drop_last(), store, k);
    }
}

/// Every cell of a backtest is on a market that has candles.
pub proof fn plan_has_data(
    strategies: Seq<Seq<char>>,
    markets: Seq<Seq<char>>,
    store: Map<Seq<char>, Seq<HlCandle>>,
    k: int,
)
    requires
        0 <= k < plan_of(strategies, markets, store).len(),
    ensures
        has_data(store, plan_of(strategies, markets, store)[k].1),
    decreases strategies.len(),
{
    let earlier = plan_of(strategies.drop_last(), markets, store);
    if k < earlier.len() {
        plan_has_data(strategies.drop_last(), markets, store, k);
    } else {
        row_has_data(strategies.last(), markets, store, k - earlier.len());
    }
}

/// No market has a candle.
pub open spec fn is_blank(store: Map<Seq<char>, Seq<HlCandle>>) -> bool {
    forall|m: Seq<char>| #[trigger] store.dom().contains(m) ==> store[m].len() == 0
}

/// The result and the trades are those of a backtest in which these are the trades
/// of each cell.
pub open spec fn is_run_by<S: Strategy>(
    ar: Arithmetic,
    rd: Reading,
    config: BacktestConfig,
    store: Map<Seq<char>, Seq<HlCandle>>,
    strategies: Seq<S>,
    result: BacktestResult,
    parts: Seq<Seq<TradeView>>,
) -> bool {
    let plan = plan_of(texts(config.strategies@), texts(config.markets@), store);
    let cells = cell_views(result.cells@);
    &&& cells.len() == plan.len()
    &&& parts.len() == plan.len()
    &&& forall|k: int|
        0 <= k < plan.len() ==> is_cell_of(
            ar,
            rd,
            config,
            plan[k].0,
            plan[k].1,
            store[plan[k].1],
            strategies[k],
            #[trigger] cells[k],
            parts[k],
        )
    &&& sums_up(ar, config, store, result)
}

impl BacktestEngine {
    /// Sets up a backtest, if every strategy that it asks for is available.
    pub fn new(available: &Vec<String>, bt_config: BacktestConfig) -> (r: Result<
        BacktestEngine,
        EngineError,
    >)
        ensures
            r is Ok <==> forall|k: int|
                0 <= k < bt_config.strategies.len() ==> texts(available@).contains(
                    #[trigger] texts(bt_config.strategies@)[k],
                ),
            r matches Ok(engine) ==> engine.bt_config == bt_config,
            r matches Err(error) ==> exists|k: int|
                {
                    &&& 0 <= k < bt_config.strategies.len()
                    &&& !texts(available@).contains(#[trigger] texts(bt_config.strategies@)[k])
                    &&& forall|j: int|
                        0 <= j < k ==> texts(available@).contains(
                            #[trigger] texts(bt_config.strategies@)[j],
                        )
                    &&& error matches EngineError::UnknownStrategy { name, available: listed }
                    &&& name@ == texts(bt_config.strategies@)[k]
                    &&& listed@ == joined(texts(available@), ", "@)
                },
    {
        let mut k: usize = 0;
        while k < bt_config.strategies.len()
            invariant
                k <= bt_config.strategies.len(),
                forall|j: int|
                    0 <= j < k ==> texts(available@).contains(
                        #[trigger] texts(bt_config.strategies@)[j],
                    ),
            decreases bt_config.strategies.len() - k,
        {
            let name = &bt_config.strategies[k];
            if !is_listed(available, name.as_str()) {
                assert(!texts(available@).contains(texts(bt_config.strategies@)[k as int]));
                return Err(
                    EngineError::UnknownStrategy {
                        name: name.clone(),
                        available: join(available, ", "),
                    },
                );
            }
            k = k + 1;
        }
        Ok(BacktestEngine { bt_config })
    }

    /// Run backtest for a single strategy x market cell.
    pub fn run_cell<S: Strategy, F: Fn(Op) -> Double, R: Fn(&String) -> Option<Double>>(
        &self,
        strategy_name: &str,
        market: &str,
        candles: &Vec<HlCandle>,
        strategy: S,
        read: &R,
        calc: &F,
    ) -> (r: Result<(BacktestCellStats, Vec<BtTrade>), IntervalError>)
        requires
            answers(*calc),
            answers_texts(*read),
            times_fit(self.bt_config.interval@, candles@),
        ensures
            r is Ok <==> is_interval(self.bt_config.interval@),
            r matches Ok((stats, trades)) ==> {
                &&& forall|ar: Arithmetic, rd: Reading| #[trigger]
                    computes(*calc, ar) && #[trigger] reads(*read, rd) ==> is_cell_of(
                        ar,
                        rd,
                        self.bt_config,
                        strategy_name@,
                        market@,
                        candles@,
                        strategy,
                        stats@,
                        trade_views(trades@),
                    )
                &&& stats.trade_count == trades.len()
                &&& trades.len() <= candles.len()
            },
            r matches Err(IntervalError::Invalid { interval: text }) ==> !has_count(
                self.bt_config.interval@,
            ) && text@ == self.bt_config.interval@,
            r matches Err(IntervalError::UnknownUnit { unit }) ==> has_count(
                self.bt_config.interval@,
            ) && unit@ == unit_of(self.bt_config.interval@),
    {
        let interval_ms: i64 = match parse_interval_ms(self.bt_config.interval.as_str()) {
            Err(e) => return Err(e),
            Ok(ms) => ms,
        };
        let params = strategy.parameters();
        let terms = Terms::new(&params, &self.bt_config, interval_ms, calc);
        let mut run = CellRun::start(
            strategy_name,
            market,
            self.bt_config.interval.as_str(),
            candles,
            terms,
            self.bt_config.starting_balance,
        );
        let ghost start = run@;
        assert(start.trades.len() == run.trades.len());
        let ghost mut rounds: Seq<Round<S>> = Seq::empty();
        let ghost first = strategy;
        let mut current = strategy;
        let mut k: usize = 0;
        proof {
            assert forall|rd: Reading| #[trigger] reads(*read, rd) implies bars_of(
                rd,
                candles@,
            ).take(0) == Seq::<Bar>::empty() by {
                assert(bars_of(rd, candles@).take(0) =~= Seq::<Bar>::empty());
            }
        }
        while k < candles.len()
            invariant
                k <= candles.len(),
                answers(*calc),
                answers_texts(*read),
                run.terms == terms,
                terms.lockout_ms == LOCKOUT_BARS * interval_ms,
                interval_ms >= 0,
                forall|j: int|
                    0 <= j < candles.len() ==> (#[trigger] candles@[j]).t + LOCKOUT_BARS
                        * interval_ms <= i64::MAX,
                forall|i: int, j: int|
                    0 <= i <= j < candles.len() ==> span_fits(
                        (#[trigger] candles@[i]).t as int,
                        (#[trigger] candles@[j]).t as int,
                    ),
                opened_at(run.position) matches Some(t) ==> exists|j: int|
                    0 <= j < k && (#[trigger] candles@[j]).t == t,
                run.stats.trade_count == run.trades.len(),
                run.stats.win_count + run.stats.loss_count == run.stats.trade_count,
                run.stats.trade_count + (if run.position is Some {
                    1int
                } else {
                    0
                }) <= k,
                current == left_by(first, rounds),
                forall|ar: Arithmetic, rd: Reading| #[trigger]
                    computes(*calc, ar) && #[trigger] reads(*read, rd) ==> converses(
                        ar,
                        start,
                        first,
                        bars_of(rd, candles@).take(k as int),
                        rounds,
                    ) && run@ == start.after_bars(
                        ar,
                        bars_of(rd, candles@).take(k as int),
                        replies_of(rounds),
                    ),
            decreases candles.len() - k,
        {
            let bar = candles[k].bar(read);
            let ghost before = run@;
            let ghost earlier = current;
            let ghost mut reply = Reply { exit: None, entry: Signal::Hold };
            let ghost mut snapshot: S::Snapshot = arbitrary();
            if bar.is_usable() {
                run.begin_bar(bar, calc);
                current = current.push_price(bar.close, bar.t);
                let seen = current.snapshot();
                let level = run.level(bar, calc);
                let signal = if level.is_none() {
                    match run.context(bar) {
                        Some(context) => current.detect_exit(&seen, &context),
                        None => None,
                    }
                } else {
                    None
                };
                let exit = run.exit_with(bar, level, signal);
                run.end_bar(bar, exit, calc);
                proof {
                    snapshot = seen;
                    reply = Reply { exit: signal, entry: Signal::Hold };
                }
                if run.wants_entry(bar) {
                    let entry = current.detect_entry(&seen);
                    proof {
                        reply = Reply { exit: signal, entry };
                    }
                    run.queue(entry);
                }
            }
            proof {
                let round = Round { before: earlier, after: current, snapshot, reply };
                assert forall|ar: Arithmetic, rd: Reading| #[trigger]
                    computes(*calc, ar) && #[trigger] reads(*read, rd) implies converses(
                    ar,
                    start,
                    first,
                    bars_of(rd, candles@).take(k + 1),
                    rounds.push(round),
                ) && run@ == start.after_bars(
                    ar,
                    bars_of(rd, candles@).take(k + 1),
                    replies_of(rounds.push(round)),
                ) by {
                    let bars = bars_of(rd, candles@);
                    assert(bars[k as int] == bar);
                    assert(bars.take(k + 1) =~= bars.take(k as int).push(bar));
                    assert(is_round(ar, before, bar, round));
                    converses_on(ar, start, first, bars.take(k as int), rounds, bar, round);
                }
                rounds = rounds.push(round);
            }
            k = k + 1;
        }
        let last_ms: i64 = if candles.len() > 0 {
            candles[candles.len() - 1].t
        } else {
            0
        };
        run.finish(last_ms, calc);
        proof {
            assert forall|ar: Arithmetic, rd: Reading| #[trigger]
                computes(*calc, ar) && #[trigger] reads(*read, rd) implies is_cell_of(
                ar,
                rd,
                self.bt_config,
                strategy_name@,
                market@,
                candles@,
                strategy,
                run.stats@,
                trade_views(run.trades@),
            ) by {
                let bars = bars_of(rd, candles@);
                assert(bars.take(k as int) =~= bars);
                assert(start == cell_start(
                    ar,
                    self.bt_config,
                    params,
                    strategy_name@,
                    market@,
                    candles@,
                ));
                assert(is_cell_by(
                    ar,
                    rd,
                    self.bt_config,
                    strategy_name@,
                    market@,
                    candles@,
                    strategy,
                    params,
                    rounds,
                    run.stats@,
                    trade_views(run.trades@),
                ));
            }
        }
        Ok((run.stats, run.trades))
    }

    /// The cells of the backtest, in the order in which they run: each strategy on
    /// each market that has candles.
    pub fn planned_cells(&self, store: &CandleStore) -> (r: Vec<CellName>)
        requires
            store.wf(),
        ensures
            cell_names(r@) == plan_of(
                texts(self.bt_config.strategies@),
                texts(self.bt_config.markets@),
                store@,
            ),
    {
        let mut r: Vec<CellName> = Vec::new();
        let ghost strategies = texts(self.bt_config.strategies@);
        let ghost markets = texts(self.bt_config.markets@);
        assert(cell_names(r@) =~= Seq::empty());
        let mut i: usize = 0;
        while i < self.bt_config.strategies.len()
            invariant
                i <= self.bt_config.strategies.len(),
                store.wf(),
                strategies == texts(self.bt_config.strategies@),
                markets == texts(self.bt_config.markets@),
                cell_names(r@) == plan_of(strategies.take(i as int), markets, store@),
            decreases self.bt_config.strategies.len() - i,
        {
            let strategy = &self.bt_config.strategies[i];
            let ghost earlier = cell_names(r@);
            assert(cell_names(r@) =~= earlier + row_of(strategy@, markets.take(0), store@));
            let mut j: usize = 0;
            while j < self.bt_config.markets.len()
                invariant
                    j <= self.bt_config.markets.len(),
                    store.wf(),
                    markets == texts(self.bt_config.markets@),
                    cell_names(r@) == earlier + row_of(
                        strategy@,
                        markets.take(j as int),
                        store@,
                    ),
                decreases self.bt_config.markets.len() - j,
            {
                let market = &self.bt_config.markets[j];
                assert(markets.take(j + 1).drop_last() =~= markets.take(j as int));
                assert(markets.take(j + 1).last() == market@);
                let filled = match store.get(market.as_str()) {
                    Some(candles) => candles.len() > 0,
                    None => false,
                };
                assert(filled == has_data(store@, market@));
                if filled {
                    let ghost before = r@;
                    let cell = CellName { strategy: strategy.clone(), market: market.clone() };
                    r.push(cell);
                    assert(cell_names(r@) =~= cell_names(before).push((strategy@, market@)));
                    assert(cell_names(r@) =~= earlier + row_of(
                        strategy@,
                        markets.take(j + 1),
                        store@,
                    ));
                }
                j = j + 1;
            }
            assert(markets.take(j as int) =~= markets);
            assert(strategies.take(i + 1).drop_last() =~= strategies.take(i as int));
            assert(strategies.take(i + 1).last() == strategy@);
            i = i + 1;
        }
        assert(strategies.take(i as int) =~= strategies);
        r
    }

    /// Run the backtest on the candles of each market. Returns results for each
    /// strategy x market cell, and the trades of all cells one after the other.  The
    /// strategies are those of the planned cells, in their order.
    pub fn run<S: Strategy, F: Fn(Op) -> Double, R: Fn(&String) -> Option<Double>>(
        &self,
        store: &CandleStore,
        strategies: Vec<S>,
        read: &R,
        calc: &F,
    ) -> (r: Result<(BacktestResult, Vec<BtTrade>), EngineError>)
        requires
            answers(*calc),
            answers_texts(*read),
            store.wf(),
            strategies.len() == plan_of(
                texts(self.bt_config.strategies@),
                texts(self.bt_config.markets@),
                store@,
            ).len(),
            forall|m: Seq<char>| #[trigger]
                store@.dom().contains(m) ==> times_fit(self.bt_config.interval@, store@[m]),
        ensures
            r is Ok <==> !is_blank(store@) && (strategies.len() == 0 || is_interval(
                self.bt_config.interval@,
            )),
            r matches Ok((result, trades)) ==> exists|parts: Seq<Seq<TradeView>>|
                trade_views(trades@) == #[trigger] parts.flatten_alt() && forall|
                    ar: Arithmetic,
                    rd: Reading,
                | #[trigger]
                    computes(*calc, ar) && #[trigger] reads(*read, rd) ==> is_run_by(
                        ar,
                        rd,
                        self.bt_config,
                        store@,
                        strategies@,
                        result,
                        parts,
                    ),
            r matches Ok((result, trades)) ==> result.total_trades == trades.len(),
            r matches Err(EngineError::NoCandles) ==> is_blank(store@),
            r matches Err(EngineError::Interval { error }) ==> !is_blank(store@) && match error {
                IntervalError::Invalid { interval } => !has_count(self.bt_config.interval@)
                    && interval@ == self.bt_config.interval@,
                IntervalError::UnknownUnit { unit } => has_count(self.bt_config.interval@) && unit@
                    == unit_of(self.bt_config.interval@),
            },
            !(r matches Err(EngineError::UnknownStrategy { .. })),
    {
        if store.is_blank() {
            return Err(EngineError::NoCandles);
        }
        let plan = self.planned_cells(store);
        let ghost names = plan_of(
            texts(self.bt_config.strategies@),
            texts(self.bt_config.markets@),
            store@,
        );
        let ghost given = strategies@;
        let mut cells: Vec<BacktestCellStats> = Vec::new();
        let mut trades: Vec<BtTrade> = Vec::new();
        let ghost mut parts: Seq<Seq<TradeView>> = Seq::empty();
        let mut k: usize = 0;
        assert(trade_views(trades@) =~= Seq::empty());
        assert(cell_views(cells@) =~= Seq::empty());
        for strategy in it: strategies
            invariant
                answers(*calc),
                answers_texts(*read),
                store.wf(),
                !is_blank(store@),
                forall|m: Seq<char>| #[trigger]
                    store@.dom().contains(m) ==> times_fit(self.bt_config.interval@, store@[m]),
                names == plan_of(
                    texts(self.bt_config.strategies@),
                    texts(self.bt_config.markets@),
                    store@,
                ),
                cell_names(plan@) == names,
                it.seq() == given,
                given.len() == names.len(),
                k == it.index(),
                cells.len() == k,
                parts.len() == k,
                trade_views(trades@) == parts.flatten_alt(),
                trades_in(cell_views(cells@)) == trades.len(),
                k > 0 ==> is_interval(self.bt_config.interval@),
                forall|ar: Arithmetic, rd: Reading| #[trigger]
                    computes(*calc, ar) && #[trigger] reads(*read, rd) ==> forall|i: int|
                        0 <= i < k ==> is_cell_of(
                            ar,
                            rd,
                            self.bt_config,
                            names[i].0,
                            names[i].1,
                            store@[names[i].1],
                            given[i],
                            #[trigger] cell_views(cells@)[i],
                            parts[i],
                        ),
        {
            assert(cell_names(plan@)[k as int] == names[k as int]);
            assert(k < plan.len());
            proof {
                plan_has_data(
                    texts(self.bt_config.strategies@),
                    texts(self.bt_config.markets@),
                    store@,
                    k as int,
                );
            }
            let cell = &plan[k];
            if let Some(candles) = store.get(cell.market.as_str()) {
                match self.run_cell(
                    cell.strategy.as_str(),
                    cell.market.as_str(),
                    candles,
                    strategy,
                    read,
                    calc,
                ) {
                    Err(error) => return Err(EngineError::Interval { error }),
                    Ok((stats, cell_trades)) => {
                        let ghost before = cells@;
                        let ghost trades_before = trades@;
                        let ghost added = cell_trades@;
                        let mut cell_trades = cell_trades;
                        trades.append(&mut cell_trades);
                        cells.push(stats);
                        proof {
                            assert(trade_views(trades@) =~= trade_views(trades_before)
                                + trade_views(added));
                            assert(cell_views(cells@) =~= cell_views(before).push(stats@));
                            assert(cell_views(cells@).drop_last() =~= cell_views(before));
                            assert(parts.push(trade_views(added)).drop_last() =~= parts);
                            parts = parts.push(trade_views(added));
                        }
                    },
                }
            }
            k = k + 1;
        }
        assert(trades_in(cell_views(cells@)) == trades.len());
        let result = summarize(&self.bt_config, store, cells, calc);
        assert(trade_views(trades@) == parts.flatten_alt());
        Ok((result, trades))
    }
}

/// Whether the name is among those listed.
fn is_listed(names: &Vec<String>, name: &str) -> (r: bool)
    ensures
        r == texts(names@).contains(name@),
{
    let mut k: usize = 0;
    while k < names.len()
        invariant
            k <= names.len(),
            forall|j: int| 0 <= j < k ==> #[trigger] texts(names@)[j] != name@,
        decreases names.len() - k,
    {
        if same_text(names[k].as_str(), name) {
            assert(texts(names@)[k as int] == name@);
            return true;
        }
        k = k + 1;
    }
    false
}

/// Whether times reckoned on the candles, and a lockout after an exit, fit the
/// machine's integers.
pub fn check_times(interval: &str, candles: &Vec<HlCandle>) -> (r: bool)
    ensures
        r == times_fit(interval@, candles@),
{
    let (count, unit) = match split_interval(interval) {
        Err(_) => return true,
        Ok(parts) => parts,
    };
    assert(count * unit == interval_ms(interval@));
    let ms: i128 = (count as i128) * (unit as i128);
    let lockout: i128 = (LOCKOUT_BARS as i128) * ms;
    if ms > i64::MAX as i128 || lockout > i64::MAX as i128 {
        return false;
    }
    let mut k: usize = 0;
    let mut least: i64 = 0;
    let mut most: i64 = 0;
    while k < candles.len()
        invariant
            k <= candles.len(),
            is_interval(interval@),
            ms == interval_ms(interval@),
            lockout == LOCKOUT_BARS * ms,
            0 <= lockout <= i64::MAX,
            forall|j: int| 0 <= j < k ==> least <= (#[trigger] candles@[j]).t <= most,
            k > 0 ==> exists|j: int| 0 <= j < k && (#[trigger] candles@[j]).t == least,
            k > 0 ==> exists|j: int| 0 <= j < k && (#[trigger] candles@[j]).t == most,
            forall|j: int|
                0 <= j < k ==> (#[trigger] candles@[j]).t + LOCKOUT_BARS * interval_ms(interval@)
                    <= i64::MAX,
            forall|i: int, j: int|
                0 <= i <= j < k ==> span_fits(
                    (#[trigger] candles@[i]).t as int,
                    (#[trigger] candles@[j]).t as int,
                ),
        decreases candles.len() - k,
    {
        let t: i64 = candles[k].t;
        if k == 0 || t < least {
            least = t;
        }
        if k == 0 || t > most {
            most = t;
        }
        assert(candles@[k as int].t == t);
        if (t as i128) + lockout > i64::MAX as i128 || (t as i128) - (least as i128) > i64::MAX
            as i128 || (t as i128) - (most as i128) < i64::MIN as i128 {
            return false;
        }
        k = k + 1;
    }
    true
}

proof fn row_is_the_product(
    strategy: Seq<char>,
    markets: Seq<Seq<char>>,
    store: Map<Seq<char>, Seq<HlCandle>>,
    cell: (Seq<char>, Seq<char>),
)
    ensures
        row_of(strategy, markets, store).contains(cell) <==> cell.0 == strategy && markets.contains(
            cell.1,
        ) && has_data(store, cell.1),
    decreases markets.len(),
{
    let row = row_of(strategy, markets, store);
    if markets.len() > 0 {
        let shorter = markets.drop_last();
        let earlier = row_of(strategy, shorter, store);
        row_is_the_product(strategy, shorter, store, cell);
        assert(markets =~= shorter.push(markets.last()));
        assert(markets.contains(cell.1) <==> shorter.contains(cell.1) || cell.1 == markets.last())
            by {
            if shorter.contains(cell.1) {
                let i = choose|i: int| 0 <= i < shorter.len() && shorter[i] == cell.1;
                assert(markets[i] == cell.1);
            }
            if cell.1 == markets.last() {
                assert(markets[markets.len() - 1] == cell.1);
            }
        }
        if has_data(store, markets.last()) {
            assert(row.contains(cell) <==> earlier.contains(cell) || cell == (
                strategy,
                markets.last(),
            )) by {
                if earlier.contains(cell) {
                    let i = choose|i: int| 0 <= i < earlier.len() && earlier[i] == cell;
                    assert(row[i] == cell);
                }
                if cell == (strategy, markets.last()) {
                    assert(row[row.len() - 1] == cell);
                }
            }
        }
    }
}

/// The cells of a backtest are each strategy on each market that has candles, and no
/// others.
pub proof fn plan_is_the_product(
    strategies: Seq<Seq<char>>,
    markets: Seq<Seq<char>>,
    store: Map<Seq<char>, Seq<HlCandle>>,
    cell: (Seq<char>, Seq<char>),
)
    ensures
        plan_of(strategies, markets, store).contains(cell) <==> strategies.contains(cell.0)
            && markets.contains(cell.1) && has_data(store, cell.1),
    decreases strategies.len(),
{
    let plan = plan_of(strategies, markets, store);
    if strategies.len() > 0 {
        let shorter = strategies.drop_last();
        let earlier = plan_of(shorter, markets, store);
        let row = row_of(strategies.last(), markets, store);
        plan_is_the_product(shorter, markets, store, cell);
        row_is_the_product(strategies.last(), markets, store, cell);
        assert(strategies.contains(cell.0) <==> shorter.contains(cell.0) || cell.0
            == strategies.last()) by {
            if shorter.contains(cell.0) {
                let i = choose|i: int| 0 <= i < shorter.len() && shorter[i] == cell.0;
                assert(strategies[i] == cell.0);
            }
            if cell.0 == strategies.last() {
                assert(strategies[strategies.len() - 1] == cell.0);
            }
            if strategies.contains(cell.0) && cell.0 != strategies.last() {
                let i = choose|i: int| 0 <= i < strategies.len() && strategies[i] == cell.0;
                assert(shorter[i] == cell.0);
            }
        }
        assert(plan.contains(cell) <==> earlier.contains(cell) || row.contains(cell)) by {
            if earlier.contains(cell) {
                let i = choose|i: int| 0 <= i < earlier.len() && earlier[i] == cell;
                assert(plan[i] == cell);
            }
            if row.contains(cell) {
                let i = choose|i: int| 0 <= i < row.len() && row[i] == cell;
                assert(plan[earlier.len() + i] == cell);
            }
            if plan.contains(cell) {
                let i = choose|i: int| 0 <= i < plan.len() && plan[i] == cell;
                if i < earlier.len() {
                    assert(earlier[i] == cell);
                } else {
                    assert(row[i - earlier.len()] == cell);
                }
            }
        }
    }
}

/// The cells of a backtest are those of the first strategies and then those of the others.
pub proof fn plans_go_strategy_by_strategy(
    first: Seq<Seq<char>>,
    rest: Seq<Seq<char>>,
    markets: Seq<Seq<char>>,
    store: Map<Seq<char>, Seq<HlCandle>>,
)
    ensures
        plan_of(first + rest, markets, store) == plan_of(first, markets, store) + plan_of(
            rest,
            markets,
            store,
        ),
    decreases rest.len(),
{
    if rest.len() == 0 {
        assert(first + rest =~= first);
        assert(plan_of(first, markets, store) + plan_of(rest, markets, store) =~= plan_of(
            first,
            markets,
            store,
        ));
    } else {
        plans_go_strategy_by_strategy(first, rest.drop_last(), markets, store);
        assert((first + rest).drop_last() =~= first + rest.drop_last());
        assert(plan_of(first + rest, markets, store) =~= plan_of(first, markets, store) + plan_of(
            rest,
            markets,
            store,
        ));
    }
}

/// The cells of one strategy are those on the first markets and then those on the others; on
/// one market there is one cell, where that has candles.
pub proof fn plans_go_market_by_market(
    strategy: Seq<char>,
    first: Seq<Seq<char>>,
    rest: Seq<Seq<char>>,
    store: Map<Seq<char>, Seq<HlCandle>>,
)
    ensures
        plan_of(seq![strategy], first + rest, store) == plan_of(seq![strategy], first, store)
            + plan_of(seq![strategy], rest, store),
        rest.len() == 1 && store.dom().contains(rest[0]) && store[rest[0]].len() > 0 ==> plan_of(
            seq![strategy],
            rest,
            store,
        ) == seq![(strategy, rest[0])],
        rest.len() == 1 && !(store.dom().contains(rest[0]) && store[rest[0]].len() > 0) ==> plan_of(
            seq![strategy],
            rest,
            store,
        ).len() == 0,
        rest.len() == 0 ==> plan_of(seq![strategy], rest, store).len() == 0,
    decreases rest.len(),
{
    let one = seq![strategy];
    one_row(strategy, first + rest, store);
    one_row(strategy, first, store);
    one_row(strategy, rest, store);
    if rest.len() == 0 {
        assert(first + rest =~= first);
        assert(plan_of(one, first, store) + plan_of(one, rest, store) =~= plan_of(
            one,
            first,
            store,
        ));
    } else {
        let shorter = rest.drop_last();
        plans_go_market_by_market(strategy, first, shorter, store);
        one_row(strategy, first + shorter, store);
        one_row(strategy, shorter, store);
        assert((first + rest).drop_last() =~= first + shorter);
        assert(plan_of(one, first + rest, store) =~= plan_of(one, first, store) + plan_of(
            one,
            rest,
            store,
        ));
        if rest.len() == 1 && has_data(store, rest[0]) {
            assert(row_of(strategy, shorter, store) =~= Seq::empty());
            assert(plan_of(one, rest, store) =~= seq![(strategy, rest[0])]);
        }
    }
}

proof fn one_row(
    strategy: Seq<char>,
    markets: Seq<Seq<char>>,
    store: Map<Seq<char>, Seq<HlCandle>>,
)
    ensures
        plan_of(seq![strategy], markets, store) == row_of(strategy, markets, store),
{
    let one = seq![strategy];
    assert(plan_of(one.drop_last(), markets, store) =~= Seq::empty());
    assert(plan_of(one, markets, store) =~= row_of(strategy, markets, store));
}

/// The cells of a backtest are run one by one, each on the candles of its own market; the
/// result holds them in that order.
pub proof fn backtests_run_each_planned_cell<S: Strategy>(
    ar: Arithmetic,
    rd: Reading,
    config: BacktestConfig,
    store: Map<Seq<char>, Seq<HlCandle>>,
    strategies: Seq<S>,
    result: BacktestResult,
    parts: Seq<Seq<TradeView>>,
    k: int,
)
    requires
        is_run_by(ar, rd, config, store, strategies, result, parts),
        0 <= k < result.cells@.len(),
    ensures
        ({
            let plan = plan_of(texts(config.strategies@), texts(config.markets@), store);
            &&& result.cells@.len() == plan.len()
            &&& parts.len() == plan.len()
            &&& is_cell_of(
                ar,
                rd,
                config,
                plan[k].0,
                plan[k].1,
                store[plan[k].1],
                strategies[k],
                result.cells@[k]@,
                parts[k],
            )
        }),
{
    let cells = cell_views(result.cells@);
    assert(cells[k] == result.cells@[k]@);
}

/// Candles whose times and lockouts lie within the integers can be run on, and others
/// cannot.
pub proof fn times_fit_within_the_integers(interval: Seq<char>, candles: Seq<HlCandle>)
    requires
        is_interval(interval),
    ensures
        times_fit(interval, candles) <==> {
            &&& interval_ms(interval) <= i64::MAX
            &&& 6 * interval_ms(interval) <= i64::MAX
            &&& forall|k: int|
                0 <= k < candles.len() ==> (#[trigger] candles[k]).t + 6 * interval_ms(interval)
                    <= i64::MAX
            &&& forall|i: int, j: int|
                0 <= i <= j < candles.len() ==> i64::MIN <= (#[trigger] candles[j]).t - (
                #[trigger] candles[i]).t <= i64::MAX
        },
{
}

/// There is nothing to run on just where no market that has an entry has a candle.
pub proof fn blank_stores_hold_no_candle(store: Map<Seq<char>, Seq<HlCandle>>)
    ensures
        !is_blank(store) <==> exists|m: Seq<char>| #[trigger]
            store.dom().contains(m) && store[m].len() > 0,
        is_blank(store) ==> forall|m: Seq<char>| !has_data(store, m),
{
}

} // verus!
