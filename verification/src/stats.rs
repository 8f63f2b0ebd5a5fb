//! What a backtest records: its trades, and the statistics of one cell.
use crate::number::{
    answers, computes, minus, over, plus, times, Arithmetic, Double, Op, HUNDRED, ONE, ZERO,
};
use vstd::prelude::*;

verus! {

/// Bits of 0.0001.
pub const LEAST_GROSS_PNL: u64 = 0x3f1a_36e2_eb1c_432d;

/// Bits of 365.25.
pub const DAYS_PER_YEAR: u64 = 0x4076_d400_0000_0000;

/// Bits of 86400.
pub const SECS_PER_DAY: u64 = 0x40f5_1800_0000_0000;

/// Per-cell statistics; a cell is one strategy on one market.
#[derive(Clone, Debug)]
pub struct BacktestCellStats {
    pub strategy: String,
    pub market: String,
    pub trade_count: usize,
    pub win_count: usize,
    pub loss_count: usize,
    pub gross_pnl: Double,
    pub total_fees: Double,
    pub entry_fees_total: Double,
    pub exit_fees_total: Double,
    pub borrow_fees_total: Double,
    pub net_pnl: Double,
    pub fee_ratio: Double,
    pub win_rate: Double,
    pub sharpe_ratio: Double,
    pub max_drawdown_usd: Double,
    pub avg_hold_secs: Double,
    pub best_trade_pnl: Double,
    pub worst_trade_pnl: Double,
    pub total_candles: usize,
    pub interval: String,
    pub start_time: String,
    pub end_time: String,
    /// Blueprint file or description that generated this strategy's parameters.
    /// Empty for built-in strategies; path to blueprint JSON for data-driven ones.
    pub strategy_source: String,
    /// Whether the Sharpe ratio meets the threshold of 1.0 for live trading.
    pub sharpe_pass: bool,
}

/// What the statistics of a cell say.
pub struct StatsView {
    pub strategy: Seq<char>,
    pub market: Seq<char>,
    pub trade_count: nat,
    pub win_count: nat,
    pub loss_count: nat,
    pub gross_pnl: Double,
    pub total_fees: Double,
    pub entry_fees_total: Double,
    pub exit_fees_total: Double,
    pub borrow_fees_total: Double,
    pub net_pnl: Double,
    pub fee_ratio: Double,
    pub win_rate: Double,
    pub sharpe_ratio: Double,
    pub max_drawdown_usd: Double,
    pub avg_hold_secs: Double,
    pub best_trade_pnl: Double,
    pub worst_trade_pnl: Double,
    pub total_candles: nat,
    pub interval: Seq<char>,
    pub start_time: Seq<char>,
    pub end_time: Seq<char>,
    pub strategy_source: Seq<char>,
    pub sharpe_pass: bool,
}

impl View for BacktestCellStats {
    type V = StatsView;

    open spec fn view(&self) -> StatsView {
        StatsView {
            strategy: self.strategy@,
            market: self.market@,
            trade_count: self.trade_count as nat,
            win_count: self.win_count as nat,
            loss_count: self.loss_count as nat,
            gross_pnl: self.gross_pnl,
            total_fees: self.total_fees,
            entry_fees_total: self.entry_fees_total,
            exit_fees_total: self.exit_fees_total,
            borrow_fees_total: self.borrow_fees_total,
            net_pnl: self.net_pnl,
            fee_ratio: self.fee_ratio,
            win_rate: self.win_rate,
            sharpe_ratio: self.sharpe_ratio,
            max_drawdown_usd: self.max_drawdown_usd,
            avg_hold_secs: self.avg_hold_secs,
            best_trade_pnl: self.best_trade_pnl,
            worst_trade_pnl: self.worst_trade_pnl,
            total_candles: self.total_candles as nat,
            interval: self.interval@,
            start_time: self.start_time@,
            end_time: self.end_time@,
            strategy_source: self.strategy_source@,
            sharpe_pass: self.sharpe_pass,
        }
    }
}

/// Statistics of nothing: every count and amount is 0, every text empty.
pub open spec fn no_stats() -> StatsView {
    StatsView {
        strategy: Seq::empty(),
        market: Seq::empty(),
        trade_count: 0,
        win_count: 0,
        loss_count: 0,
        gross_pnl: Double::of(ZERO),
        total_fees: Double::of(ZERO),
        entry_fees_total: Double::of(ZERO),
        exit_fees_total: Double::of(ZERO),
        borrow_fees_total: Double::of(ZERO),
        net_pnl: Double::of(ZERO),
        fee_ratio: Double::of(ZERO),
        win_rate: Double::of(ZERO),
        sharpe_ratio: Double::of(ZERO),
        max_drawdown_usd: Double::of(ZERO),
        avg_hold_secs: Double::of(ZERO),
        best_trade_pnl: Double::of(ZERO),
        worst_trade_pnl: Double::of(ZERO),
        total_candles: 0,
        interval: Seq::empty(),
        start_time: Seq::empty(),
        end_time: Seq::empty(),
        strategy_source: Seq::empty(),
        sharpe_pass: false,
    }
}

impl Default for BacktestCellStats {
    fn default() -> (r: BacktestCellStats)
        ensures
            r@ == no_stats(),
    {
        let zero = Double::of(ZERO);
        BacktestCellStats {
            strategy: String::new(),
            market: String::new(),
            trade_count: 0,
            win_count: 0,
            loss_count: 0,
            gross_pnl: zero,
            total_fees: zero,
            entry_fees_total: zero,
            exit_fees_total: zero,
            borrow_fees_total: zero,
            net_pnl: zero,
            fee_ratio: zero,
            win_rate: zero,
            sharpe_ratio: zero,
            max_drawdown_usd: zero,
            avg_hold_secs: zero,
            best_trade_pnl: zero,
            worst_trade_pnl: zero,
            total_candles: 0,
            interval: String::new(),
            start_time: String::new(),
            end_time: String::new(),
            strategy_source: String::new(),
            sharpe_pass: false,
        }
    }
}

/// A single backtest trade record.
#[derive(Clone, Debug)]
pub struct BtTrade {
    pub strategy: String,
    pub market: String,
    pub side: String,
    pub entry_price: Double,
    pub exit_price: Double,
    pub size_usd: Double,
    pub gross_pnl: Double,
    pub entry_fee: Double,
    pub exit_fee: Double,
    pub borrow_fee: Double,
    pub net_pnl: Double,
    pub hold_secs: u64,
    pub exit_reason: String,
    pub entry_time: String,
    pub exit_time: String,
}

/// What a trade record says.
pub struct TradeView {
    pub strategy: Seq<char>,
    pub market: Seq<char>,
    pub side: Seq<char>,
    pub entry_price: Double,
    pub exit_price: Double,
    pub size_usd: Double,
    pub gross_pnl: Double,
    pub entry_fee: Double,
    pub exit_fee: Double,
    pub borrow_fee: Double,
    pub net_pnl: Double,
    pub hold_secs: int,
    pub exit_reason: Seq<char>,
    pub entry_time: Seq<char>,
    pub exit_time: Seq<char>,
}

impl View for BtTrade {
    type V = TradeView;

    open spec fn view(&self) -> TradeView {
        TradeView {
            strategy: self.strategy@,
            market: self.market@,
            side: self.side@,
            entry_price: self.entry_price,
            exit_price: self.exit_price,
            size_usd: self.size_usd,
            gross_pnl: self.gross_pnl,
            entry_fee: self.entry_fee,
            exit_fee: self.exit_fee,
            borrow_fee: self.borrow_fee,
            net_pnl: self.net_pnl,
            hold_secs: self.hold_secs as int,
            exit_reason: self.exit_reason@,
            entry_time: self.entry_time@,
            exit_time: self.exit_time@,
        }
    }
}

/// What a list of trade records says.
pub open spec fn trade_views(trades: Seq<BtTrade>) -> Seq<TradeView> {
    trades.map_values(|t: BtTrade| t@)
}

impl TradeView {
    /// All the fees of the trade.
    pub open spec fn fees(self, ar: Arithmetic) -> Double {
        plus(ar, plus(ar, self.entry_fee, self.exit_fee), self.borrow_fee)
    }

    /// The trade did not lose money.
    pub open spec fn won(self) -> bool {
        self.net_pnl.ge(Double::of(ZERO))
    }
}

/// The mean of `count` hold times, the last of which is `secs`, where `mean` is that of
/// the others.
pub open spec fn mean_with(ar: Arithmetic, mean: Double, count: nat, secs: int) -> Double {
    if count == 1 {
        ar(Op::OfCount(secs as u64))
    } else {
        over(
            ar,
            plus(
                ar,
                times(ar, mean, ar(Op::OfCount((count - 1) as u64))),
                ar(Op::OfCount(secs as u64)),
            ),
            ar(Op::OfCount(count as u64)),
        )
    }
}

/// The mean hold time of the trades, reckoned from one to the next; 0 where there are
/// none.
pub open spec fn mean_hold(ar: Arithmetic, trades: Seq<TradeView>) -> Double
    decreases trades.len(),
{
    if trades.len() == 0 {
        Double::of(ZERO)
    } else {
        mean_with(ar, mean_hold(ar, trades.drop_last()), trades.len(), trades.last().hold_secs)
    }
}

impl StatsView {
    /// The statistics with one more trade in the counts and totals.
    pub open spec fn booked(self, ar: Arithmetic, trade: TradeView) -> StatsView {
        StatsView {
            trade_count: self.trade_count + 1,
            gross_pnl: plus(ar, self.gross_pnl, trade.gross_pnl),
            total_fees: plus(ar, self.total_fees, trade.fees(ar)),
            entry_fees_total: plus(ar, self.entry_fees_total, trade.entry_fee),
            exit_fees_total: plus(ar, self.exit_fees_total, trade.exit_fee),
            borrow_fees_total: plus(ar, self.borrow_fees_total, trade.borrow_fee),
            net_pnl: plus(ar, self.net_pnl, trade.net_pnl),
            win_count: if trade.won() {
                self.win_count + 1
            } else {
                self.win_count
            },
            loss_count: if trade.won() {
                self.loss_count
            } else {
                self.loss_count + 1
            },
            ..self
        }
    }

    /// The statistics, whose counts hold the trade already, with the trade in the
    /// best, the worst and the mean hold time.
    pub open spec fn ranked(self, ar: Arithmetic, trade: TradeView) -> StatsView {
        StatsView {
            best_trade_pnl: if trade.net_pnl.gt(self.best_trade_pnl) {
                trade.net_pnl
            } else {
                self.best_trade_pnl
            },
            worst_trade_pnl: if trade.net_pnl.lt(self.worst_trade_pnl) {
                trade.net_pnl
            } else {
                self.worst_trade_pnl
            },
            avg_hold_secs: mean_with(ar, self.avg_hold_secs, self.trade_count, trade.hold_secs),
            ..self
        }
    }

    /// Wins in percent of the trades; 0 where there are none.
    pub open spec fn wins_pct(self, ar: Arithmetic) -> Double {
        if self.trade_count > 0 {
            times(
                ar,
                over(
                    ar,
                    ar(Op::OfCount(self.win_count as u64)),
                    ar(Op::OfCount(self.trade_count as u64)),
                ),
                Double::of(HUNDRED),
            )
        } else {
            Double::of(ZERO)
        }
    }

    /// Fees in percent of the gross profit's size; 0 where that is next to nothing.
    pub open spec fn fees_pct(self, ar: Arithmetic) -> Double {
        if self.gross_pnl.abs().gt(Double::of(LEAST_GROSS_PNL)) {
            times(ar, over(ar, self.total_fees, self.gross_pnl.abs()), Double::of(HUNDRED))
        } else {
            Double::of(ZERO)
        }
    }

    /// The statistics with the figures that follow from the others filled in.
    pub open spec fn finalized(self, ar: Arithmetic) -> StatsView {
        StatsView {
            win_rate: self.wins_pct(ar),
            fee_ratio: self.fees_pct(ar),
            sharpe_pass: self.sharpe_ratio.ge(Double::of(ONE)),
            ..self
        }
    }
}

impl BacktestCellStats {
    /// Adds a trade to the counts and totals.
    pub fn book<F: Fn(Op) -> Double>(&mut self, trade: &BtTrade, calc: &F)
        requires
            answers(*calc),
            old(self).trade_count < usize::MAX,
            old(self).win_count < usize::MAX,
            old(self).loss_count < usize::MAX,
        ensures
            forall|ar: Arithmetic| #[trigger]
                computes(*calc, ar) ==> final(self)@ == old(self)@.booked(ar, trade@),
            final(self).trade_count == old(self).trade_count + 1,
            final(self).win_count == old(self).win_count + (if trade@.won() {
                1int
            } else {
                0
            }),
            final(self).loss_count == old(self).loss_count + (if trade@.won() {
                0int
            } else {
                1
            }),
    {
        let entry_and_exit = calc(Op::Add(trade.entry_fee, trade.exit_fee));
        let fees = calc(Op::Add(entry_and_exit, trade.borrow_fee));
        self.trade_count = self.trade_count + 1;
        self.gross_pnl = calc(Op::Add(self.gross_pnl, trade.gross_pnl));
        self.total_fees = calc(Op::Add(self.total_fees, fees));
        self.entry_fees_total = calc(Op::Add(self.entry_fees_total, trade.entry_fee));
        self.exit_fees_total = calc(Op::Add(self.exit_fees_total, trade.exit_fee));
        self.borrow_fees_total = calc(Op::Add(self.borrow_fees_total, trade.borrow_fee));
        self.net_pnl = calc(Op::Add(self.net_pnl, trade.net_pnl));
        if trade.net_pnl.ge(Double::of(ZERO)) {
            self.win_count = self.win_count + 1;
        } else {
            self.loss_count = self.loss_count + 1;
        }
    }

    /// Takes a trade, which the counts hold already, into the best, the worst and
    /// the mean hold time.
    pub fn rank<F: Fn(Op) -> Double>(&mut self, trade: &BtTrade, calc: &F)
        requires
            answers(*calc),
            old(self).trade_count > 0,
        ensures
            forall|ar: Arithmetic| #[trigger]
                computes(*calc, ar) ==> final(self)@ == old(self)@.ranked(ar, trade@),
            final(self).trade_count == old(self).trade_count,
            final(self).win_count == old(self).win_count,
            final(self).loss_count == old(self).loss_count,
    {
        if trade.net_pnl.gt(self.best_trade_pnl) {
            self.best_trade_pnl = trade.net_pnl;
        }
        if trade.net_pnl.lt(self.worst_trade_pnl) {
            self.worst_trade_pnl = trade.net_pnl;
        }
        let secs = calc(Op::OfCount(trade.hold_secs));
        self.avg_hold_secs = if self.trade_count == 1 {
            secs
        } else {
            let before = calc(Op::OfCount((self.trade_count - 1) as u64));
            let prev_total = calc(Op::Mul(self.avg_hold_secs, before));
            let total = calc(Op::Add(prev_total, secs));
            let count = calc(Op::OfCount(self.trade_count as u64));
            calc(Op::Div(total, count))
        };
    }

    /// Computes the win rate, the fee ratio and whether the Sharpe ratio passes.
    pub fn finalize<F: Fn(Op) -> Double>(&mut self, calc: &F)
        requires
            answers(*calc),
        ensures
            forall|ar: Arithmetic| #[trigger]
                computes(*calc, ar) ==> final(self)@ == old(self)@.finalized(ar),
            final(self).sharpe_pass == old(self).sharpe_ratio.ge(Double::of(ONE)),
            final(self).trade_count == old(self).trade_count,
            final(self).win_count == old(self).win_count,
            final(self).loss_count == old(self).loss_count,
    {
        self.win_rate = if self.trade_count > 0 {
            let wins = calc(Op::OfCount(self.win_count as u64));
            let trades = calc(Op::OfCount(self.trade_count as u64));
            let share = calc(Op::Div(wins, trades));
            calc(Op::Mul(share, Double::of(HUNDRED)))
        } else {
            Double::of(ZERO)
        };
        let gross = self.gross_pnl.abs();
        self.fee_ratio = if gross.gt(Double::of(LEAST_GROSS_PNL)) {
            let share = calc(Op::Div(self.total_fees, gross));
            calc(Op::Mul(share, Double::of(HUNDRED)))
        } else {
            Double::of(ZERO)
        };
        self.sharpe_pass = self.sharpe_ratio.ge(Double::of(ONE));
    }

    /// How the summary table marks the cell.
    pub fn pass_flag(&self) -> (r: &'static str)
        ensures
            r@ == (if self.sharpe_pass {
                "YES"@
            } else {
                "NO"@
            }),
    {
        if self.sharpe_pass {
            "YES"
        } else {
            "NO"
        }
    }
}

/// The relative change from each sample of an equity curve to the next, where the
/// first of the two is positive.
pub open spec fn changes_of(ar: Arithmetic, equity: Seq<Double>) -> Seq<Double>
    decreases equity.len(),
{
    if equity.len() < 2 {
        Seq::empty()
    } else {
        let earlier = changes_of(ar, equity.drop_last());
        let prev = equity[equity.len() - 2];
        if prev.gt(Double::of(ZERO)) {
            earlier.push(over(ar, minus(ar, equity.last(), prev), prev))
        } else {
            earlier
        }
    }
}

/// The sum, taken from the first to the last.
pub open spec fn sum_of(ar: Arithmetic, xs: Seq<Double>) -> Double
    decreases xs.len(),
{
    if xs.len() == 0 {
        Double::of(ZERO)
    } else {
        plus(ar, sum_of(ar, xs.drop_last()), xs.last())
    }
}

/// The squares of the distances from `center`.
pub open spec fn squares_of(ar: Arithmetic, xs: Seq<Double>, center: Double) -> Seq<Double> {
    xs.map_values(|x: Double| ar(Op::Square(minus(ar, x, center))))
}

pub open spec fn mean_of(ar: Arithmetic, xs: Seq<Double>) -> Double {
    over(ar, sum_of(ar, xs), ar(Op::OfCount(xs.len() as u64)))
}

/// The standard deviation of a sample.
pub open spec fn deviation_of(ar: Arithmetic, xs: Seq<Double>) -> Double {
    ar(
        Op::Sqrt(
            over(
                ar,
                sum_of(ar, squares_of(ar, xs, mean_of(ar, xs))),
                ar(Op::OfCount((xs.len() - 1) as u64)),
            ),
        ),
    )
}

/// How many bars of this many seconds a year has.
pub open spec fn bars_per_year(ar: Arithmetic, interval_secs: Double) -> Double {
    over(
        ar,
        times(ar, Double::of(DAYS_PER_YEAR), Double::of(SECS_PER_DAY)),
        interval_secs,
    )
}

/// The annualized Sharpe ratio of an equity curve with one sample for each bar; 0
/// where there are fewer than two changes, or where they do not vary.
pub open spec fn sharpe_of(ar: Arithmetic, equity: Seq<Double>, interval_secs: Double) -> Double {
    let changes = changes_of(ar, equity);
    if changes.len() < 2 {
        Double::of(ZERO)
    } else if deviation_of(ar, changes).gt(Double::of(ZERO)) {
        times(
            ar,
            over(ar, mean_of(ar, changes), deviation_of(ar, changes)),
            ar(Op::Sqrt(bars_per_year(ar, interval_secs))),
        )
    } else {
        Double::of(ZERO)
    }
}

/// Sums the numbers, from the first to the last.
fn sum<F: Fn(Op) -> Double>(xs: &Vec<Double>, calc: &F) -> (r: Double)
    requires
        answers(*calc),
    ensures
        forall|ar: Arithmetic| #[trigger] computes(*calc, ar) ==> r == sum_of(ar, xs@),
{
    let mut r = Double::of(ZERO);
    let mut i: usize = 0;
    while i < xs.len()
        invariant
            i <= xs.len(),
            answers(*calc),
            forall|ar: Arithmetic| #[trigger]
                computes(*calc, ar) ==> r == sum_of(ar, xs@.take(i as int)),
        decreases xs.len() - i,
    {
        r = calc(Op::Add(r, xs[i]));
        assert(xs@.take(i + 1).drop_last() =~= xs@.take(i as int));
        i = i + 1;
    }
    assert(xs@.take(i as int) =~= xs@);
    r
}

/// The relative changes along an equity curve.
fn changes<F: Fn(Op) -> Double>(equity: &Vec<Double>, calc: &F) -> (r: Vec<Double>)
    requires
        answers(*calc),
    ensures
        forall|ar: Arithmetic| #[trigger] computes(*calc, ar) ==> r@ == changes_of(ar, equity@),
{
    let mut r: Vec<Double> = Vec::new();
    if equity.len() < 2 {
        return r;
    }
    let mut i: usize = 1;
    while i < equity.len()
        invariant
            1 <= i <= equity.len(),
            answers(*calc),
            forall|ar: Arithmetic| #[trigger]
                computes(*calc, ar) ==> r@ == changes_of(ar, equity@.take(i as int)),
        decreases equity.len() - i,
    {
        let prev = equity[i - 1];
        assert(equity@.take(i + 1).drop_last() =~= equity@.take(i as int));
        if prev.gt(Double::of(ZERO)) {
            let change = calc(Op::Sub(equity[i], prev));
            r.push(calc(Op::Div(change, prev)));
        }
        i = i + 1;
    }
    assert(equity@.take(i as int) =~= equity@);
    r
}

/// The annualized Sharpe ratio of an equity curve with one sample for each bar.
pub fn sharpe<F: Fn(Op) -> Double>(
    equity: &Vec<Double>,
    interval_secs: Double,
    calc: &F,
) -> (r: Double)
    requires
        answers(*calc),
    ensures
        forall|ar: Arithmetic| #[trigger]
            computes(*calc, ar) ==> r == sharpe_of(ar, equity@, interval_secs),
{
    let changes = changes(equity, calc);
    if changes.len() < 2 {
        return Double::of(ZERO);
    }
    let total = sum(&changes, calc);
    let count = calc(Op::OfCount(changes.len() as u64));
    let mean = calc(Op::Div(total, count));
    let mut squares: Vec<Double> = Vec::new();
    let mut i: usize = 0;
    while i < changes.len()
        invariant
            i <= changes.len(),
            answers(*calc),
            squares.len() == i,
            forall|ar: Arithmetic| #[trigger]
                computes(*calc, ar) ==> squares@ == squares_of(ar, changes@, mean).take(i as int),
        decreases changes.len() - i,
    {
        let distance = calc(Op::Sub(changes[i], mean));
        squares.push(calc(Op::Square(distance)));
        i = i + 1;
        assert forall|ar: Arithmetic| #[trigger] computes(*calc, ar) implies squares@
            == squares_of(ar, changes@, mean).take(i as int) by {
            assert(squares@ =~= squares_of(ar, changes@, mean).take(i as int));
        }
    }
    assert forall|ar: Arithmetic| #[trigger] computes(*calc, ar) implies squares@ == squares_of(
        ar,
        changes@,
        mean,
    ) by {
        assert(squares_of(ar, changes@, mean).take(i as int) =~= squares_of(ar, changes@, mean));
    }
    let spread = sum(&squares, calc);
    let freedom = calc(Op::OfCount((changes.len() - 1) as u64));
    let variance = calc(Op::Div(spread, freedom));
    let deviation = calc(Op::Sqrt(variance));
    let year = calc(Op::Mul(Double::of(DAYS_PER_YEAR), Double::of(SECS_PER_DAY)));
    let bars = calc(Op::Div(year, interval_secs));
    if deviation.gt(Double::of(ZERO)) {
        let ratio = calc(Op::Div(mean, deviation));
        let scale = calc(Op::Sqrt(bars));
        calc(Op::Mul(ratio, scale))
    } else {
        Double::of(ZERO)
    }
}

proof fn changes_are_fewer(ar: Arithmetic, equity: Seq<Double>)
    ensures
        equity.len() > 0 ==> changes_of(ar, equity).len() < equity.len(),
        equity.len() == 0 ==> changes_of(ar, equity).len() == 0,
    decreases equity.len(),
{
    if equity.len() >= 2 {
        changes_are_fewer(ar, equity.drop_last());
    }
}

/// An equity curve of fewer than three samples has the Sharpe ratio 0.
pub proof fn short_curves_have_no_sharpe(
    ar: Arithmetic,
    equity: Seq<Double>,
    interval_secs: Double,
)
    requires
        equity.len() < 3,
    ensures
        sharpe_of(ar, equity, interval_secs) == Double::of(ZERO),
{
    changes_are_fewer(ar, equity);
}

/// Statistics that are complete stay as they are when they are completed again.
pub proof fn finalizing_again_changes_nothing(ar: Arithmetic, stats: StatsView)
    ensures
        stats.finalized(ar).finalized(ar) == stats.finalized(ar),
{
}

/// The model of a trade record says what the record holds, field by field.
pub proof fn trade_views_are_faithful(trades: Seq<BtTrade>, k: int)
    requires
        0 <= k < trades.len(),
    ensures
        trade_views(trades).len() == trades.len(),
        ({
            let (t, v) = (trades[k], trade_views(trades)[k]);
            &&& v.strategy == t.strategy@
            &&& v.market == t.market@
            &&& v.side == t.side@
            &&& v.entry_price == t.entry_price
            &&& v.exit_price == t.exit_price
            &&& v.size_usd == t.size_usd
            &&& v.gross_pnl == t.gross_pnl
            &&& v.entry_fee == t.entry_fee
            &&& v.exit_fee == t.exit_fee
            &&& v.borrow_fee == t.borrow_fee
            &&& v.net_pnl == t.net_pnl
            &&& v.hold_secs == t.hold_secs
            &&& v.exit_reason == t.exit_reason@
            &&& v.entry_time == t.entry_time@
            &&& v.exit_time == t.exit_time@
        }),
{
}

/// The model of the statistics says what they hold, field by field.
pub proof fn stats_views_are_faithful(s: BacktestCellStats)
    ensures
        s@.strategy == s.strategy@,
        s@.market == s.market@,
        s@.trade_count == s.trade_count,
        s@.win_count == s.win_count,
        s@.loss_count == s.loss_count,
        s@.gross_pnl == s.gross_pnl,
        s@.total_fees == s.total_fees,
        s@.entry_fees_total == s.entry_fees_total,
        s@.exit_fees_total == s.exit_fees_total,
        s@.borrow_fees_total == s.borrow_fees_total,
        s@.net_pnl == s.net_pnl,
        s@.fee_ratio == s.fee_ratio,
        s@.win_rate == s.win_rate,
        s@.sharpe_ratio == s.sharpe_ratio,
        s@.max_drawdown_usd == s.max_drawdown_usd,
        s@.avg_hold_secs == s.avg_hold_secs,
        s@.best_trade_pnl == s.best_trade_pnl,
        s@.worst_trade_pnl == s.worst_trade_pnl,
        s@.total_candles == s.total_candles,
        s@.interval == s.interval@,
        s@.start_time == s.start_time@,
        s@.end_time == s.end_time@,
        s@.strategy_source == s.strategy_source@,
        s@.sharpe_pass == s.sharpe_pass,
{
}

} // verus!
