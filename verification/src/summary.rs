//! The result of a whole backtest.
use crate::candle::HlCandle;
use crate::config::BacktestConfig;
use crate::number::{answers, computes, plus, Arithmetic, Double, Op, ZERO};
use crate::stats::{sum_of, BacktestCellStats, StatsView};
use crate::store::{counts_of, CandleStore};
use crate::text::{concat, texts};
use vstd::prelude::*;

verus! {

/// Complete backtest result.
#[derive(Clone, Debug)]
pub struct BacktestResult {
    pub start_balance: Double,
    pub final_balance: Double,
    pub total_net_pnl: Double,
    pub total_trades: usize,
    pub total_fees: Double,
    pub cells: Vec<BacktestCellStats>,
    /// How many candles each market had.
    pub candle_stats: Vec<(String, usize)>,
    /// Cells that did NOT meet the Sharpe threshold of 1.0, as "strategy:market".
    pub below_sharpe_threshold: Vec<String>,
}

/// What the statistics of each cell say.
pub open spec fn cell_views(cells: Seq<BacktestCellStats>) -> Seq<StatsView> {
    cells.map_values(|cell: BacktestCellStats| cell@)
}

/// The net profits of the cells.
pub open spec fn net_pnls(cells: Seq<StatsView>) -> Seq<Double> {
    cells.map_values(|cell: StatsView| cell.net_pnl)
}

/// The fees of the cells.
pub open spec fn fees(cells: Seq<StatsView>) -> Seq<Double> {
    cells.map_values(|cell: StatsView| cell.total_fees)
}

/// How many trades the cells have in all.
pub open spec fn trades_in(cells: Seq<StatsView>) -> nat
    decreases cells.len(),
{
    if cells.len() == 0 {
        0
    } else {
        trades_in(cells.drop_last()) + cells.last().trade_count
    }
}

/// The name of a cell.
pub open spec fn key_of(cell: StatsView) -> Seq<char> {
    cell.strategy + ":"@ + cell.market
}

/// The names of the cells whose Sharpe ratio does not pass, in order.
pub open spec fn failing_keys(cells: Seq<StatsView>) -> Seq<Seq<char>>
    decreases cells.len(),
{
    if cells.len() == 0 {
        Seq::empty()
    } else if cells.last().sharpe_pass {
        failing_keys(cells.drop_last())
    } else {
        failing_keys(cells.drop_last()).push(key_of(cells.last()))
    }
}

/// The result sums up the cells of a backtest.
pub open spec fn sums_up(
    ar: Arithmetic,
    config: BacktestConfig,
    store: Map<Seq<char>, Seq<HlCandle>>,
    result: BacktestResult,
) -> bool {
    let cells = cell_views(result.cells@);
    &&& result.start_balance == config.starting_balance
    &&& result.total_net_pnl == sum_of(ar, net_pnls(cells))
    &&& result.total_fees == sum_of(ar, fees(cells))
    &&& result.final_balance == plus(ar, config.starting_balance, result.total_net_pnl)
    &&& result.total_trades == trades_in(cells)
    &&& counts_of(store, result.candle_stats@)
    &&& texts(result.below_sharpe_threshold@) == failing_keys(cells)
}

/// The names of the cells whose Sharpe ratio does not pass.
pub fn below_threshold(cells: &Vec<BacktestCellStats>) -> (r: Vec<String>)
    ensures
        texts(r@) == failing_keys(cell_views(cells@)),
{
    let mut r: Vec<String> = Vec::new();
    let mut k: usize = 0;
    assert(texts(r@) =~= Seq::empty());
    while k < cells.len()
        invariant
            k <= cells.len(),
            texts(r@) == failing_keys(cell_views(cells@).take(k as int)),
        decreases cells.len() - k,
    {
        let ghost views = cell_views(cells@);
        assert(views.take(k + 1).drop_last() =~= views.take(k as int));
        assert(views.take(k + 1).last() == cells@[k as int]@);
        if !cells[k].sharpe_pass {
            let head = concat(cells[k].strategy.as_str(), ":");
            let key = concat(head.as_str(), cells[k].market.as_str());
            let ghost before = r@;
            r.push(key);
            assert(texts(r@) =~= texts(before).push(key@));
        }
        k = k + 1;
    }
    assert(cell_views(cells@).take(k as int) =~= cell_views(cells@));
    r
}

/// Sums up the cells of a backtest.
pub fn summarize<F: Fn(Op) -> Double>(
    config: &BacktestConfig,
    store: &CandleStore,
    cells: Vec<BacktestCellStats>,
    calc: &F,
) -> (r: BacktestResult)
    requires
        answers(*calc),
        store.wf(),
        trades_in(cell_views(cells@)) <= usize::MAX,
    ensures
        r.cells == cells,
        forall|ar: Arithmetic| #[trigger] computes(*calc, ar) ==> sums_up(ar, *config, store@, r),
        r.total_trades == trades_in(cell_views(cells@)),
{
    let mut net = Double::of(ZERO);
    let mut paid = Double::of(ZERO);
    let mut trades: usize = 0;
    let mut k: usize = 0;
    let ghost views = cell_views(cells@);
    while k < cells.len()
        invariant
            k <= cells.len(),
            answers(*calc),
            views == cell_views(cells@),
            trades_in(views) <= usize::MAX,
            trades == trades_in(views.take(k as int)),
            forall|ar: Arithmetic| #[trigger]
                computes(*calc, ar) ==> net == sum_of(ar, net_pnls(views.take(k as int))) && paid
                    == sum_of(ar, fees(views.take(k as int))),
        decreases cells.len() - k,
    {
        proof {
            let longer = views.take(k + 1);
            assert(longer.drop_last() =~= views.take(k as int));
            assert(net_pnls(longer).drop_last() =~= net_pnls(views.take(k as int)));
            assert(fees(longer).drop_last() =~= fees(views.take(k as int)));
            trades_in_grows(views, k + 1);
        }
        net = calc(Op::Add(net, cells[k].net_pnl));
        paid = calc(Op::Add(paid, cells[k].total_fees));
        trades = trades + cells[k].trade_count;
        k = k + 1;
    }
    assert(views.take(k as int) =~= views);
    let final_balance = calc(Op::Add(config.starting_balance, net));
    let below = below_threshold(&cells);
    BacktestResult {
        start_balance: config.starting_balance,
        final_balance,
        total_net_pnl: net,
        total_trades: trades,
        total_fees: paid,
        cells,
        candle_stats: store.counts(),
        below_sharpe_threshold: below,
    }
}

proof fn trades_in_grows(cells: Seq<StatsView>, k: int)
    requires
        0 <= k <= cells.len(),
    ensures
        trades_in(cells.take(k)) <= trades_in(cells),
    decreases cells.len(),
{
    if k < cells.len() {
        trades_in_grows(cells.drop_last(), k);
        assert(cells.drop_last().take(k) =~= cells.take(k));
    } else {
        assert(cells.take(k) =~= cells);
    }
}

/// A cell's name is on the list if and only if a cell of that name fails; the list is
/// empty if and only if every cell passes.
pub proof fn list_names_the_failing_cells(cells: Seq<StatsView>, key: Seq<char>)
    ensures
        failing_keys(cells).contains(key) <==> exists|k: int|
            0 <= k < cells.len() && !(#[trigger] cells[k]).sharpe_pass && key_of(cells[k]) == key,
        failing_keys(cells).len() == 0 <==> forall|k: int|
            0 <= k < cells.len() ==> (#[trigger] cells[k]).sharpe_pass,
    decreases cells.len(),
{
    let list = failing_keys(cells);
    if cells.len() > 0 {
        let shorter = cells.drop_last();
        let earlier = failing_keys(shorter);
        list_names_the_failing_cells(shorter, key);
        if earlier.contains(key) {
            let k = choose|k: int|
                0 <= k < shorter.len() && !(#[trigger] shorter[k]).sharpe_pass && key_of(shorter[k])
                    == key;
            assert(cells[k] == shorter[k]);
            let i = choose|i: int| 0 <= i < earlier.len() && earlier[i] == key;
            assert(list[i] == key);
        }
        if exists|k: int|
            0 <= k < cells.len() && !(#[trigger] cells[k]).sharpe_pass && key_of(cells[k]) == key {
            let k = choose|k: int|
                0 <= k < cells.len() && !(#[trigger] cells[k]).sharpe_pass && key_of(cells[k])
                    == key;
            if k < shorter.len() {
                assert(shorter[k] == cells[k]);
            } else {
                assert(list[list.len() - 1] == key);
            }
        }
        if list.contains(key) && !earlier.contains(key) {
            let i = choose|i: int| 0 <= i < list.len() && list[i] == key;
            if i < earlier.len() {
                assert(earlier[i] == key);
            }
            assert(!cells[cells.len() - 1].sharpe_pass);
        }
        assert((forall|k: int| 0 <= k < cells.len() ==> (#[trigger] cells[k]).sharpe_pass) <==> (
        forall|k: int| 0 <= k < shorter.len() ==> (#[trigger] shorter[k]).sharpe_pass)
            && cells.last().sharpe_pass) by {
            if forall|k: int| 0 <= k < cells.len() ==> (#[trigger] cells[k]).sharpe_pass {
                assert forall|k: int| 0 <= k < shorter.len() implies (
                #[trigger] shorter[k]).sharpe_pass by {
                    assert(cells[k].sharpe_pass);
                }
                assert(cells[cells.len() - 1].sharpe_pass);
            }
            if (forall|k: int| 0 <= k < shorter.len() ==> (#[trigger] shorter[k]).sharpe_pass)
                && cells.last().sharpe_pass {
                assert forall|k: int| 0 <= k < cells.len() implies (
                #[trigger] cells[k]).sharpe_pass by {
                    if k < shorter.len() {
                        assert(shorter[k].sharpe_pass);
                    }
                }
            }
        }
    }
}

} // verus!
