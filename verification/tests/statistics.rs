use backtest::config::BacktestConfig;
use backtest::number::{Double, Op};
use backtest::stats::{sharpe, BacktestCellStats, BtTrade};
use backtest::store::CandleStore;
use backtest::summary::{below_threshold, summarize, BacktestResult};

fn double(value: f64) -> Double {
    Double {
        bits: value.to_bits(),
    }
}

fn value(number: Double) -> f64 {
    f64::from_bits(number.bits)
}

fn calculate(op: Op) -> Double {
    double(match op {
        Op::Add(a, b) => value(a) + value(b),
        Op::Sub(a, b) => value(a) - value(b),
        Op::Mul(a, b) => value(a) * value(b),
        Op::Div(a, b) => value(a) / value(b),
        Op::Square(a) => value(a).powi(2),
        Op::Sqrt(a) => value(a).sqrt(),
        Op::OfCount(n) => n as f64,
        Op::OfInt(n) => n as f64,
    })
}

#[test]
fn test_backtest_cell_stats_finalize() {
    let mut stats = BacktestCellStats {
        strategy: "test".to_string(),
        market: "BTC".to_string(),
        trade_count: 10,
        win_count: 6,
        loss_count: 4,
        gross_pnl: double(100.0),
        total_fees: double(20.0),
        net_pnl: double(80.0),
        ..Default::default()
    };
    stats.finalize(&calculate);
    assert!((value(stats.win_rate) - 60.0).abs() < 0.001);
    assert!((value(stats.fee_ratio) - 20.0).abs() < 0.001);
}

#[test]
fn test_backtest_cell_stats_finalize_no_trades() {
    let mut stats = BacktestCellStats::default();
    stats.finalize(&calculate);
    assert_eq!(value(stats.win_rate), 0.0);
    assert_eq!(value(stats.fee_ratio), 0.0);
}

#[test]
fn test_sharpe_pass_flag() {
    let mut stats = BacktestCellStats {
        strategy: "test".to_string(),
        market: "BTC".to_string(),
        sharpe_ratio: double(1.5),
        ..Default::default()
    };
    stats.finalize(&calculate);
    assert!(stats.sharpe_pass, "Sharpe 1.5 should pass ≥ 1.0 threshold");
    assert_eq!(stats.pass_flag(), "YES");

    stats.sharpe_ratio = double(0.5);
    stats.finalize(&calculate);
    assert!(
        !stats.sharpe_pass,
        "Sharpe 0.5 should NOT pass ≥ 1.0 threshold"
    );
    assert_eq!(stats.pass_flag(), "NO");

    stats.sharpe_ratio = double(1.0);
    stats.finalize(&calculate);
    assert!(stats.sharpe_pass, "Sharpe exactly 1.0 should pass");
}

#[test]
fn test_below_sharpe_threshold_tracking() {
    let result = BacktestResult {
        start_balance: double(1000.0),
        final_balance: double(1050.0),
        total_net_pnl: double(50.0),
        total_trades: 10,
        total_fees: double(5.0),
        cells: vec![
            BacktestCellStats {
                strategy: "momentum-scalper".to_string(),
                market: "BTC".to_string(),
                sharpe_ratio: double(0.5),
                sharpe_pass: false,
                ..Default::default()
            },
            BacktestCellStats {
                strategy: "blueprint-scalper".to_string(),
                market: "BTC".to_string(),
                sharpe_ratio: double(1.5),
                sharpe_pass: true,
                ..Default::default()
            },
        ],
        candle_stats: Vec::new(),
        below_sharpe_threshold: vec!["momentum-scalper:BTC".to_string()],
    };

    assert_eq!(result.below_sharpe_threshold.len(), 1);
    assert_eq!(result.below_sharpe_threshold[0], "momentum-scalper:BTC");
    assert_eq!(
        below_threshold(&result.cells),
        result.below_sharpe_threshold
    );
}

fn trade(net: f64, secs: u64) -> BtTrade {
    BtTrade {
        strategy: "test".to_string(),
        market: "BTC".to_string(),
        side: "LONG".to_string(),
        entry_price: double(100.0),
        exit_price: double(101.0),
        size_usd: double(100.0),
        gross_pnl: double(net + 0.75),
        entry_fee: double(0.5),
        exit_fee: double(0.5),
        borrow_fee: double(0.25),
        net_pnl: double(net),
        hold_secs: secs,
        exit_reason: "time_stop".to_string(),
        entry_time: String::new(),
        exit_time: String::new(),
    }
}

#[test]
fn trades_are_booked_and_ranked() {
    let mut stats = BacktestCellStats::default();
    for (net, secs) in [(2.0, 60), (-3.0, 120), (0.0, 30)] {
        let t = trade(net, secs);
        stats.book(&t, &calculate);
        stats.rank(&t, &calculate);
    }
    assert_eq!(stats.trade_count, 3);
    assert_eq!(stats.win_count, 2); // A trade without profit or loss counts as won.
    assert_eq!(stats.loss_count, 1);
    assert_eq!(value(stats.net_pnl), -1.0);
    assert_eq!(value(stats.gross_pnl), 1.25);
    assert_eq!(value(stats.total_fees), 3.75);
    assert_eq!(value(stats.entry_fees_total), 1.5);
    assert_eq!(value(stats.exit_fees_total), 1.5);
    assert_eq!(value(stats.borrow_fees_total), 0.75);
    assert_eq!(value(stats.best_trade_pnl), 2.0);
    assert_eq!(value(stats.worst_trade_pnl), -3.0);
    assert_eq!(value(stats.avg_hold_secs), 70.0);
}

#[test]
fn sharpe_is_annualized_over_bars() {
    let equity: Vec<f64> = vec![1000.0, 1010.0, 1005.0, 1020.0];
    let returns: Vec<f64> = equity.windows(2).map(|w| (w[1] - w[0]) / w[0]).collect();
    let mean = returns.iter().sum::<f64>() / returns.len() as f64;
    let variance = returns.iter().map(|r| (r - mean).powi(2)).sum::<f64>()
        / (returns.len() - 1) as f64;
    let expected = (mean / variance.sqrt()) * (365.25f64 * 86_400.0 / 300.0).sqrt();
    let curve: Vec<Double> = equity.iter().map(|&x| double(x)).collect();
    assert_eq!(value(sharpe(&curve, double(300.0), &calculate)), expected);
    assert!(expected > 1.0);
}

#[test]
fn sharpe_of_short_or_flat_curves_is_zero() {
    let of = |equity: Vec<f64>| {
        let curve: Vec<Double> = equity.iter().map(|&x| double(x)).collect();
        value(sharpe(&curve, double(60.0), &calculate))
    };
    assert_eq!(of(vec![]), 0.0);
    assert_eq!(of(vec![1000.0]), 0.0);
    assert_eq!(of(vec![1000.0, 1001.0]), 0.0);
    assert_eq!(of(vec![1000.0, 1000.0, 1000.0]), 0.0);
    // Samples that are not positive give no return.
    assert_eq!(of(vec![0.0, 10.0, -5.0, 3.0]), 0.0);
}

#[test]
fn next_to_no_gross_profit_has_no_fee_ratio() {
    let mut stats = BacktestCellStats {
        trade_count: 3,
        win_count: 1,
        gross_pnl: double(-0.0001),
        total_fees: double(20.0),
        ..Default::default()
    };
    stats.finalize(&calculate);
    assert_eq!(value(stats.fee_ratio), 0.0);
    assert_eq!(value(stats.win_rate), 1.0 / 3.0 * 100.0);
    // The size of a loss counts, not its sign.
    stats.gross_pnl = double(-40.0);
    stats.finalize(&calculate);
    assert_eq!(value(stats.fee_ratio), 50.0);
    let before = (stats.win_rate, stats.fee_ratio, stats.sharpe_pass);
    stats.finalize(&calculate);
    assert_eq!((stats.win_rate, stats.fee_ratio, stats.sharpe_pass), before);
}

#[test]
fn cells_are_summed_up() {
    let config = BacktestConfig {
        strategies: vec!["a".to_string()],
        markets: vec!["BTC".to_string(), "SOL".to_string()],
        start_time_ms: 0,
        end_time_ms: 0,
        interval: "5m".to_string(),
        starting_balance: double(1000.0),
        fee_rate: double(0.001),
        borrow_rate_hourly: double(0.0001),
        leverage: double(5.0),
    };
    let mut store = CandleStore::new();
    store.insert("BTC".to_string(), Vec::new());
    let cell = |market: &str, net: f64, pass: bool| BacktestCellStats {
        strategy: "a".to_string(),
        market: market.to_string(),
        trade_count: 4,
        net_pnl: double(net),
        total_fees: double(1.5),
        sharpe_pass: pass,
        ..Default::default()
    };
    let cells = vec![cell("BTC", 10.0, false), cell("SOL", -4.0, false), cell("ETH", 1.0, true)];
    let result = summarize(&config, &store, cells, &calculate);
    assert_eq!(value(result.start_balance), 1000.0);
    assert_eq!(value(result.total_net_pnl), 7.0);
    assert_eq!(value(result.final_balance), 1007.0);
    assert_eq!(value(result.total_fees), 4.5);
    assert_eq!(result.total_trades, 12);
    assert_eq!(result.cells.len(), 3);
    assert_eq!(result.candle_stats, vec![("BTC".to_string(), 0)]);
    assert_eq!(result.below_sharpe_threshold, vec!["a:BTC", "a:SOL"]);
}
