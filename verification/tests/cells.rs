use backtest::candle::{Bar, HlCandle};
use backtest::cell::{CellRun, Terms};
use backtest::config::BacktestConfig;
use backtest::engine::{BacktestEngine, EngineError};
use backtest::interval::IntervalError;
use backtest::number::{Double, Op};
use backtest::store::CandleStore;
use backtest::strategy::{ExitReason, PositionContext, Signal, Strategy, StrategyParams};

fn double(value: f64) -> Double {
    Double {
        bits: value.to_bits(),
    }
}

fn value(number: Double) -> f64 {
    f64::from_bits(number.bits)
}

fn calculate(op: Op) -> Double {
    double(match op {
        Op::Add(a, b) => value(a) + value(b),
        Op::Sub(a, b) => value(a) - value(b),
        Op::Mul(a, b) => value(a) * value(b),
        Op::Div(a, b) => value(a) / value(b),
        Op::Square(a) => value(a).powi(2),
        Op::Sqrt(a) => value(a).sqrt(),
        Op::OfCount(n) => n as f64,
        Op::OfInt(n) => n as f64,
    })
}

fn read_decimal(text: &String) -> Option<Double> {
    text.parse::<f64>().ok().map(double)
}

/// Follows the price change over the last few closes.
struct Momentum {
    closes: Vec<f64>,
}

impl Strategy for Momentum {
    type Snapshot = f64;

    fn parameters(&self) -> StrategyParams {
        StrategyParams::or_fallback(None)
    }

    fn push_price(mut self, price: Double, _time_ms: i64) -> Self {
        self.closes.push(value(price));
        self
    }

    fn snapshot(&self) -> f64 {
        let n = self.closes.len();
        if n < 6 {
            return 0.0;
        }
        (self.closes[n - 1] - self.closes[n - 6]) / self.closes[n - 6] * 100.0
    }

    fn detect_entry(&self, change: &f64) -> Signal {
        if *change > 0.15 {
            Signal::MomentumLong {
                strength: double(*change),
            }
        } else if *change < -0.15 {
            Signal::MomentumShort {
                strength: double(-*change),
            }
        } else {
            Signal::Hold
        }
    }

    fn detect_exit(&self, change: &f64, context: &PositionContext) -> Option<Signal> {
        if context.is_long && *change < 0.0 {
            return Some(Signal::ExitLong {
                reason: ExitReason::MomentumLost,
            });
        }
        if !context.is_long && *change > 0.0 {
            return Some(Signal::ExitShort {
                reason: ExitReason::MomentumLost,
            });
        }
        None
    }
}

fn momentum() -> Momentum {
    Momentum { closes: Vec::new() }
}

fn available() -> Vec<String> {
    ["momentum-scalper", "lp-consumption", "mean-reversion", "trend-follower"]
        .iter()
        .map(|s| s.to_string())
        .collect()
}

fn test_bt_config(strategies: Vec<&str>, markets: Vec<&str>, interval: &str) -> BacktestConfig {
    BacktestConfig {
        strategies: strategies.into_iter().map(String::from).collect(),
        markets: markets.into_iter().map(String::from).collect(),
        start_time_ms: 0,
        end_time_ms: 0,
        interval: interval.to_string(),
        starting_balance: double(1000.0),
        fee_rate: double(0.001),
        borrow_rate_hourly: double(0.0001),
        leverage: double(5.0),
    }
}

#[test]
fn test_run_cell_synthetic() {
    let bt_config = test_bt_config(vec!["momentum-scalper"], vec!["BTC"], "5m");
    let engine = BacktestEngine::new(&available(), bt_config).unwrap();

    // Create synthetic candles: gradually rising prices
    let mut candles = Vec::new();
    let base_time = 1778812800000i64;
    for i in 0..60 {
        let price = 100.0 + (i as f64 * 0.1); // Slowly rising
        candles.push(HlCandle {
            t: base_time + (i as i64 * 300000),
            t_close: base_time + ((i as i64 + 1) * 300000) - 1,
            s: "BTC".to_string(),
            i: "5m".to_string(),
            o: format!("{}", price - 0.05),
            c: format!("{}", price),
            h: format!("{}", price + 0.1),
            l: format!("{}", price - 0.1),
            v: "100.0".to_string(),
            n: 100,
        });
    }

    let (stats, trades) = engine
        .run_cell(
            "momentum-scalper",
            "BTC",
            &candles,
            momentum(),
            &read_decimal,
            &calculate,
        )
        .unwrap();
    assert_eq!(stats.strategy, "momentum-scalper");
    assert_eq!(stats.market, "BTC");
    assert_eq!(stats.total_candles, 60);
    assert!(stats.trade_count < 100); // Sanity check
    assert_eq!(stats.trade_count, trades.len());
    assert_eq!(stats.start_time, "2026-05-15T02:40:00+00:00");
    assert_eq!(stats.end_time, "2026-05-15T07:39:59.999+00:00");
    assert_eq!(stats.interval, "5m");
}

#[test]
fn test_run_cell_volatile_data() {
    let bt_config = test_bt_config(vec!["momentum-scalper"], vec!["SOL"], "1m");
    let engine = BacktestEngine::new(&available(), bt_config).unwrap();

    // Create volatile synthetic candles with a clear momentum spike
    let mut candles = Vec::new();
    let base_time = 1778812800000i64;
    let mut price: f64 = 90.0;
    for i in 0..120 {
        // Flat for 60 candles, then spike up
        if i >= 60 && i < 75 {
            price += 0.5; // Strong upward momentum
        } else if i >= 75 && i < 85 {
            price -= 0.3; // Reversal
        } else {
            price += (i as f64 * 0.001).sin() * 0.1; // Small noise
        }
        candles.push(HlCandle {
            t: base_time + (i as i64 * 60000),
            t_close: base_time + ((i as i64 + 1) * 60000) - 1,
            s: "SOL".to_string(),
            i: "1m".to_string(),
            o: format!("{:.3}", price - 0.05),
            c: format!("{:.3}", price),
            h: format!("{:.3}", price + 0.1),
            l: format!("{:.3}", price - 0.1),
            v: "1000.0".to_string(),
            n: 50,
        });
    }

    let (stats, trades) = engine
        .run_cell(
            "momentum-scalper",
            "SOL",
            &candles,
            momentum(),
            &read_decimal,
            &calculate,
        )
        .unwrap();
    assert_eq!(stats.total_candles, 120);
    assert_eq!(stats.strategy, "momentum-scalper");
    // The statistics are those of the trades.
    assert!(stats.trade_count > 0);
    assert_eq!(stats.trade_count, trades.len());
    assert_eq!(stats.win_count + stats.loss_count, trades.len());
    let net = trades.iter().fold(0.0, |sum, t| sum + value(t.net_pnl));
    assert_eq!(value(stats.net_pnl), net);
    let gross = trades.iter().fold(0.0, |sum, t| sum + value(t.gross_pnl));
    assert_eq!(value(stats.gross_pnl), gross);
}

#[test]
fn test_backtest_engine_new_validates_strategies() {
    let bt_config = BacktestConfig {
        strategies: vec!["nonexistent-strategy".to_string()],
        ..test_bt_config(vec!["nonexistent-strategy"], vec!["BTC"], "5m")
    };
    assert!(BacktestEngine::new(&available(), bt_config).is_err());
}

#[test]
fn test_backtest_cell_stats_strategy_source() {
    let bt_config = test_bt_config(vec!["momentum-scalper"], vec!["BTC"], "5m");
    let engine = BacktestEngine::new(&available(), bt_config).unwrap();

    let candles = vec![HlCandle {
        t: 1778812800000,
        t_close: 1778813099999,
        s: "BTC".to_string(),
        i: "5m".to_string(),
        o: "100.0".to_string(),
        c: "100.0".to_string(),
        h: "100.0".to_string(),
        l: "100.0".to_string(),
        v: "100.0".to_string(),
        n: 10,
    }];

    let (stats, _) = engine
        .run_cell(
            "momentum-scalper",
            "BTC",
            &candles,
            momentum(),
            &read_decimal,
            &calculate,
        )
        .unwrap();
    assert!(
        stats.strategy_source.is_empty(),
        "Built-in strategy should have empty source"
    );
}

#[test]
fn unknown_strategies_are_named() {
    let bt_config = test_bt_config(
        vec!["momentum-scalper", "first", "second"],
        vec!["BTC"],
        "5m",
    );
    let error = BacktestEngine::new(&available(), bt_config).unwrap_err();
    assert!(matches!(error, EngineError::UnknownStrategy { .. }));
    assert_eq!(
        error.message(),
        "Unknown strategy 'first'. Available: momentum-scalper, lp-consumption, \
         mean-reversion, trend-follower"
    );
    let bt_config = test_bt_config(vec![], vec![], "5m");
    assert!(BacktestEngine::new(&vec![], bt_config).is_ok());
}

// A strategy that answers from a script, one entry for each price it is given.
struct Scripted {
    params: StrategyParams,
    entries: Vec<Signal>,
    exits: Vec<Option<Signal>>,
    seen: usize,
}

impl Strategy for Scripted {
    type Snapshot = usize;

    fn parameters(&self) -> StrategyParams {
        self.params.clone()
    }

    fn push_price(mut self, _price: Double, _time_ms: i64) -> Self {
        self.seen += 1;
        self
    }

    fn snapshot(&self) -> usize {
        self.seen - 1
    }

    fn detect_entry(&self, at: &usize) -> Signal {
        self.entries[*at]
    }

    fn detect_exit(&self, at: &usize, _context: &PositionContext) -> Option<Signal> {
        self.exits[*at]
    }
}

const LONG: Signal = Signal::MomentumLong {
    strength: Double { bits: 0 },
};
const SHORT: Signal = Signal::MomentumShort {
    strength: Double { bits: 0 },
};

fn scripted(bias: &str, entries: Vec<Signal>, exits: Vec<Option<Signal>>) -> Scripted {
    let mut params = StrategyParams::or_fallback(None);
    params.direction_bias = bias.to_string();
    Scripted {
        params,
        entries,
        exits,
        seen: 0,
    }
}

fn candle(k: i64, o: f64, h: f64, l: f64, c: f64) -> HlCandle {
    HlCandle {
        t: 1_000_000 + k * 60_000,
        t_close: 1_000_000 + (k + 1) * 60_000 - 1,
        s: "BTC".to_string(),
        i: "1m".to_string(),
        o: format!("{}", o),
        c: format!("{}", c),
        h: format!("{}", h),
        l: format!("{}", l),
        v: "1".to_string(),
        n: 1,
    }
}

fn flat(k: i64) -> HlCandle {
    candle(k, 100.0, 100.5, 99.5, 100.0)
}

fn engine_1m() -> BacktestEngine {
    BacktestEngine::new(
        &available(),
        test_bt_config(vec!["momentum-scalper"], vec!["BTC"], "1m"),
    )
    .unwrap()
}

#[test]
fn entries_fill_at_the_next_open_and_exits_at_the_level() {
    let candles = vec![
        flat(0),
        candle(1, 102.0, 102.5, 101.5, 102.2),
        candle(2, 102.2, 110.0, 102.0, 103.0),
        flat(3),
    ];
    let strategy = scripted("neutral", vec![LONG; 4], vec![None; 4]);
    let (stats, trades) = engine_1m()
        .run_cell(
            "momentum-scalper",
            "BTC",
            &candles,
            strategy,
            &read_decimal,
            &calculate,
        )
        .unwrap();
    assert_eq!(trades.len(), 1);
    let t = &trades[0];
    assert_eq!(t.side, "LONG");
    assert_eq!(value(t.entry_price), 102.0);
    assert_eq!(value(t.exit_price), 102.0 * (1.0 + 2.5 / 100.0));
    assert_eq!(t.exit_reason, "take_profit");
    assert_eq!(t.hold_secs, 60);
    assert_eq!(t.entry_time, "1970-01-01T00:17:40+00:00");
    assert_eq!(t.exit_time, "1970-01-01T00:18:40+00:00");
    // Fees are charged on the clip times the leverage.
    assert_eq!(value(t.entry_fee), 100.0 * 5.0 * 0.001);
    assert_eq!(value(t.exit_fee), 100.0 * 5.0 * 0.001);
    let hourly = 100.0 * 0.0001 * (60.0 / 3600.0);
    assert_eq!(value(t.borrow_fee), 0.0 + hourly + hourly);
    let gross = 100.0 * (102.0 * (1.0 + 2.5 / 100.0) - 102.0) / 102.0;
    assert_eq!(value(t.gross_pnl), gross);
    assert_eq!(value(t.net_pnl), gross - 0.5 - (hourly + hourly));
    assert_eq!(stats.win_count, 1);
    assert_eq!(value(stats.best_trade_pnl), value(t.net_pnl));
    assert_eq!(value(stats.worst_trade_pnl), 0.0);
    assert_eq!(value(stats.avg_hold_secs), 60.0);
    assert_eq!(
        value(stats.total_fees),
        0.0 + (0.5 + 0.5 + (hourly + hourly))
    );
}

#[test]
fn strategy_exits_fill_at_the_close_and_only_for_their_side() {
    let long_exit = Some(Signal::ExitLong {
        reason: ExitReason::ReversalDetected,
    });
    let short_exit = Some(Signal::ExitShort {
        reason: ExitReason::TrailingStop,
    });
    let candles = vec![flat(0), flat(1), candle(2, 100.0, 100.4, 99.6, 99.8), flat(3)];
    let strategy = scripted(
        "neutral",
        vec![SHORT; 4],
        vec![None, long_exit, short_exit, None],
    );
    let (stats, trades) = engine_1m()
        .run_cell(
            "momentum-scalper",
            "BTC",
            &candles,
            strategy,
            &read_decimal,
            &calculate,
        )
        .unwrap();
    assert_eq!(trades.len(), 1);
    assert_eq!(trades[0].side, "SHORT");
    assert_eq!(trades[0].exit_reason, "trailing_stop");
    assert_eq!(value(trades[0].exit_price), 99.8);
    assert_eq!(
        value(trades[0].gross_pnl),
        100.0 * (100.0 - 99.8) / 100.0
    );
    assert_eq!(stats.loss_count, 1);
    assert!(value(stats.max_drawdown_usd) > 0.0);
}

#[test]
fn an_exit_locks_out_entries_for_six_candles() {
    let exit = Some(Signal::ExitLong {
        reason: ExitReason::TimeStop,
    });
    let candles: Vec<HlCandle> = (0..20).map(flat).collect();
    let strategy = scripted("neutral", vec![LONG; 20], vec![exit; 20]);
    let (_, trades) = engine_1m()
        .run_cell(
            "momentum-scalper",
            "BTC",
            &candles,
            strategy,
            &read_decimal,
            &calculate,
        )
        .unwrap();
    // Queued on candle 0, filled and closed on 1; queued again on 7, and on 14.
    assert_eq!(trades.len(), 3);
    assert_eq!(trades[0].entry_time, "1970-01-01T00:17:40+00:00");
    assert_eq!(trades[1].entry_time, "1970-01-01T00:24:40+00:00");
    assert_eq!(trades[2].entry_time, "1970-01-01T00:31:40+00:00");
    assert_eq!(trades[2].exit_reason, "time_stop");
}

#[test]
fn the_bias_keeps_a_strategy_to_one_side() {
    for (bias, sides) in [
        ("SHORT", vec!["SHORT"]),
        ("Long", vec!["LONG"]),
        ("sHoRt", vec!["SHORT"]),
        ("neutral", vec!["LONG", "SHORT"]),
        ("shorts", vec!["LONG", "SHORT"]),
    ] {
        let mut seen = Vec::new();
        for signal in [LONG, SHORT] {
            let candles: Vec<HlCandle> = (0..4).map(flat).collect();
            let strategy = scripted(bias, vec![signal; 4], vec![None; 4]);
            let (_, trades) = engine_1m()
                .run_cell(
                    "momentum-scalper",
                    "BTC",
                    &candles,
                    strategy,
                    &read_decimal,
                    &calculate,
                )
                .unwrap();
            seen.extend(trades.into_iter().map(|t| t.side));
        }
        assert_eq!(seen, sides);
    }
}

#[test]
fn open_positions_are_closed_at_the_end_of_the_data() {
    let mut broken = flat(3);
    broken.c = "n/a".to_string();
    let candles = vec![
        flat(0),
        flat(1),
        candle(2, 100.0, 100.9, 99.9, 100.8),
        broken,
    ];
    let strategy = scripted("neutral", vec![LONG; 4], vec![None; 4]);
    let (stats, trades) = engine_1m()
        .run_cell(
            "momentum-scalper",
            "BTC",
            &candles,
            strategy,
            &read_decimal,
            &calculate,
        )
        .unwrap();
    assert_eq!(trades.len(), 1);
    let t = &trades[0];
    assert_eq!(t.exit_reason, "end_of_data");
    // At the last close that could be read, and at the time of the last candle.
    assert_eq!(value(t.exit_price), 100.8);
    assert_eq!(t.hold_secs, 120);
    assert_eq!(t.exit_time, "1970-01-01T00:19:40+00:00");
    assert_eq!(
        value(t.gross_pnl),
        100.0 * ((100.8 - 100.0) / 100.0 * 100.0) / 100.0
    );
    let hourly = 100.0 * 0.0001 * (60.0 / 3600.0);
    assert_eq!(value(t.borrow_fee), 0.0 + hourly + hourly);
    // The last trade counts like any other.
    assert_eq!(stats.trade_count, 1);
    assert_eq!(stats.win_count, 1);
    assert_eq!(value(stats.win_rate), 100.0);
    assert!(value(t.net_pnl) > 0.0);
    assert_eq!(value(stats.best_trade_pnl), value(t.net_pnl));
    assert_eq!(value(stats.worst_trade_pnl), 0.0);
    assert_eq!(value(stats.avg_hold_secs), 120.0);
    assert_eq!(stats.total_candles, 4);
}

#[test]
fn a_loss_at_the_end_of_the_data_is_the_worst_trade() {
    let candles = vec![flat(0), candle(1, 100.0, 100.5, 99.2, 99.5)];
    let strategy = scripted("neutral", vec![LONG; 2], vec![None; 2]);
    let (stats, trades) = engine_1m()
        .run_cell(
            "momentum-scalper",
            "BTC",
            &candles,
            strategy,
            &read_decimal,
            &calculate,
        )
        .unwrap();
    assert_eq!(trades.len(), 1);
    assert_eq!(trades[0].exit_reason, "end_of_data");
    assert!(value(trades[0].net_pnl) < 0.0);
    assert_eq!(value(stats.worst_trade_pnl), value(trades[0].net_pnl));
    assert_eq!(value(stats.best_trade_pnl), 0.0);
}

#[test]
fn best_worst_and_mean_hold_are_over_all_trades() {
    // A trade of two minutes that the strategy closes, then one that is left open.
    let exit = Some(Signal::ExitLong {
        reason: ExitReason::TimeStop,
    });
    let mut candles: Vec<HlCandle> = (0..14).map(flat).collect();
    candles[3] = candle(3, 100.0, 102.0, 99.5, 101.5);
    candles[13] = candle(13, 100.0, 100.4, 99.2, 99.3);
    let mut exits = vec![None; 14];
    exits[3] = exit;
    let strategy = scripted("neutral", vec![LONG; 14], exits);
    let (stats, trades) = engine_1m()
        .run_cell(
            "momentum-scalper",
            "BTC",
            &candles,
            strategy,
            &read_decimal,
            &calculate,
        )
        .unwrap();
    assert_eq!(trades.len(), 2);
    assert_eq!(trades[0].hold_secs, 120);
    assert_eq!(trades[1].exit_reason, "end_of_data");
    assert_eq!(trades[1].hold_secs, 180);
    assert_eq!(value(stats.best_trade_pnl), value(trades[0].net_pnl));
    assert_eq!(value(stats.worst_trade_pnl), value(trades[1].net_pnl));
    assert!(value(trades[0].net_pnl) > 0.0 && value(trades[1].net_pnl) < 0.0);
    assert_eq!(value(stats.avg_hold_secs), 150.0);
}

#[test]
fn equity_is_marked_to_market_while_a_position_is_open() {
    let params = StrategyParams::or_fallback(None);
    let config = test_bt_config(vec![], vec![], "1m");
    let terms = Terms::new(&params, &config, 60_000, &calculate);
    assert_eq!(terms.lockout_ms, 360_000);
    assert_eq!(value(terms.interval_secs), 60.0);
    assert_eq!(value(terms.fee_factor), 5.0);
    let mut run = CellRun::start(
        "momentum-scalper",
        "BTC",
        "1m",
        &vec![],
        terms,
        double(1000.0),
    );
    let bar = |t: i64, open: f64, close: f64| Bar {
        t,
        open: double(open),
        high: double(close + 1.0),
        low: double(close - 1.0),
        close: double(close),
    };
    run.queue(LONG);
    let first = bar(0, 100.0, 99.5);
    run.begin_bar(first, &calculate);
    assert!(run.pending.is_none());
    let p = run.position.clone().unwrap();
    assert_eq!(value(p.entry_price), 100.0);
    assert_eq!(value(p.current_price), 99.5);
    assert_eq!(p.symbol, "BTC");
    let context = run.context(first).unwrap();
    assert_eq!(context.hold_secs, 0);
    assert_eq!(context.max_hold_secs, 1800);
    assert_eq!(value(context.peak_price), 100.0);
    assert_eq!(value(context.take_profit_pct), 2.5);
    assert_eq!(value(context.stop_loss_pct), 1.0);
    assert_eq!(value(context.trailing_stop_pct), 0.8);
    assert_eq!(value(context.trailing_activation_pct), 1.5);
    run.end_bar(first, None, &calculate);
    let borrow = 100.0 * 0.0001 * (60.0 / 3600.0);
    let unrealized = 100.0 * ((99.5 - 100.0) / 100.0 * 100.0) / 100.0 - borrow;
    assert_eq!(value(run.equity[1]), 1000.0 + unrealized);
    assert_eq!(
        value(run.stats.max_drawdown_usd),
        1000.0 - (1000.0 + unrealized)
    );
    assert!(!run.wants_entry(first));
    // A level goes before what the strategy signals.
    let second = bar(60_000, 99.0, 98.0);
    run.begin_bar(second, &calculate);
    let level = run.level(second, &calculate);
    let exit = run.exit_with(
        second,
        level,
        Some(Signal::ExitLong {
            reason: ExitReason::TimeStop,
        }),
    );
    assert_eq!(exit, Some((ExitReason::StopLoss, double(99.0))));
    run.end_bar(second, exit, &calculate);
    assert!(run.position.is_none());
    assert_eq!(run.cooldown_until_ms, 420_000);
    assert!(!run.wants_entry(bar(419_999, 99.0, 98.0)));
    assert!(run.wants_entry(bar(420_000, 99.0, 98.0)));
    run.finish(60_000, &calculate);
    assert_eq!(run.trades.len(), 1);
    assert_eq!(value(run.balance), 1000.0 + value(run.trades[0].net_pnl));
}

#[test]
fn leverage_below_one_charges_the_whole_clip() {
    let params = StrategyParams::or_fallback(None);
    for (leverage, factor) in [(0.5, 1.0), (1.0, 1.0), (2.0, 2.0), (f64::NAN, 1.0)] {
        let mut config = test_bt_config(vec![], vec![], "1m");
        config.leverage = double(leverage);
        let terms = Terms::new(&params, &config, 60_000, &calculate);
        assert_eq!(value(terms.fee_factor), factor);
    }
}

#[test]
fn a_cell_needs_an_interval() {
    let mut config = test_bt_config(vec!["momentum-scalper"], vec!["BTC"], "1q");
    let engine = BacktestEngine::new(&available(), config.clone()).unwrap();
    let run = |engine: &BacktestEngine| {
        engine.run_cell(
            "momentum-scalper",
            "BTC",
            &vec![flat(0)],
            momentum(),
            &read_decimal,
            &calculate,
        )
    };
    assert!(matches!(
        run(&engine),
        Err(IntervalError::UnknownUnit { .. })
    ));
    config.interval = "m".to_string();
    let engine = BacktestEngine::new(&available(), config).unwrap();
    assert!(matches!(run(&engine), Err(IntervalError::Invalid { .. })));
}

#[test]
fn a_backtest_runs_each_strategy_on_each_market_with_candles() {
    let config = test_bt_config(
        vec!["trend-follower", "momentum-scalper"],
        vec!["BTC", "ETH", "SOL"],
        "1m",
    );
    let engine = BacktestEngine::new(&available(), config).unwrap();
    let mut store = CandleStore::new();
    store.insert("BTC".to_string(), (0..4).map(flat).collect());
    store.insert("ETH".to_string(), vec![]);
    store.insert("SOL".to_string(), (0..3).map(flat).collect());
    let plan: Vec<(String, String)> = engine
        .planned_cells(&store)
        .into_iter()
        .map(|c| (c.strategy, c.market))
        .collect();
    let names: Vec<(&str, &str)> = plan.iter().map(|(s, m)| (s.as_str(), m.as_str())).collect();
    assert_eq!(
        names,
        vec![
            ("trend-follower", "BTC"),
            ("trend-follower", "SOL"),
            ("momentum-scalper", "BTC"),
            ("momentum-scalper", "SOL"),
        ]
    );
    let strategies: Vec<Scripted> = plan
        .iter()
        .map(|_| scripted("neutral", vec![LONG; 4], vec![None; 4]))
        .collect();
    let (result, trades) = engine
        .run(&store, strategies, &read_decimal, &calculate)
        .unwrap();
    assert_eq!(result.cells.len(), 4);
    for (cell, name) in result.cells.iter().zip(names.iter()) {
        assert_eq!((cell.strategy.as_str(), cell.market.as_str()), *name);
        assert_eq!(cell.trade_count, 1);
    }
    assert_eq!(result.cells[0].total_candles, 4);
    assert_eq!(result.cells[1].total_candles, 3);
    assert_eq!(result.total_trades, 4);
    assert_eq!(trades.len(), 4);
    assert_eq!(trades[1].market, "SOL");
    assert_eq!(trades[2].strategy, "momentum-scalper");
    let net = result.cells.iter().fold(0.0, |sum, c| sum + value(c.net_pnl));
    assert_eq!(value(result.total_net_pnl), net);
    assert_eq!(value(result.final_balance), 1000.0 + net);
    assert_eq!(result.below_sharpe_threshold.len(), 4);
    assert_eq!(result.below_sharpe_threshold[1], "trend-follower:SOL");
    assert_eq!(
        result.candle_stats,
        vec![
            ("BTC".to_string(), 4),
            ("ETH".to_string(), 0),
            ("SOL".to_string(), 3)
        ]
    );
}

#[test]
fn a_backtest_needs_candles() {
    let engine = engine_1m();
    let mut store = CandleStore::new();
    let none: Vec<Momentum> = Vec::new();
    let error = engine
        .run(&store, none, &read_decimal, &calculate)
        .unwrap_err();
    assert!(matches!(error, EngineError::NoCandles));
    store.insert("BTC".to_string(), vec![]);
    let none: Vec<Momentum> = Vec::new();
    let error = engine
        .run(&store, none, &read_decimal, &calculate)
        .unwrap_err();
    assert_eq!(
        error.message(),
        "No candle data fetched for any market. Check time range and symbols."
    );

    let config = test_bt_config(vec!["momentum-scalper"], vec!["BTC"], "1q");
    let engine = BacktestEngine::new(&available(), config).unwrap();
    store.insert("BTC".to_string(), vec![flat(0)]);
    let error = engine
        .run(&store, vec![momentum()], &read_decimal, &calculate)
        .unwrap_err();
    assert!(matches!(error, EngineError::Interval { .. }));
    assert_eq!(
        error.message(),
        "Unknown interval unit: q (use m, h, d, w)"
    );
}

/// Takes a run through bars on which the strategy answers nothing.
fn pass(run: &mut CellRun, bars: &[Bar]) {
    for bar in bars {
        if !bar.is_usable() {
            continue;
        }
        run.begin_bar(*bar, &calculate);
        let level = run.level(*bar, &calculate);
        let exit = run.exit_with(*bar, level, None);
        run.end_bar(*bar, exit, &calculate);
    }
}

#[test]
fn equity_has_one_sample_per_usable_bar_below_its_peak() {
    let closes = [100.2, 100.4, 0.0, 99.8, 99.6, 100.1, -1.0, 101.0];
    let bars: Vec<Bar> = closes
        .iter()
        .enumerate()
        .map(|(k, close)| Bar {
            t: k as i64 * 60_000,
            open: double(100.0),
            high: double(101.5),
            low: double(99.5),
            close: double(*close),
        })
        .collect();
    let start = || {
        let params = StrategyParams::or_fallback(None);
        let config = test_bt_config(vec![], vec![], "1m");
        let terms = Terms::new(&params, &config, 60_000, &calculate);
        let mut run = CellRun::start("s", "BTC", "1m", &vec![], terms, double(1000.0));
        run.queue(LONG);
        run
    };
    let mut run = start();
    pass(&mut run, &bars);
    assert_eq!(run.equity.len(), 7);
    assert!(run.position.is_some());
    let mut peak = 1000.0;
    let mut drawdown = 0.0;
    for sample in &run.equity {
        assert!(sample.le(run.max_equity));
        if value(*sample) > peak {
            peak = value(*sample);
        }
        if peak - value(*sample) > drawdown {
            drawdown = peak - value(*sample);
        }
    }
    assert_eq!(value(run.max_equity), peak);
    assert_eq!(value(run.stats.max_drawdown_usd), drawdown);
    assert!(drawdown > 0.0);
    // The first bars and then the rest come to the same.
    let mut parts = start();
    pass(&mut parts, &bars[..3]);
    let middle = parts.stats.max_drawdown_usd;
    pass(&mut parts, &bars[3..]);
    assert_eq!(parts.equity, run.equity);
    assert!(middle.le(parts.stats.max_drawdown_usd));
    // The end adds a trade, but no sample.
    run.finish(420_000, &calculate);
    assert_eq!(run.equity, parts.equity);
    assert_eq!(run.trades.len(), 1);
    assert_eq!(value(run.balance), 1000.0);
}
