use backtest::exits::intra_candle_tp_sl_hit;
use backtest::number::{Double, Op};
use backtest::position::BtPosition;
use backtest::strategy::ExitReason;

fn double(value: f64) -> Double {
    Double {
        bits: value.to_bits(),
    }
}

fn value(number: Double) -> f64 {
    f64::from_bits(number.bits)
}

fn calculate(op: Op) -> Double {
    double(match op {
        Op::Add(a, b) => value(a) + value(b),
        Op::Sub(a, b) => value(a) - value(b),
        Op::Mul(a, b) => value(a) * value(b),
        Op::Div(a, b) => value(a) / value(b),
        Op::Square(a) => value(a).powi(2),
        Op::Sqrt(a) => value(a).sqrt(),
        Op::OfCount(n) => n as f64,
        Op::OfInt(n) => n as f64,
    })
}

#[test]
fn test_bt_position_long_pnl() {
    let pos = BtPosition {
        symbol: "BTC".to_string(),
        is_long: true,
        entry_price: double(100.0),
        current_price: double(105.0),
        peak_price: double(105.0),
        size_usd: double(1000.0),
        leverage: double(5.0),
        open_time_ms: 0,
        entry_fee: double(1.0),
        accrued_borrow_fee: double(0.5),
        borrow_rate_hourly: double(0.0001),
    };
    assert!((value(pos.unrealized_pnl_pct(&calculate)) - 5.0).abs() < 0.001);
    assert!((value(pos.unrealized_pnl_usd(&calculate)) - 50.0).abs() < 0.001);
}

#[test]
fn test_bt_position_short_pnl() {
    let pos = BtPosition {
        symbol: "BTC".to_string(),
        is_long: false,
        entry_price: double(100.0),
        current_price: double(95.0),
        peak_price: double(95.0),
        size_usd: double(1000.0),
        leverage: double(5.0),
        open_time_ms: 0,
        entry_fee: double(1.0),
        accrued_borrow_fee: double(0.5),
        borrow_rate_hourly: double(0.0001),
    };
    assert!((value(pos.unrealized_pnl_pct(&calculate)) - 5.0).abs() < 0.001);
    assert!((value(pos.unrealized_pnl_usd(&calculate)) - 50.0).abs() < 0.001);
}

#[test]
fn test_bt_position_update_price_long() {
    let mut pos = BtPosition {
        symbol: "BTC".to_string(),
        is_long: true,
        entry_price: double(100.0),
        current_price: double(100.0),
        peak_price: double(100.0),
        size_usd: double(1000.0),
        leverage: double(5.0),
        open_time_ms: 0,
        entry_fee: double(1.0),
        accrued_borrow_fee: double(0.0),
        borrow_rate_hourly: double(0.0001),
    };
    pos.update_price(double(110.0), double(300.0), &calculate); // 5min candle
    assert_eq!(value(pos.peak_price), 110.0);
    assert!(value(pos.accrued_borrow_fee) > 0.0);
}

#[test]
fn test_bt_position_update_price_short() {
    let mut pos = BtPosition {
        symbol: "BTC".to_string(),
        is_long: false,
        entry_price: double(100.0),
        current_price: double(100.0),
        peak_price: double(100.0),
        size_usd: double(1000.0),
        leverage: double(5.0),
        open_time_ms: 0,
        entry_fee: double(1.0),
        accrued_borrow_fee: double(0.0),
        borrow_rate_hourly: double(0.0001),
    };
    pos.update_price(double(90.0), double(300.0), &calculate);
    assert_eq!(value(pos.peak_price), 90.0); // Tracks lowest for shorts
}

#[test]
fn test_bt_position_hold_secs() {
    let pos = BtPosition {
        symbol: "BTC".to_string(),
        is_long: true,
        entry_price: double(100.0),
        current_price: double(100.0),
        peak_price: double(100.0),
        size_usd: double(1000.0),
        leverage: double(5.0),
        open_time_ms: 1000000,
        entry_fee: double(1.0),
        accrued_borrow_fee: double(0.0),
        borrow_rate_hourly: double(0.0001),
    };
    assert_eq!(pos.hold_secs(1060000), 60); // 60 seconds
}

#[test]
fn test_bt_position_total_fees() {
    let pos = BtPosition {
        symbol: "BTC".to_string(),
        is_long: true,
        entry_price: double(100.0),
        current_price: double(100.0),
        peak_price: double(100.0),
        size_usd: double(1000.0),
        leverage: double(5.0),
        open_time_ms: 0,
        entry_fee: double(1.0),
        accrued_borrow_fee: double(0.5),
        borrow_rate_hourly: double(0.0001),
    };
    assert!((value(pos.total_fees(&calculate)) - 1.5).abs() < 0.001);
}

fn position(is_long: bool, entry: f64) -> BtPosition {
    BtPosition {
        symbol: "SOL".to_string(),
        is_long,
        entry_price: double(entry),
        current_price: double(entry),
        peak_price: double(entry),
        size_usd: double(250.0),
        leverage: double(3.0),
        open_time_ms: 5_000,
        entry_fee: double(0.75),
        accrued_borrow_fee: double(0.0),
        borrow_rate_hourly: double(0.0002),
    }
}

#[test]
fn position_figures_are_exact() {
    let mut pos = position(true, 80.0);
    pos.update_price(double(81.0), double(900.0), &calculate);
    assert_eq!(value(pos.accrued_borrow_fee), 250.0 * 0.0002 * (900.0 / 3600.0));
    assert_eq!(
        value(pos.unrealized_pnl_pct(&calculate)),
        (81.0 - 80.0) / 80.0 * 100.0
    );
    assert_eq!(
        value(pos.unrealized_pnl_usd(&calculate)),
        250.0 * ((81.0 - 80.0) / 80.0 * 100.0) / 100.0
    );
    // The best price of a long position does not fall.
    pos.update_price(double(79.0), double(900.0), &calculate);
    assert_eq!(value(pos.peak_price), 81.0);
    assert_eq!(value(pos.current_price), 79.0);
    assert_eq!(pos.symbol, "SOL");
    assert_eq!(value(pos.entry_price), 80.0);
}

#[test]
fn position_edge_cases() {
    // No entry price: no profit.
    assert_eq!(
        value(position(true, 0.0).unrealized_pnl_pct(&calculate)),
        0.0
    );
    // A time before the opening counts as none; parts of a second are dropped.
    let pos = position(false, 10.0);
    assert_eq!(pos.hold_secs(0), 0);
    assert_eq!(pos.hold_secs(5_000), 0);
    assert_eq!(pos.hold_secs(6_999), 1);
    // A short position without a best price takes the first that comes.
    let mut pos = position(false, 10.0);
    pos.peak_price = double(0.0);
    pos.update_price(double(12.0), double(60.0), &calculate);
    assert_eq!(value(pos.peak_price), 12.0);
    pos.update_price(double(13.0), double(60.0), &calculate);
    assert_eq!(value(pos.peak_price), 12.0);
}

#[test]
fn levels_are_hit_by_the_range_of_a_candle() {
    let hit = |is_long: bool, low: f64, high: f64| {
        intra_candle_tp_sl_hit(
            is_long,
            double(100.0),
            double(2.5),
            double(1.0),
            double(low),
            double(high),
            &calculate,
        )
    };
    assert!(hit(true, 99.5, 101.0).is_none());
    let (reason, price) = hit(true, 99.5, 103.0).unwrap();
    assert_eq!(reason, ExitReason::TakeProfit);
    assert_eq!(value(price), 100.0 * (1.0 + 2.5 / 100.0));
    let (reason, price) = hit(true, 98.0, 101.0).unwrap();
    assert_eq!(reason, ExitReason::StopLoss);
    assert_eq!(value(price), 100.0 * (1.0 - 1.0 / 100.0));
    // Both levels within one candle: the stop loss fills.
    let (reason, price) = hit(true, 98.0, 103.0).unwrap();
    assert_eq!(reason, ExitReason::StopLoss);
    assert_eq!(value(price), 99.0);

    let (reason, price) = hit(false, 97.0, 100.5).unwrap();
    assert_eq!(reason, ExitReason::TakeProfit);
    assert_eq!(value(price), 100.0 * (1.0 - 2.5 / 100.0));
    let (reason, price) = hit(false, 97.0, 101.5).unwrap();
    assert_eq!(reason, ExitReason::StopLoss);
    assert_eq!(value(price), 100.0 * (1.0 + 1.0 / 100.0));
}

#[test]
fn levels_need_a_percentage_and_prices() {
    let hit = |entry: f64, tp: f64, sl: f64, low: f64, high: f64| {
        intra_candle_tp_sl_hit(
            true,
            double(entry),
            double(tp),
            double(sl),
            double(low),
            double(high),
            &calculate,
        )
    };
    assert!(hit(100.0, 0.0, 0.0, 1.0, 1000.0).is_none());
    assert!(hit(100.0, -1.0, -1.0, 1.0, 1000.0).is_none());
    assert!(hit(0.0, 1.0, 1.0, 1.0, 1000.0).is_none());
    assert!(hit(100.0, 1.0, 1.0, 0.0, 1000.0).is_none());
    assert!(hit(100.0, 1.0, 1.0, 50.0, 0.0).is_none());
    assert!(hit(100.0, 1.0, 0.0, 1.0, 1000.0).is_some());
    assert!(hit(100.0, f64::NAN, f64::NAN, 1.0, 1000.0).is_none());
}

#[test]
fn exit_reasons_have_their_words() {
    assert_eq!(ExitReason::StopLoss.label(), "stop_loss");
    assert_eq!(ExitReason::TakeProfit.label(), "take_profit");
    assert_eq!(ExitReason::TrailingStop.label(), "trailing_stop");
    assert_eq!(ExitReason::TimeStop.label(), "time_stop");
    assert_eq!(ExitReason::MomentumLost.label(), "momentum_lost");
    assert_eq!(ExitReason::ReversalDetected.label(), "reversal");
}

#[test]
fn the_two_sides_mirror_each_other() {
    for (entry, now) in [(100.0, 110.0), (100.0, 93.7), (0.3, 0.1), (50.0, 50.0), (0.0, 7.0)] {
        let mut p = position(true, entry);
        p.current_price = double(now);
        let long = value(p.unrealized_pnl_pct(&calculate));
        p.is_long = false;
        let short = value(p.unrealized_pnl_pct(&calculate));
        assert_eq!(long, -short);
        if entry == 0.0 || entry == now {
            assert_eq!(long, 0.0);
        }
    }
}
