use backtest::number::{Double, HUNDRED, INFINITY_BITS, ONE, SIGN_BIT, THOUSAND, ZERO};
use backtest::position::SECS_PER_HOUR;
use backtest::stats::{DAYS_PER_YEAR, LEAST_GROSS_PNL, SECS_PER_DAY};
use backtest::strategy::StrategyParams;

fn double(value: f64) -> Double {
    Double {
        bits: value.to_bits(),
    }
}

#[test]
fn constants_are_the_numbers_they_name() {
    assert_eq!(f64::from_bits(ZERO), 0.0);
    assert_eq!(f64::from_bits(ONE), 1.0);
    assert_eq!(f64::from_bits(HUNDRED), 100.0);
    assert_eq!(f64::from_bits(THOUSAND), 1000.0);
    assert_eq!(f64::from_bits(INFINITY_BITS), f64::INFINITY);
    assert_eq!(SIGN_BIT, (-0.0f64).to_bits());
    assert_eq!(f64::from_bits(SECS_PER_HOUR), 3600.0);
    assert_eq!(f64::from_bits(SECS_PER_DAY), 86_400.0);
    assert_eq!(f64::from_bits(DAYS_PER_YEAR), 365.25);
    assert_eq!(f64::from_bits(LEAST_GROSS_PNL), 0.0001);
}

#[test]
fn comparisons_are_those_of_floating_point() {
    let values = [
        0.0,
        -0.0,
        1.0,
        -1.0,
        1.5,
        -1.5,
        100.0,
        0.0001,
        f64::MIN_POSITIVE,
        f64::MAX,
        f64::MIN,
        5e-324,
        -5e-324,
        f64::INFINITY,
        f64::NEG_INFINITY,
        f64::NAN,
        -f64::NAN,
    ];
    for &a in values.iter() {
        assert_eq!(double(a).is_nan(), a.is_nan());
        assert_eq!(double(a).abs().bits, a.abs().to_bits());
        for &b in values.iter() {
            let (x, y) = (double(a), double(b));
            assert_eq!(x.lt(y), a < b);
            assert_eq!(x.le(y), a <= b);
            assert_eq!(x.gt(y), a > b);
            assert_eq!(x.ge(y), a >= b);
            assert_eq!(x.equals(y), a == b);
        }
    }
}

#[test]
fn fallback_parameters() {
    let p = StrategyParams::or_fallback(None);
    assert_eq!(p.direction_bias, "neutral");
    assert_eq!(p.momentum_threshold_pct, double(0.15));
    assert_eq!(p.lookback_count, 60);
    assert_eq!(p.scale_in_clips, 1);
    assert_eq!(p.clip_size_usd, double(100.0));
    assert_eq!(p.max_hold_secs, 1800);
    assert_eq!(p.take_profit_pct, double(2.5));
    assert_eq!(p.stop_loss_pct, double(1.0));
    assert_eq!(p.trailing_stop_pct, double(0.8));
    assert_eq!(p.trailing_activation_pct, double(1.5));
    assert_eq!(p.cooldown_after_loss_secs, 300);
    assert!(p.use_native_tp_sl);

    let mut own = StrategyParams::or_fallback(None);
    own.lookback_count = 7;
    assert_eq!(StrategyParams::or_fallback(Some(own)).lookback_count, 7);
}
