use backtest::candle::{sort_and_dedup, CandlePages, HlCandle, RawCandle};
use backtest::engine::check_times;
use backtest::interval::IntervalError;
use backtest::number::Double;
use backtest::store::CandleStore;

fn read_decimal(text: &String) -> Option<Double> {
    text.parse::<f64>().ok().map(|x| Double { bits: x.to_bits() })
}

fn candle(t: i64, close: &str) -> HlCandle {
    HlCandle {
        t,
        t_close: t + 299_999,
        s: "BTC".to_string(),
        i: "5m".to_string(),
        o: "100.0".to_string(),
        c: close.to_string(),
        h: "101.0".to_string(),
        l: "99.0".to_string(),
        v: "1.0".to_string(),
        n: 1,
    }
}

#[test]
fn test_candle_deserialization() {
    let json = r#"{
            "t": 1778895720000,
            "T": 1778895779999,
            "s": "BTC",
            "i": "1m",
            "o": "78988.0",
            "c": "78993.0",
            "h": "79002.0",
            "l": "78988.0",
            "v": "10.93",
            "n": 149
        }"#;
    let fields: serde_json::Value = serde_json::from_str(json).unwrap();
    let text = |name: &str| fields[name].as_str().unwrap().to_string();
    let raw = RawCandle {
        t: fields["t"].as_i64().unwrap(),
        T: fields["T"].as_i64().unwrap(),
        s: text("s"),
        i: text("i"),
        o: text("o"),
        c: text("c"),
        h: text("h"),
        l: text("l"),
        v: text("v"),
        n: fields["n"].as_u64().unwrap(),
    };
    assert_eq!(raw.t, 1778895720000);
    assert_eq!(raw.s, "BTC");
    let candle: HlCandle = raw.into();
    assert_eq!(candle.t, 1778895720000);
    assert_eq!(candle.t_close, 1778895779999);
    assert_eq!(candle.i, "1m");
    assert_eq!(candle.o, "78988.0");
    assert_eq!(candle.c, "78993.0");
    assert_eq!(candle.h, "79002.0");
    assert_eq!(candle.l, "78988.0");
    assert_eq!(candle.v, "10.93");
    assert_eq!(candle.n, 149);
}

#[test]
fn candles_are_sorted_and_the_first_of_a_time_is_kept() {
    let tidy = sort_and_dedup(vec![
        candle(300, "a"),
        candle(100, "b"),
        candle(300, "c"),
        candle(200, "d"),
        candle(100, "e"),
    ]);
    let seen: Vec<(i64, String)> = tidy.into_iter().map(|c| (c.t, c.c)).collect();
    assert_eq!(
        seen,
        vec![
            (100, "b".to_string()),
            (200, "d".to_string()),
            (300, "a".to_string())
        ]
    );
    assert!(sort_and_dedup(vec![]).is_empty());
}

#[test]
fn sorting_agrees_with_the_standard_library() {
    let mut all = Vec::new();
    let mut x: i64 = 7;
    for k in 0..500 {
        x = (x * 1103 + 12345) % 211;
        all.push(candle(x, &format!("{}", k)));
    }
    let mut expected = all.clone();
    expected.sort_by_key(|c| c.t);
    expected.dedup_by_key(|c| c.t);
    let tidy = sort_and_dedup(all);
    assert_eq!(tidy.len(), expected.len());
    for (a, b) in tidy.iter().zip(expected.iter()) {
        assert_eq!((a.t, &a.c), (b.t, &b.c));
    }
}

#[test]
fn pages_are_asked_for_until_the_range_is_covered() {
    let mut pages = CandlePages::start("5m", 0, 1_200_000).unwrap();
    assert_eq!(pages.next_page(), Some((0, 1_200_000)));
    pages.take_page(vec![candle(0, "1"), candle(300_000, "2")]);
    assert_eq!(pages.next_page(), Some((600_000, 1_200_000)));
    pages.take_page(vec![candle(300_000, "again"), candle(600_000, "3")]);
    assert_eq!(pages.next_page(), Some((900_000, 1_200_000)));
    pages.take_page(vec![candle(900_000, "4")]);
    assert_eq!(pages.next_page(), None);
    let closes: Vec<String> = pages.finish().into_iter().map(|c| c.c).collect();
    assert_eq!(closes, vec!["1", "2", "3", "4"]);
}

#[test]
fn an_empty_page_ends_the_paging() {
    let mut pages = CandlePages::start("1m", 0, 1_000_000_000).unwrap();
    pages.take_page(vec![candle(60_000, "1")]);
    pages.take_page(vec![]);
    assert_eq!(pages.next_page(), None);
    assert_eq!(pages.finish().len(), 1);
    // Nothing to ask for in an empty range.
    assert_eq!(CandlePages::start("1m", 5, 5).unwrap().next_page(), None);
}

#[test]
fn paging_needs_an_interval() {
    assert!(matches!(
        CandlePages::start("x", 0, 1),
        Err(IntervalError::Invalid { .. })
    ));
    assert!(matches!(
        CandlePages::start("1y", 0, 1),
        Err(IntervalError::UnknownUnit { .. })
    ));
}

#[test]
fn prices_are_read_and_unreadable_ones_are_zero() {
    let bar = candle(7, "100.25").bar(&read_decimal);
    assert_eq!(bar.t, 7);
    assert_eq!(f64::from_bits(bar.open.bits), 100.0);
    assert_eq!(f64::from_bits(bar.high.bits), 101.0);
    assert_eq!(f64::from_bits(bar.low.bits), 99.0);
    assert_eq!(f64::from_bits(bar.close.bits), 100.25);
    assert!(bar.is_usable());
    let bar = candle(7, "n/a").bar(&read_decimal);
    assert_eq!(f64::from_bits(bar.close.bits), 0.0);
    assert!(!bar.is_usable());
    assert!(!candle(7, "-1").bar(&read_decimal).is_usable());
    // What is not a number is not zero or below.
    assert!(candle(7, "NaN").bar(&read_decimal).is_usable());
}

#[test]
fn the_last_candles_of_a_market_count() {
    let mut store = CandleStore::new();
    assert!(store.is_blank());
    store.insert("BTC".to_string(), vec![]);
    store.insert("SOL".to_string(), vec![]);
    assert!(store.is_blank());
    store.insert("BTC".to_string(), vec![candle(1, "1"), candle(2, "2")]);
    assert!(!store.is_blank());
    assert_eq!(store.get("BTC").unwrap().len(), 2);
    assert_eq!(store.get("SOL").unwrap().len(), 0);
    assert!(store.get("ETH").is_none());
    assert_eq!(
        store.counts(),
        vec![("BTC".to_string(), 2), ("SOL".to_string(), 0)]
    );
}

#[test]
fn times_beyond_the_integers_are_found() {
    assert!(check_times("5m", &vec![candle(0, "1"), candle(300_000, "1")]));
    assert!(check_times("no interval", &vec![]));
    assert!(check_times("5m", &vec![]));
    // The interval, the lockout after it, a candle's time with it, a span of candles.
    assert!(!check_times("9223372036854775807m", &vec![]));
    assert!(!check_times("30000000000000m", &vec![]));
    let mut late = candle(0, "1");
    late.t = i64::MAX;
    assert!(!check_times("5m", &vec![late]));
    let mut early = candle(0, "1");
    early.t = i64::MIN;
    assert!(!check_times("5m", &vec![early.clone(), candle(0, "1")]));
    assert!(check_times("5m", &vec![candle(0, "1"), early]));
}
