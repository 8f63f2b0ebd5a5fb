use backtest::clock::{stamp, text_or_empty};
use backtest::interval::{parse_interval_ms, split_interval, IntervalError};
use backtest::source::strategy_source_path;
use backtest::text::{after_prefix, join, temporary_path};

#[test]
fn test_parse_interval_ms() {
    assert_eq!(parse_interval_ms("1m").unwrap(), 60_000);
    assert_eq!(parse_interval_ms("5m").unwrap(), 300_000);
    assert_eq!(parse_interval_ms("15m").unwrap(), 900_000);
    assert_eq!(parse_interval_ms("1h").unwrap(), 3_600_000);
    assert_eq!(parse_interval_ms("4h").unwrap(), 14_400_000);
    assert_eq!(parse_interval_ms("1d").unwrap(), 86_400_000);
    assert_eq!(parse_interval_ms("1w").unwrap(), 604_800_000);
}

#[test]
fn test_parse_interval_invalid() {
    assert!(parse_interval_ms("abc").is_err());
    assert!(parse_interval_ms("1x").is_err());
    assert!(parse_interval_ms("").is_err());
}

#[test]
fn test_strategy_source_path_mapping() {
    assert_eq!(
        strategy_source_path("blueprint-scalper"),
        "data/blueprints/cluster-001.json"
    );
    assert_eq!(
        strategy_source_path("blueprint-mean-revert"),
        "data/blueprints/cluster-004.json"
    );
    assert_eq!(strategy_source_path("momentum-scalper"), "");
    assert_eq!(strategy_source_path("lp-consumption"), "");
    assert_eq!(strategy_source_path("mean-reversion"), "");
    assert_eq!(strategy_source_path("trend-follower"), "");
}

#[test]
fn interval_errors_are_told_apart() {
    let e = parse_interval_ms("abc").unwrap_err();
    assert!(matches!(e, IntervalError::Invalid { .. }));
    assert_eq!(e.message(), "Invalid interval: abc");
    let e = parse_interval_ms("").unwrap_err();
    assert_eq!(e.message(), "Invalid interval: ");
    let e = parse_interval_ms("1x").unwrap_err();
    assert!(matches!(e, IntervalError::UnknownUnit { .. }));
    assert_eq!(e.message(), "Unknown interval unit: x (use m, h, d, w)");
    let e = parse_interval_ms("15").unwrap_err();
    assert_eq!(e.message(), "Unknown interval unit:  (use m, h, d, w)");
    // One more than the largest integer.
    let e = parse_interval_ms("9223372036854775808m").unwrap_err();
    assert_eq!(e.message(), "Invalid interval: 9223372036854775808m");
}

#[test]
fn interval_digits_are_gathered_wherever_they_stand() {
    assert_eq!(parse_interval_ms("m15").unwrap(), 900_000);
    assert_eq!(parse_interval_ms("1h5").unwrap(), 54_000_000);
    assert_eq!(parse_interval_ms("0m").unwrap(), 0);
    assert_eq!(parse_interval_ms("007d").unwrap(), 604_800_000);
    assert!(parse_interval_ms("-1m").is_err());
    assert!(parse_interval_ms("1M").is_err());
    assert!(parse_interval_ms("1 m").is_err());
}

#[test]
fn intervals_split_without_overflow() {
    assert_eq!(
        split_interval("9223372036854775807w").unwrap(),
        (i64::MAX, 604_800_000)
    );
    assert_eq!(split_interval("4h").unwrap(), (4, 3_600_000));
}

#[test]
fn numbered_clusters_have_their_own_file() {
    assert_eq!(
        strategy_source_path("blueprint-cluster-017"),
        "data/blueprints/cluster-017.json"
    );
    assert_eq!(
        strategy_source_path("blueprint-cluster-"),
        "data/blueprints/cluster-.json"
    );
    assert_eq!(strategy_source_path("blueprint-cluster"), "");
    assert_eq!(strategy_source_path("blueprint-other"), "");
    assert_eq!(strategy_source_path(""), "");
}

#[test]
fn times_are_written_in_rfc_3339() {
    assert_eq!(stamp(0), "1970-01-01T00:00:00+00:00");
    assert_eq!(stamp(1_778_812_800_000), "2026-05-15T02:40:00+00:00");
    assert_eq!(stamp(947_638_923_004), "2000-01-12T01:02:03.004+00:00");
    assert_eq!(stamp(-1), "1969-12-31T23:59:59.999+00:00");
    assert_eq!(stamp(i64::MAX), "");
    assert_eq!(text_or_empty(Some("x".to_string())), "x");
    assert_eq!(text_or_empty(None), "");
}

#[test]
fn texts_are_joined_and_extended() {
    assert_eq!(join(&vec![], ", "), "");
    assert_eq!(join(&vec!["a".to_string()], ", "), "a");
    assert_eq!(
        join(&vec!["a".to_string(), "b".to_string(), "c".to_string()], ", "),
        "a, b, c"
    );
    assert_eq!(temporary_path("data/x.json"), "data/x.json.tmp");
    assert_eq!(after_prefix("blueprint-x", "blueprint-"), Some("x"));
    assert_eq!(after_prefix("blue", "blueprint-"), None);
}
