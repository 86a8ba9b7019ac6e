//! Command lines, texts, decimals, dates and ordered maps.
use trading_data::calendar::{nanos_to_date, Date};
use trading_data::cli::{
    read_build, read_request, read_sweep, Command, BACKFILL_USAGE, BUILD_USAGE, SWEEP_USAGE,
};
use trading_data::decimal::Decimal;
use trading_data::listing::{filter_text, Filter, FilterField};
use trading_data::order::{stable_sort, NameMap};
use trading_data::text::{
    before, byte_prefix, contains_text, ends_with_text, i64_text, parse_bounded, split_first,
    strip_tail, u64_text,
};
use trading_data::timed::TimedMap;
use trading_data::types::{ms_to_nanos, to_signed};

fn argv(s: &[&str]) -> Vec<String> {
    s.iter().map(|x| x.to_string()).collect()
}

#[test]
fn backfill_arguments() {
    let r = read_request(&argv(&[
        "reconcile",
        "--venue",
        "binance",
        "--date",
        "2026-06-09",
        "--data-dir",
        "/d",
        "--force",
    ]))
    .unwrap();
    assert_eq!(r.command, Command::Reconcile);
    assert_eq!(r.args.date, Some(Date::parse_iso("2026-06-09").unwrap()));
    assert_eq!(r.args.data_dir, "/d");
    assert!(r.args.force);
    let r = read_request(&argv(&["funding"])).unwrap();
    assert_eq!((r.args.venue.as_str(), r.args.data_dir.as_str()), ("binance", "data"));
    assert!(r.args.from.is_none() && !r.args.force);
    assert!(read_request(&argv(&["funding", "--venue", "bybit"])).is_ok());
}

#[test]
fn backfill_usage_errors() {
    let err = |a: &[&str]| read_request(&argv(a)).unwrap_err();
    assert_eq!(err(&[]), BACKFILL_USAGE);
    assert_eq!(err(&["funding", "--venue"]), format!("--venue needs a value\n{BACKFILL_USAGE}"));
    assert_eq!(
        err(&["funding", "--odd"]),
        format!("unknown argument \"--odd\"\n{BACKFILL_USAGE}")
    );
    assert_eq!(err(&["frob"]), format!("unknown subcommand \"frob\"\n{BACKFILL_USAGE}"));
    assert!(err(&["oi-hist", "--venue", "bybit"]).starts_with("unknown venue \"bybit\""));
    assert_eq!(err(&["klines"]), "klines requires --from YYYY-MM");
    assert!(err(&["reconcile", "--date", "soon"]).starts_with("--date: "));
    assert!(err(&["funding", "--from", "2023-13"]).contains("2023-13"));
}

#[test]
fn sweep_arguments() {
    let a = read_sweep(&argv(&["wal", "out", "--as-of", "2026-06-11"])).unwrap();
    assert_eq!((a.wal_root.as_str(), a.out_root.as_str()), ("wal", "out"));
    assert_eq!(a.as_of, Some(Date::parse_iso("2026-06-11").unwrap()));
    assert!(read_sweep(&argv(&["wal", "out"])).unwrap().as_of.is_none());
    assert_eq!(read_sweep(&argv(&["wal"])).unwrap_err(), SWEEP_USAGE);
    assert_eq!(read_sweep(&argv(&["a", "b", "c"])).unwrap_err(), SWEEP_USAGE);
    assert!(read_sweep(&argv(&["a", "b", "--as-of", "x"])).is_err());
}

#[test]
fn build_arguments() {
    let a = read_build(&argv(&["build", "--data-dir", "/d"])).unwrap();
    assert_eq!(a.data_dir, "/d");
    assert_eq!(a.overrides, "configs/symbology-overrides.toml");
    assert_eq!(a.fees_dir, "configs/fees");
    assert!(read_build(&argv(&[])).unwrap_err().contains(BUILD_USAGE));
    assert!(read_build(&argv(&["frob"])).is_err());
}

#[test]
fn numbers_as_text() {
    assert_eq!(u64_text(0), "0");
    assert_eq!(u64_text(u64::MAX), u64::MAX.to_string());
    assert_eq!(i64_text(i64::MIN), i64::MIN.to_string());
    assert_eq!(parse_bounded("42", 100), Some(42));
    assert_eq!(parse_bounded("+42", 100), Some(42));
    assert_eq!(parse_bounded("101", 100), None);
    assert_eq!(parse_bounded("", 100), None);
    assert_eq!(parse_bounded("4x", 100), None);
}

#[test]
fn text_is_searched_and_cut() {
    assert!(contains_text("a-1130b", "-1130") && !contains_text("ab", "abc"));
    assert!(ends_with_text("x.wal", ".wal"));
    assert_eq!(strip_tail("x.wal", ".wal"), Some("x".to_string()));
    assert_eq!(strip_tail("x.txt", ".wal"), None);
    assert_eq!(split_first("a-b-c", '-'), Some(("a".to_string(), "b-c".to_string())));
    assert_eq!(split_first("abc", '-'), None);
    assert_eq!(byte_prefix("2026-06-11-x", 10), Some("2026-06-11".to_string()));
    assert_eq!(byte_prefix("é", 1), None, "not between two characters");
    assert!(before("a", "b") && before("a", "ab") && !before("b", "a") && !before("a", "a"));
    // Dictionary order is that of the bytes.
    assert_eq!(before("z", "é"), "z" < "é");
}

#[test]
fn decimals_compare_by_value() {
    let d = |s: &str| Decimal::parse(s).unwrap();
    assert!(d("1.0").same_value(&d("1.00")));
    assert!(!d("1.0").same_value(&d("1.01")));
    assert!(d("0").same_value(&d("-0.0")));
    assert_eq!((d("-0.00813").mantissa(), d("-0.00813").scale()), (-813, 5));
    assert!(Decimal::parse("x").is_none());
    assert!(Decimal::new(1, 29).is_none());
    assert!(Decimal::new(79_228_162_514_264_337_593_543_950_336, 0).is_none());
    assert!(Decimal::new(79_228_162_514_264_337_593_543_950_335, 28).is_some());
}

#[test]
fn dates_and_instants() {
    let d = Date::parse_iso("2024-02-29").unwrap();
    assert_eq!(d.to_text(), "2024-02-29");
    assert_eq!(d.next_day().to_text(), "2024-03-01");
    assert_eq!(d.minus_days(60).to_text(), "2023-12-31");
    assert!(Date::parse_iso("2023-02-29").is_err());
    assert!(Date::parse_ymd("2023-2x-01").is_err());
    assert_eq!(Date::parse_ymd("2024-02-29").unwrap(), d);
    assert_eq!(nanos_to_date(1_700_000_000_000_000_000).to_text(), "2023-11-14");
    assert_eq!(d.day_ns(), 1_709_164_800_000_000_000);
    assert_eq!(Date::of_millis(d.start_ms()), d);
    assert_eq!(Date::of_millis(d.start_ms() - 1).to_text(), "2024-02-28");
    assert!(d.before(&d.next_day()) && !d.before(&d));
    assert_eq!(ms_to_nanos(3), 3_000_000);
    assert_eq!(to_signed(u64::MAX), -1);
}

#[test]
fn maps_keep_their_keys_in_order() {
    let mut m: NameMap<u32> = NameMap::new();
    m.put("b".to_string(), 1);
    m.put("a".to_string(), 2);
    m.put("b".to_string(), 3);
    assert_eq!(m.names, ["a", "b"]);
    assert_eq!(m.get("b"), Some(&3));
    assert!(!m.contains("c"));
    let mut t: TimedMap<u32> = TimedMap::new();
    assert!(t.put(2, "a".to_string(), 1));
    assert!(t.put(1, "b".to_string(), 2));
    assert!(!t.put(2, "a".to_string(), 3));
    assert_eq!(t.values, [2, 3]);
    t.drop_before(2);
    assert_eq!(t.values, [3]);
    assert_eq!(
        stable_sort(vec!["b".to_string(), "a".to_string(), "c".to_string()]),
        ["a", "b", "c"]
    );
}

#[test]
fn the_first_filter_of_a_type_counts() {
    let f = |t: Option<&str>, k: &str, v: &str| Filter {
        filter_type: t.map(|s| s.to_string()),
        fields: vec![FilterField { name: k.to_string(), value: v.to_string() }],
    };
    let filters = vec![f(None, "x", "0"), f(Some("A"), "y", "1"), f(Some("A"), "x", "2")];
    assert_eq!(filter_text(&filters, "A", "y"), Some("1".to_string()));
    assert_eq!(filter_text(&filters, "A", "x"), None, "a later one is not looked at");
    assert_eq!(filter_text(&filters, "B", "x"), None);
}
