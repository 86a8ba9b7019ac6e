//! History: months, partitions, pages, and the runs over them.
use serde_json::Value;
use std::collections::BTreeSet;
use trading_data::backfill::binance::{
    funding_intervals, klines_in_window, klines_reply, klines_url, list_perps, oi_hist_url,
    oi_in_window, oi_reply, FundingInfoEntry, FundingPager, SymbolInfo, PAGE_LIMIT,
};
use trading_data::backfill::bybit::{
    ingest_funding_page, instruments_url, next_cursor, perp_meta, unwrap_envelope, Envelope,
    FundingRow, HistoryPager, InstrumentRow, FUNDING_PAGE_LIMIT,
};
use trading_data::backfill::funding::{
    first_month, funding_row, month_outcome, month_rows, plan_months, tally, MonthOutcome, Tally,
};
use trading_data::backfill::klines::{kline_row, Kline, MonthOutcome as KlineOutcome};
use trading_data::backfill::month::Month;
use trading_data::backfill::oi::{day_outcome, day_partitions, oi_row, DayOutcome, OiHistCfg, OiPoint};
use trading_data::backfill::partition::{
    dataset_dir, requests, stale_tmp, Action, PartitionRun, Visit,
};
use trading_data::backfill::{tmp_path, BackfillError, FundingPoint, Pacer, PerpMeta};
use trading_data::calendar::Date;
use trading_data::decimal::Decimal;

fn dec(s: &str) -> Decimal {
    Decimal::parse(s).unwrap()
}

fn point(symbol: &str, funding_time_ms: u64, rate: &str) -> FundingPoint {
    FundingPoint { symbol: symbol.to_string(), funding_time_ms, rate: dec(rate) }
}

fn perp(symbol: &str, onboard_ms: Option<u64>) -> PerpMeta {
    PerpMeta { symbol: symbol.to_string(), onboard_ms, funding_interval_ns: None }
}

fn now_ms() -> u64 {
    chrono::Utc::now().timestamp_millis() as u64
}

fn today() -> Date {
    Date::of_millis(now_ms() as i64)
}

fn current_month() -> Month {
    Month::of_ms(now_ms())
}

fn text<'a>(v: &'a Value, key: &str) -> &'a str {
    v.get(key).and_then(|x| x.as_str()).unwrap_or("")
}

fn envelope(body: &str) -> Envelope<Value> {
    let v: Value = serde_json::from_str(body).unwrap();
    Envelope {
        ret_code: v.get("retCode").and_then(|x| x.as_i64()).unwrap(),
        ret_msg: text(&v, "retMsg").to_string(),
        result: v.get("result").cloned().unwrap(),
    }
}

fn list(v: &Value) -> Vec<Value> {
    v.get("list").and_then(|l| l.as_array()).cloned().unwrap()
}

#[test]
fn month_parse_display_roundtrip() {
    let m = Month::parse("2023-07").unwrap();
    assert_eq!(m, Month { year: 2023, month: 7 });
    assert_eq!(m.to_text(), "2023-07");
    assert!(Month::parse("2023-13").is_err());
    assert!(Month::parse("202307").is_err());
    assert!(Month::parse("y-07").is_err());
}

#[test]
fn month_bounds_and_iteration() {
    let m = Month::parse("2023-12").unwrap();
    let (start, end) = m.bounds_ms();
    assert_eq!(start, 1_701_388_800_000);
    assert_eq!(end, 1_704_067_200_000);

    let months = Month::parse("2023-11").unwrap().through(m.next());
    let strs: Vec<String> = months.iter().map(|m| m.to_text()).collect();
    assert_eq!(strs, ["2023-11", "2023-12", "2024-01"]);

    assert_eq!(Month::of_ms(start), m);
    assert_eq!(Month::of_ms(end - 1), m);
    assert_eq!(Month::of_ms(end), m.next());
}

#[test]
fn months_before_the_first_are_none() {
    let a = Month::parse("2024-02").unwrap();
    let b = Month::parse("2024-01").unwrap();
    assert!(a.through(b).is_empty());
    assert!(b.before(&a) && !a.before(&b) && !a.before(&a));
}

#[test]
fn month_errors_name_the_input() {
    let message = |s: &str| Month::parse(s).unwrap_err().message();
    assert!(message("2023-13").contains("2023-13"));
    assert!(message("202307").contains("202307"));
    assert!(message("y-07").contains("y-07"));
}

#[test]
fn tmp_path_stays_in_dataset_dir() {
    assert_eq!(
        tmp_path("/data/backfill/binance/funding/2024-01.parquet"),
        "/data/backfill/binance/funding/.tmp-2024-01.parquet"
    );
}

#[test]
fn stale_temporary_files_are_told_apart() {
    assert!(stale_tmp(".tmp-2024-01.parquet"));
    assert!(!stale_tmp("2024-01.parquet"));
    assert_eq!(dataset_dir("/data/backfill", "mockx", "funding"), "/data/backfill/mockx/funding");
}

#[test]
fn instruments_row_parses_interval_minutes_and_launch_time() {
    let body = r#"{"retCode":0,"retMsg":"OK","result":{"category":"linear","list":[
        {"symbol":"0GUSDT","contractType":"LinearPerpetual","status":"Trading",
         "baseCoin":"0G","quoteCoin":"USDT","launchTime":"1758175736000",
         "fundingInterval":240,"settleCoin":"USDT",
         "upperFundingRate":"0.01","lowerFundingRate":"-0.01"},
        {"symbol":"BTC-26DEC25","contractType":"LinearFutures","launchTime":"1","fundingInterval":0}
    ]}}"#;
    let result = unwrap_envelope(envelope(body)).unwrap();
    let rows: Vec<InstrumentRow> = list(&result)
        .iter()
        .map(|r| InstrumentRow {
            symbol: text(r, "symbol").to_string(),
            contract_type: text(r, "contractType").to_string(),
            launch_time: r.get("launchTime").and_then(|x| x.as_str()).map(|s| s.to_string()),
            funding_interval: r.get("fundingInterval").and_then(|x| x.as_u64()),
        })
        .collect();
    let perps = perp_meta(&rows);
    assert_eq!(perps.len(), 1, "futures filtered out");
    assert_eq!(perps[0].symbol, "0GUSDT");
    assert_eq!(perps[0].onboard_ms, Some(1_758_175_736_000));
    assert_eq!(perps[0].funding_interval_ns, Some(240 * 60 * 1_000_000_000));
}

fn funding_rows(result: &Value) -> Vec<FundingRow> {
    list(result)
        .iter()
        .map(|r| FundingRow {
            symbol: text(r, "symbol").to_string(),
            funding_rate: dec(text(r, "fundingRate")),
            funding_rate_timestamp: text(r, "fundingRateTimestamp").to_string(),
        })
        .collect()
}

#[test]
fn funding_page_ingests_descending_rows_and_reports_oldest() {
    let body = r#"{"retCode":0,"retMsg":"OK","result":{"category":"linear","list":[
        {"symbol":"BTCUSDT","fundingRate":"0.00009561","fundingRateTimestamp":"1781164800000"},
        {"symbol":"BTCUSDT","fundingRate":"-0.00000813","fundingRateTimestamp":"1781136000000"},
        {"symbol":"BTCUSDT","fundingRate":"0.00003639","fundingRateTimestamp":"1781107200000"}
    ]}}"#;
    let result = unwrap_envelope(envelope(body)).unwrap();
    let mut out = Vec::new();
    let oldest = ingest_funding_page(
        &funding_rows(&result),
        1_781_100_000_000,
        1_781_150_000_000,
        &mut out,
    );
    assert_eq!(oldest, Some(1_781_107_200_000));
    assert_eq!(out.len(), 2);
    assert_eq!(out[1].funding_time_ms, 1_781_107_200_000);
    assert!(out[1].rate.same_value(&dec("0.00003639")));
}

#[test]
fn non_zero_ret_code_is_an_error() {
    let body = r#"{"retCode":10001,"retMsg":"params error","result":{}}"#;
    let err = unwrap_envelope(envelope(body)).unwrap_err();
    assert!(matches!(err, BackfillError::Http(msg) if msg.contains("10001")));
}

#[test]
fn bybit_pages_go_back_in_time_and_come_out_in_order() {
    let row = |t: u64| FundingRow {
        symbol: "BTCUSDT".to_string(),
        funding_rate: dec("0.0001"),
        funding_rate_timestamp: t.to_string(),
    };
    let mut pager = HistoryPager::new(Some("BTCUSDT"), 1_000, 1_000_000).unwrap();
    let first: Vec<FundingRow> = (0..FUNDING_PAGE_LIMIT as u64).map(|i| row(900_000 - i * 1_000)).collect();
    assert!(pager.take_page(&first));
    assert_eq!(pager.end, 900_000 - 199 * 1_000 - 1);
    assert!(!pager.take_page(&vec![row(2_000), row(500)]));
    let out = pager.finish();
    assert_eq!(out.len(), FUNDING_PAGE_LIMIT + 1, "a settlement before the window is left out");
    assert!(out.windows(2).all(|w| w[0].funding_time_ms <= w[1].funding_time_ms));
    assert_eq!(out[0].funding_time_ms, 2_000);
    assert!(HistoryPager::new(None, 0, 10).is_err(), "the venue has no history of all symbols");
    assert!(HistoryPager::new(None, 0, 0).is_err(), "whatever the window");
}

#[test]
fn bybit_cursors_end_at_the_empty_one() {
    assert_eq!(next_cursor(Some("abc".to_string())), Some("abc".to_string()));
    assert_eq!(next_cursor(Some(String::new())), None);
    assert_eq!(next_cursor(None), None);
    assert!(instruments_url("abc").contains("cursor=abc"));
}

#[test]
fn binance_pages_overlap_without_telling_anything_twice() {
    let page: Vec<FundingPoint> =
        (0..PAGE_LIMIT as u64).map(|i| point("BTCUSDT", 1_000 + i / 2, if i % 2 == 0 { "0.1" } else { "0.2" })).collect();
    let mut pager = FundingPager::new(0, 1_000_000);
    assert!(pager.take_page(&page));
    assert_eq!(pager.start, 1_000 + 499);
    assert!(!pager.take_page(&vec![
        point("BTCUSDT", 1_499, "0.1"),
        point("ETHUSDT", 1_499, "0.3"),
        point("BTCUSDT", 2_000_000, "0.4"),
    ]));
    assert_eq!(pager.out.len(), 500 + 1);
    assert_eq!(pager.out[500].symbol, "ETHUSDT");
}

#[test]
fn binance_perps_carry_their_intervals() {
    let intervals = funding_intervals(&vec![
        FundingInfoEntry { symbol: "BTCUSDT".to_string(), funding_interval_hours: Some(4) },
        FundingInfoEntry { symbol: "ETHUSDT".to_string(), funding_interval_hours: None },
    ]);
    assert_eq!(intervals.get("BTCUSDT"), Some(&14_400_000_000_000));
    assert_eq!(intervals.get("ETHUSDT"), None);
    let info = |symbol: &str, contract: &str| SymbolInfo {
        symbol: symbol.to_string(),
        contract_type: contract.to_string(),
        onboard_date: Some(5),
    };
    let perps = list_perps(
        &vec![info("BTCUSDT", "PERPETUAL"), info("BTCUSDT_250926", "CURRENT_QUARTER"), info("ETHUSDT", "PERPETUAL")],
        &intervals,
    );
    assert_eq!(perps.len(), 2);
    assert_eq!(perps[0].symbol, "BTCUSDT");
    assert_eq!(perps[0].funding_interval_ns, Some(14_400_000_000_000));
    assert_eq!(perps[0].onboard_ms, Some(5));
    assert_eq!(perps[1].symbol, "ETHUSDT");
}

#[test]
fn refusals_at_the_edge_of_retention_mean_no_rows() {
    assert!(matches!(oi_reply(true, "[]"), Ok(true)));
    assert!(matches!(oi_reply(false, r#"{"code":-1130,"msg":"x"}"#), Ok(false)));
    assert!(matches!(oi_reply(false, r#"{"code":-4108}"#), Ok(false)));
    assert!(matches!(oi_reply(false, r#"{"code":-1121}"#), Ok(false)));
    assert!(matches!(oi_reply(false, "teapot"), Err(BackfillError::Http(m)) if m == "teapot"));
    assert!(matches!(klines_reply(false, r#"{"code":-1121}"#), Ok(false)));
    assert!(klines_reply(false, r#"{"code":-1130}"#).is_err());
}

#[test]
fn requests_name_the_symbol_in_upper_case() {
    assert_eq!(
        klines_url("btcusdt", 1, 100),
        "https://fapi.binance.com/fapi/v1/klines?symbol=BTCUSDT&interval=1h&startTime=1&endTime=99&limit=1000"
    );
    assert!(oi_hist_url("btcusdt", 1, 100).contains("symbol=BTCUSDT"));
}

#[test]
fn rows_outside_the_window_are_left_out() {
    let oi = |ts_ms: u64| OiPoint {
        ts_ms,
        sum_open_interest: dec("1"),
        sum_open_interest_value: dec("2"),
    };
    let kept: Vec<u64> =
        oi_in_window(&vec![oi(9), oi(10), oi(19), oi(20)], 10, 20).iter().map(|p| p.ts_ms).collect();
    assert_eq!(kept, [10, 19]);
    let bars: Vec<u64> = klines_in_window(&vec![kline(9), kline(10), kline(20)], 10, 20)
        .iter()
        .map(|k| k.open_time_ms)
        .collect();
    assert_eq!(bars, [10]);
}

fn kline(open_time_ms: u64) -> Kline {
    Kline {
        open_time_ms,
        close_time_ms: open_time_ms + 3_599_999,
        open: dec("100"),
        high: dec("110"),
        low: dec("90"),
        close: dec("105"),
        volume: dec("12.5"),
        quote_volume: dec("1300"),
        trades: 42,
        taker_buy_volume: dec("6"),
        taker_buy_quote_volume: dec("620"),
    }
}

/// Runs over partitions with files kept in memory.
struct Disk {
    files: BTreeSet<String>,
    fetches: Vec<(u64, u64)>,
}

impl Disk {
    fn new() -> Disk {
        Disk { files: BTreeSet::new(), fetches: Vec::new() }
    }

    fn run(&mut self, mut run: PartitionRun, rows_in: impl Fn(u64, u64) -> usize) -> Vec<Visit> {
        loop {
            match run.action() {
                Action::Probe { file } => run.probed(self.files.contains(&file)),
                Action::Fetch { start_ms, end_ms, .. } => {
                    self.fetches.push((start_ms, end_ms));
                    run.fetched(rows_in(start_ms, end_ms));
                }
                Action::Publish { file, supersedes } => {
                    self.files.insert(file);
                    if let Some(old) = supersedes {
                        self.files.remove(&old);
                    }
                    run.published();
                }
                Action::Done => return run.visits,
            }
        }
    }
}

fn mock_rows() -> Vec<FundingPoint> {
    let (cur_start, _) = current_month().bounds_ms();
    let jan = Month::parse("2024-01").unwrap().bounds_ms().0;
    vec![
        point("BTCUSDT", jan + 8 * 3_600_000, "0.0001"),
        point("ETHUSDT", jan + 8 * 3_600_000, "-0.0002"),
        point("BTCUSDT", cur_start, "0.0003"),
    ]
}

fn funding_run(disk: &mut Disk) -> Vec<(Month, MonthOutcome)> {
    let perps = vec![perp("BTCUSDT", Some(Month::parse("2024-01").unwrap().bounds_ms().0))];
    let from = first_month(None, &perps).unwrap();
    let current = current_month();
    let parts = plan_months(from, current, now_ms()).unwrap();
    let closed: Vec<bool> = parts.iter().map(|p| p.closed).collect();
    let rows = mock_rows();
    let visits = disk.run(PartitionRun::new(parts, perps, true), |start, end| {
        rows.iter().filter(|r| r.funding_time_ms >= start && r.funding_time_ms < end).count()
    });
    from.through(current)
        .into_iter()
        .zip(visits.into_iter().zip(closed).map(|(v, c)| month_outcome(c, v)))
        .collect()
}

#[test]
fn publishes_closed_months_and_partials_current() {
    let mut disk = Disk::new();
    let outcomes = funding_run(&mut disk);

    assert_eq!(
        outcomes[0],
        (Month::parse("2024-01").unwrap(), MonthOutcome::Published { rows: 2 })
    );
    assert!(disk.files.contains("2024-01.parquet"));

    let (current, outcome) = outcomes.last().unwrap();
    assert_eq!(*current, current_month());
    assert_eq!(*outcome, MonthOutcome::Partial { rows: 1 });
    assert!(disk.files.contains(&format!("{}.partial.parquet", current.to_text())));
    assert!(!disk.files.contains(&format!("{}.parquet", current.to_text())));

    assert!(outcomes[1..outcomes.len() - 1].iter().all(|(_, o)| *o == MonthOutcome::Empty));
    assert!(disk.files.iter().all(|f| !stale_tmp(f)));
}

#[test]
fn published_months_are_not_refetched() {
    let mut disk = Disk::new();
    funding_run(&mut disk);
    let first_fetches = disk.fetches.len();

    let outcomes = funding_run(&mut disk);
    assert_eq!(outcomes[0].1, MonthOutcome::AlreadyPublished);
    let jan_start = Month::parse("2024-01").unwrap().bounds_ms().0;
    let second_run = &disk.fetches[first_fetches..];
    assert!(
        second_run.iter().all(|(s, _)| *s > jan_start),
        "published 2024-01 must not be refetched: {second_run:?}"
    );
    assert_eq!(outcomes.last().unwrap().1, MonthOutcome::Partial { rows: 1 });
}

#[test]
fn a_closing_month_replaces_its_partial_file() {
    let mut disk = Disk::new();
    disk.files.insert("2024-01.partial.parquet".to_string());
    funding_run(&mut disk);
    assert!(disk.files.contains("2024-01.parquet"));
    assert!(!disk.files.contains("2024-01.partial.parquet"));
}

#[test]
fn the_first_month_is_asked_for_or_that_of_the_first_listing() {
    let asked = Month::parse("2022-05").unwrap();
    assert_eq!(first_month(Some(asked), &vec![]).unwrap(), asked);
    let perps = vec![perp("B", Some(1_704_067_200_000)), perp("A", Some(1_701_388_800_000)), perp("C", None)];
    assert_eq!(first_month(None, &perps).unwrap(), Month::parse("2023-12").unwrap());
    assert!(first_month(None, &vec![perp("C", None)]).is_err());
    assert!(plan_months(current_month().next(), current_month(), now_ms()).is_err());
}

#[test]
fn perpetuals_listed_later_are_not_asked_for() {
    let perps = vec![perp("A", Some(10)), perp("B", Some(20)), perp("C", None)];
    assert_eq!(
        requests(&perps, false, 20),
        vec![Some("A".to_string()), Some("C".to_string())]
    );
    assert_eq!(requests(&perps, true, 20), vec![None]);
}

#[test]
fn month_rows_are_in_order_of_time_and_symbol() {
    let rows = month_rows(
        vec![point("ETHUSDT", 2, "0.2"), point("BTCUSDT", 2, "0.1"), point("ETHUSDT", 1, "0.3")],
        99,
    );
    let keys: Vec<(u64, &str)> =
        rows.iter().map(|r| (r.funding_time, r.key.instrument.as_str())).collect();
    assert_eq!(keys, [(1_000_000, "ethusdt"), (2_000_000, "btcusdt"), (2_000_000, "ethusdt")]);
    let row = funding_row(&point("BTCUSDT", 7, "0.1"), 99);
    assert_eq!(row.key.venue_ts, Some(7_000_000));
    assert_eq!(row.key.local_ts, 99);
    assert_eq!(row.key.source.0, 0);
}

#[test]
fn hourly_bars_of_the_current_month_are_a_partial_file() {
    let from = current_month();
    let parts = plan_months(from, from, now_ms()).unwrap();
    let mut disk = Disk::new();
    let visits =
        disk.run(PartitionRun::new(parts, vec![perp("BTCUSDT", Some(0))], false), |_, _| 1);
    assert_eq!(visits.len(), 1);
    assert_eq!(
        trading_data::backfill::klines::month_outcome(false, visits[0]),
        KlineOutcome::Partial { rows: 1 }
    );
    assert!(disk.files.contains(&format!("{}.partial.parquet", from.to_text())));
    let row = kline_row("BTCUSDT", 5, &kline(1_000));
    assert_eq!(row.key.instrument, "btcusdt");
    assert_eq!(row.key.venue_ts, Some(1_000_000_000));
    assert_eq!(row.close_time, 3_600_999_000_000);
    assert_eq!(row.trades, 42);
    assert!(row.quote_volume.same_value(&dec("1300")));
}

#[test]
fn out_of_retention_days_empty_in_retention_published_today_partial() {
    let today = today();
    // Days before the edge are no longer kept by the venue.
    let edge = today.minus_days(3).start_ms() as u64;
    let rows_in = move |start_ms: u64, end_ms: u64| -> usize {
        if end_ms <= edge {
            return 0;
        }
        [start_ms, start_ms + 300_000].iter().filter(|ts| **ts >= edge && **ts < end_ms).count()
    };
    // Noon: both points of the day lie in the past.
    let now = today.start_ms() as u64 + 43_200_000;
    let perps = || vec![perp("BTCUSDT", Some(0))];
    let mut disk = Disk::new();
    let outcomes = |disk: &mut Disk| -> Vec<(Date, DayOutcome)> {
        let parts = day_partitions(&today, 6, now);
        let closed: Vec<bool> = parts.iter().map(|p| p.closed).collect();
        let visits = disk.run(PartitionRun::new(parts, perps(), false), rows_in);
        (0..7u32)
            .map(|k| today.minus_days(6 - k))
            .zip(visits.into_iter().zip(closed).map(|(v, c)| day_outcome(c, v)))
            .collect()
    };
    let first = outcomes(&mut disk);
    assert_eq!(first.len(), 7);
    for (day, outcome) in &first {
        let name = day.to_text();
        if *day == today {
            assert_eq!(*outcome, DayOutcome::Partial { rows: 2 });
            assert!(disk.files.contains(&format!("{name}.partial.parquet")));
        } else if day.start_ms() as u64 >= edge {
            assert_eq!(*outcome, DayOutcome::Published { rows: 2 }, "{name}");
            assert!(disk.files.contains(&format!("{name}.parquet")));
        } else {
            assert_eq!(*outcome, DayOutcome::Empty, "{name}");
            assert!(!disk.files.contains(&format!("{name}.parquet")));
        }
    }

    let before = disk.fetches.len();
    let again = outcomes(&mut disk);
    assert_eq!(disk.fetches.len() - before, 4, "3 empty + 1 today");
    assert!(again
        .iter()
        .filter(|(d, _)| *d != today && d.start_ms() as u64 >= edge)
        .all(|(_, o)| *o == DayOutcome::AlreadyPublished));
}

#[test]
fn open_interest_rows() {
    assert_eq!(OiHistCfg::default().days_back, 32);
    let row = oi_row(
        "BTCUSDT",
        9,
        &OiPoint {
            ts_ms: 3,
            sum_open_interest: dec("100.5"),
            sum_open_interest_value: dec("6000000"),
        },
    );
    assert_eq!(row.key.instrument, "btcusdt");
    assert_eq!(row.key.venue_ts, Some(3_000_000));
    assert!(row.open_interest.same_value(&dec("100.5")));
    assert!(row.open_interest_value.unwrap().same_value(&dec("6000000")));
}

#[test]
fn requests_are_paced() {
    let mut p = Pacer::default();
    assert_eq!(p.wait(), None);
    p.passed(1_000);
    assert_eq!(p.wait(), Some(250_001_000));
}

#[test]
fn backfill_error_messages() {
    assert_eq!(BackfillError::Http("x".to_string()).message(), "http: x");
    assert_eq!(BackfillError::Parse("x".to_string()).message(), "parse: x");
    assert_eq!(BackfillError::Io("x".to_string()).message(), "io: x");
    assert_eq!(BackfillError::Table("x".to_string()).message(), "table: x");
    assert_eq!(BackfillError::Invalid("x".to_string()).message(), "invalid: x");
}

#[test]
fn a_run_is_tallied_by_outcome() {
    let outcomes = vec![
        MonthOutcome::Published { rows: 5 },
        MonthOutcome::AlreadyPublished,
        MonthOutcome::Published { rows: usize::MAX },
        MonthOutcome::Empty,
        MonthOutcome::Partial { rows: 2 },
    ];
    assert_eq!(
        tally(&outcomes),
        Tally {
            published: 2,
            partial: 1,
            already_published: 1,
            empty: 1,
            rows: usize::MAX as u128 + 7,
        }
    );
    assert_eq!(tally(&vec![]).rows, 0);
}
