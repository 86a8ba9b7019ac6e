//! The daily reconciliation of captured funding against the venue's history.
use std::collections::BTreeMap;
use trading_data::backfill::reconcile::{
    blocked_report, build_report, capture_row, exit_code, expect_point, gate_of, honors_existing,
    plan, publish_gate, report_status, settlement_of, shared_settlements, sources, status_of,
    status_str, GreenScan, Marker, ReconcilePlan, ReconcileReport, ReconcileStatus, Source,
};
use trading_data::backfill::{BackfillError, FundingPoint};
use trading_data::calendar::Date;
use trading_data::decimal::Decimal;
use trading_data::events::Event;
use trading_data::payloads::{MarketPayload, Payload};
use trading_data::timed::TimedMap;
use trading_data::types::{InstrumentId, SourceId, VenueId};

const DAY: &str = "2026-06-09";
const DAY_START_MS: u64 = 1_780_963_200_000;
const RATE_EPS: f64 = 1e-10;

fn dec(s: &str) -> Decimal {
    Decimal::parse(s).unwrap()
}

fn to_f64(d: &Decimal) -> f64 {
    d.mantissa() as f64 / 10f64.powi(d.scale() as i32)
}

fn point(symbol: &str, offset_h: u64, rate: &str) -> FundingPoint {
    FundingPoint {
        symbol: symbol.to_string(),
        funding_time_ms: DAY_START_MS + offset_h * 3_600_000,
        rate: dec(rate),
    }
}

fn realized(p: &FundingPoint) -> Event {
    let ns = p.funding_time_ms * 1_000_000;
    Event {
        venue: VenueId { value: "binance".to_string() },
        instrument: Some(InstrumentId { value: p.symbol.to_lowercase() }),
        venue_ts: Some(ns),
        local_ts: ns + 300_000_000_000,
        source: SourceId(0),
        provenance: None,
        payload: Payload::Market(MarketPayload::FundingRateRealized {
            rate: p.rate,
            funding_time: ns,
            interval: None,
        }),
    }
}

/// What is on disk: the markers and the rows of days by their directory, the log
/// of the next day, and the reports by their path.
struct Data {
    markers: BTreeMap<String, Vec<u8>>,
    tables: BTreeMap<String, Vec<FundingPoint>>,
    next_log: Vec<Event>,
    reports: BTreeMap<String, Vec<u8>>,
}

/// A document with this status.
fn document(status: &str) -> Vec<u8> {
    format!("{{\n  \"schema_version\": 1,\n  \"status\": \"{status}\"\n}}").into_bytes()
}

impl Data {
    fn new() -> Data {
        Data {
            markers: BTreeMap::new(),
            tables: BTreeMap::new(),
            next_log: Vec::new(),
            reports: BTreeMap::new(),
        }
    }

    fn convert_day(&mut self, date: &str, rows: &[FundingPoint], qa: &str) {
        let dir = format!("data/parquet/binance/{date}");
        self.markers.insert(dir.clone(), document(qa));
        self.tables.insert(dir, rows.to_vec());
    }

    fn publish_day(&mut self, date: &str, rows: &[FundingPoint]) {
        self.convert_day(date, rows, "pass");
    }

    fn status_of(&self, path: &str) -> Result<ReconcileStatus, BackfillError> {
        match self.reports.get(path) {
            Some(raw) => status_of(raw, path),
            None => Err(BackfillError::Io("no such file".to_string())),
        }
    }

    fn table(&self, dir: &str, p: &ReconcilePlan, captured: &mut TimedMap<u64>) {
        for r in &self.tables[dir] {
            capture_row(
                captured,
                &r.symbol.to_lowercase(),
                r.funding_time_ms * 1_000_000,
                to_f64(&r.rate).to_bits(),
                p.start_ns,
                p.end_ns,
            );
        }
    }

    fn log(&self, p: &ReconcilePlan, captured: &mut TimedMap<u64>) {
        for e in &self.next_log {
            if let Some((instrument, time, rate)) = settlement_of(e, p.start_ns, p.end_ns) {
                let bits = to_f64(&rate).to_bits();
                capture_row(captured, &instrument, time, bits, p.start_ns, p.end_ns);
            }
        }
    }

    /// The verdict, whether an existing report was honored, and the new report.
    fn run(
        &mut self,
        rest: &[FundingPoint],
        force: bool,
    ) -> (ReconcileStatus, bool, Option<ReconcileReport>) {
        let date = Date::parse_iso(DAY).unwrap();
        let p = plan("data", "binance", &date);
        if honors_existing(self.reports.contains_key(&p.report_path), force) {
            return (self.status_of(&p.report_path).unwrap(), true, None);
        }
        let mut expected: TimedMap<u64> = TimedMap::new();
        for r in rest {
            let ns = r.funding_time_ms * 1_000_000;
            if ns >= p.start_ns && ns < p.end_ns {
                expect_point(&mut expected, &r.symbol, r.funding_time_ms, to_f64(&r.rate).to_bits());
            }
        }
        let read_from = sources(
            self.markers.get(&p.day_dir).map(|m| m.as_slice()),
            self.markers.get(&p.next_dir).map(|m| m.as_slice()),
            !self.next_log.is_empty(),
            &format!("{}/qa_report.json", p.day_dir),
            &p.day_dir,
        );
        let read_from = match read_from {
            Ok(read_from) => read_from,
            Err(reason) => {
                let report = blocked_report("binance", &date, "now", expected.keys.len(), reason);
                self.reports.insert(p.report_path, document(status_str(report.status)));
                return (ReconcileStatus::Blocked, false, Some(report));
            }
        };
        let mut captured: TimedMap<u64> = TimedMap::new();
        for source in read_from {
            match source {
                Source::DayTable => self.table(&p.day_dir, &p, &mut captured),
                Source::NextTable => self.table(&p.next_dir, &p, &mut captured),
                Source::NextLog => self.log(&p, &mut captured),
            }
        }
        let pairs = shared_settlements(&expected, &captured);
        let differs: Vec<bool> = pairs
            .iter()
            .map(|m| {
                (f64::from_bits(m.captured_rate) - f64::from_bits(m.rest_rate)).abs() > RATE_EPS
            })
            .collect();
        let mut scan = GreenScan::new();
        let mut day = date;
        loop {
            day = day.minus_days(1);
            let path = format!("{}/{}.json", p.reports_dir, day.to_text());
            if !scan.next_report(self.reports.get(&path).map(|r| r.as_slice()), &path) {
                break;
            }
        }
        let report = build_report(
            "binance", &date, "now", &expected, &captured, &pairs, &differs, scan.days,
        );
        self.reports.insert(p.report_path, document(status_str(report.status)));
        (report.status, false, Some(report))
    }
}

fn coverage(r: &ReconcileReport) -> f64 {
    if r.expected_events == 0 {
        100.0
    } else {
        r.covered_events as f64 * 100.0 / r.expected_events as f64
    }
}

#[test]
fn full_coverage_passes_with_green_day() {
    let pts = vec![point("BTCUSDT", 8, "0.0001"), point("ETHUSDT", 8, "-0.0002")];
    let mut data = Data::new();
    data.publish_day(DAY, &pts);
    let (status, _, report) = data.run(&pts, false);
    assert_eq!(status, ReconcileStatus::Pass);
    let report = report.unwrap();
    assert_eq!(coverage(&report), 100.0);
    assert_eq!(report.consecutive_green_days, 1);
    assert_eq!(report.expected_events, 2);
}

#[test]
fn missing_extra_and_mismatch_fail() {
    let expected = vec![
        point("BTCUSDT", 8, "0.0001"),
        point("ETHUSDT", 8, "-0.0002"),
        point("SOLUSDT", 8, "0.0003"),
    ];
    let captured = vec![
        point("BTCUSDT", 8, "0.0001"),
        point("SOLUSDT", 8, "0.00031"),
        point("XRPUSDT", 8, "0.0009"),
    ];
    let mut data = Data::new();
    data.publish_day(DAY, &captured);
    let (status, _, report) = data.run(&expected, false);
    assert_eq!(status, ReconcileStatus::Fail);
    let report = report.unwrap();
    assert_eq!(report.missing[0].instrument, "ethusdt");
    assert_eq!(report.extra[0].instrument, "xrpusdt");
    assert_eq!(report.rate_mismatches[0].instrument, "solusdt");
    assert_eq!(report.consecutive_green_days, 0);
    let covered = coverage(&report);
    assert!((covered - 66.666).abs() < 0.01, "{covered}");
}

#[test]
fn late_capture_in_next_day_wal_counts() {
    let on_time = point("BTCUSDT", 8, "0.0001");
    let late = point("ETHUSDT", 23, "-0.0002");
    let mut data = Data::new();
    data.publish_day(DAY, std::slice::from_ref(&on_time));
    data.next_log.push(realized(&late));
    let (status, _, report) = data.run(&[on_time, late], false);
    assert_eq!(status, ReconcileStatus::Pass, "{report:?}");
}

#[test]
fn late_capture_in_the_next_day_table_counts_once_it_is_published() {
    let on_time = point("BTCUSDT", 8, "0.0001");
    let late = point("ETHUSDT", 23, "-0.0002");
    let next_day = point("ETHUSDT", 31, "0.0005");
    let rest = [on_time.clone(), late.clone()];
    for (qa, verdict) in [("pass", ReconcileStatus::Pass), ("fail", ReconcileStatus::Fail)] {
        let mut data = Data::new();
        data.publish_day(DAY, std::slice::from_ref(&on_time));
        data.convert_day("2026-06-10", &[late.clone(), next_day.clone()], qa);
        let (status, _, report) = data.run(&rest, false);
        assert_eq!(status, verdict, "{report:?}");
    }
}

#[test]
fn a_day_that_failed_its_report_blocks() {
    let pts = vec![point("BTCUSDT", 8, "0.0001")];
    let mut data = Data::new();
    data.convert_day(DAY, &pts, "fail");
    let (status, _, report) = data.run(&pts, false);
    assert_eq!(status, ReconcileStatus::Blocked);
    assert_eq!(
        report.unwrap().blocked_reason.unwrap(),
        "QA status String(\"fail\") for data/parquet/binance/2026-06-09"
    );
}

#[test]
fn what_a_captured_set_is_read_from() {
    let pass = document("pass");
    let fail = document("fail");
    let of = |day: Option<&[u8]>, next: Option<&[u8]>, log: bool| sources(day, next, log, "m", "d");
    assert_eq!(
        of(Some(&pass), Some(&pass), true).unwrap(),
        vec![Source::DayTable, Source::NextTable, Source::NextLog]
    );
    assert_eq!(of(Some(&pass), Some(&fail), true).unwrap(), vec![Source::DayTable, Source::NextLog]);
    assert_eq!(of(Some(&pass), None, false).unwrap(), vec![Source::DayTable]);
    assert_eq!(of(None, Some(&pass), true).unwrap_err(), "not published: m missing");
    assert_eq!(of(Some(&fail), Some(&pass), true).unwrap_err(), "QA status String(\"fail\") for d");
}

#[test]
fn markers_are_read_from_their_bytes() {
    assert_eq!(gate_of(Some(b"{\"status\":\"pass\"}"), "m", "d"), None);
    assert_eq!(gate_of(None, "m", "d").unwrap(), "not published: m missing");
    assert_eq!(gate_of(Some(b"{\"status\":7}"), "m", "d").unwrap(), "QA status Number(7) for d");
    assert_eq!(gate_of(Some(b"{}"), "m", "d").unwrap(), "QA status Null for d");
    assert_eq!(gate_of(Some(b"[\"pass\"]"), "m", "d").unwrap(), "QA status Null for d");
    assert_eq!(
        gate_of(Some(b""), "m", "d").unwrap(),
        "unreadable QA report: EOF while parsing a value at line 1 column 0"
    );
}

#[test]
fn reports_are_read_from_their_bytes() {
    assert_eq!(status_of(&document("pass"), "p").unwrap(), ReconcileStatus::Pass);
    assert_eq!(status_of(&document("fail"), "p").unwrap(), ReconcileStatus::Fail);
    assert_eq!(status_of(&document("blocked"), "p").unwrap(), ReconcileStatus::Blocked);
    assert_eq!(
        status_of(&document("odd"), "p.json").unwrap_err().message(),
        "parse: unknown report status Some(\"odd\") in p.json"
    );
    assert_eq!(
        status_of(b"{\"status\":null}", "p.json").unwrap_err().message(),
        "parse: unknown report status None in p.json"
    );
    assert_eq!(
        status_of(b"{", "p.json").unwrap_err().message(),
        "parse: EOF while parsing an object at line 1 column 1"
    );
}

#[test]
fn unpublished_day_blocks() {
    let pts = vec![point("BTCUSDT", 8, "0.0001")];
    let (status, _, report) = Data::new().run(&pts, false);
    assert_eq!(status, ReconcileStatus::Blocked);
    let report = report.unwrap();
    assert!(report.blocked_reason.as_ref().unwrap().contains("not published"));
    assert_eq!(report.consecutive_green_days, 0);
    assert_eq!(report.expected_events, 1);
    assert_eq!(report.covered_events, 0);
}

#[test]
fn green_days_accumulate_and_break_on_fail() {
    let mut data = Data::new();
    let report = |d: &str| format!("data/meta/reconciliation/binance/{d}.json");
    data.reports.insert(report("2026-06-08"), document("pass"));
    data.reports.insert(report("2026-06-07"), document("pass"));
    data.reports.insert(report("2026-06-06"), document("fail"));

    let pts = vec![point("BTCUSDT", 8, "0.0001")];
    data.publish_day(DAY, &pts);
    let (_, _, report) = data.run(&pts, false);
    assert_eq!(report.unwrap().consecutive_green_days, 3);
}

#[test]
fn existing_report_is_honored_unless_forced() {
    let mut pts = vec![point("BTCUSDT", 8, "0.0001")];
    let mut data = Data::new();
    data.publish_day(DAY, &pts);
    let (_, skipped, _) = data.run(&pts, false);
    assert!(!skipped);

    pts.push(point("ETHUSDT", 8, "1"));
    let (status, skipped, _) = data.run(&pts, false);
    assert!(skipped);
    assert_eq!(status, ReconcileStatus::Pass);

    let (status, skipped, _) = data.run(&pts, true);
    assert!(!skipped);
    assert_eq!(status, ReconcileStatus::Fail);
}

#[test]
fn the_paths_of_a_day() {
    let p = plan("data", "binance", &Date::parse_iso("2026-06-30").unwrap());
    assert_eq!(p.reports_dir, "data/meta/reconciliation/binance");
    assert_eq!(p.report_path, "data/meta/reconciliation/binance/2026-06-30.json");
    assert_eq!(p.day_dir, "data/parquet/binance/2026-06-30");
    assert_eq!(p.next_dir, "data/parquet/binance/2026-07-01");
    assert_eq!(p.next_wal, "data/wal/binance/2026-07-01.wal");
    assert_eq!(p.end_ns - p.start_ns, 86_400_000_000_000);
}

#[test]
fn only_settlements_of_the_day_are_captured() {
    let start = DAY_START_MS * 1_000_000;
    let end = start + 86_400_000_000_000;
    let e = realized(&point("BTCUSDT", 8, "0.0001"));
    assert!(settlement_of(&e, start, end).is_some());
    assert!(settlement_of(&realized(&point("BTCUSDT", 24, "0.0001")), start, end).is_none());
    let mut nameless = realized(&point("BTCUSDT", 8, "0.0001"));
    nameless.instrument = None;
    assert!(settlement_of(&nameless, start, end).is_none());
    let mut captured: TimedMap<u64> = TimedMap::new();
    capture_row(&mut captured, "btcusdt", end, 1, start, end);
    assert!(captured.keys.is_empty());
    capture_row(&mut captured, "btcusdt", start, 1, start, end);
    capture_row(&mut captured, "btcusdt", start, 2, start, end);
    assert_eq!(captured.values, vec![2], "the later row counts");
}

#[test]
fn statuses_read_back() {
    for s in [ReconcileStatus::Pass, ReconcileStatus::Fail, ReconcileStatus::Blocked] {
        assert_eq!(report_status(Some(status_str(s)), "p").unwrap(), s);
    }
    let unknown = report_status(Some("odd"), "p.json").unwrap_err();
    assert_eq!(
        unknown.message(),
        "parse: unknown report status Some(\"odd\") in p.json"
    );
    assert_eq!(
        report_status(None, "p.json").unwrap_err().message(),
        "parse: unknown report status None in p.json"
    );
}

#[test]
fn a_published_day_opens_the_gate() {
    let shown = |v: Option<&str>, s: &str| Marker::Status {
        value: v.map(|x| x.to_string()),
        shown: s.to_string(),
    };
    assert_eq!(publish_gate(&shown(Some("pass"), "String(\"pass\")"), "m", "d"), None);
    assert_eq!(
        publish_gate(&shown(Some("fail"), "String(\"fail\")"), "m", "d"),
        Some("QA status String(\"fail\") for d".to_string())
    );
    assert_eq!(
        publish_gate(&Marker::Unreadable("eof".to_string()), "m", "d"),
        Some("unreadable QA report: eof".to_string())
    );
    assert_eq!(publish_gate(&Marker::Missing, "m", "d"), Some("not published: m missing".to_string()));
}

#[test]
fn exit_codes_tell_the_verdict() {
    assert_eq!(exit_code(ReconcileStatus::Pass), 0);
    assert_ne!(exit_code(ReconcileStatus::Fail), 0);
    assert_ne!(exit_code(ReconcileStatus::Blocked), 0);
}

#[test]
fn a_streak_ends_at_the_first_other_day() {
    let mut scan = GreenScan::new();
    assert!(scan.next(Some(ReconcileStatus::Pass)));
    assert!(scan.next(Some(ReconcileStatus::Pass)));
    assert!(!scan.next(Some(ReconcileStatus::Blocked)));
    assert!(!scan.next(Some(ReconcileStatus::Pass)));
    assert_eq!(scan.days, 2);

    let mut scan = GreenScan::new();
    assert!(!scan.next(None));
    assert_eq!(scan.days, 0);
}

#[test]
fn a_streak_is_read_from_reports() {
    let mut scan = GreenScan::new();
    assert!(scan.next_report(Some(&document("pass")), "p"));
    assert!(!scan.next_report(Some(b"{}"), "p"), "no status is no report");
    assert_eq!(scan.days, 1);
    assert!(!GreenScan::new().next_report(None, "p"));
    assert!(!GreenScan::new().next_report(Some(&document("fail")), "p"));
}

#[test]
fn a_streak_is_looked_back_for_so_long() {
    let mut scan = GreenScan::new();
    for _ in 1..400 {
        assert!(scan.next(Some(ReconcileStatus::Pass)));
    }
    assert!(!scan.next(Some(ReconcileStatus::Pass)));
    assert_eq!(scan.days, 400);
    assert!(!scan.next(Some(ReconcileStatus::Pass)));
    assert_eq!(scan.days, 400);
}
