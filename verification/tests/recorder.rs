//! Recording: counters, log routing, conversion and the sweep.
use std::collections::{BTreeMap, BTreeSet};
use trading_data::calendar::Date;
use trading_data::decimal::Decimal;
use trading_data::events::{control_event, Event};
use trading_data::payloads::{ControlPayload, MarketPayload, Payload, ReferencePayload};
use trading_data::recorder::convert::{refusal, Tables};
use trading_data::recorder::qa::report::QaStatus;
use trading_data::recorder::stats::{
    tally, CaptureStats, EventKind, Seen, StatsSink, WriterStats, KINDS,
};
use trading_data::recorder::sweep::{
    age_gate, first_step, is_due, next_step, outcome_line, problems, publish_paths, step_failed,
    summary_line, wal_files, PublishStep, SweepOutcome, SweepResult, FRESH_GUARD_NS,
};
use trading_data::recorder::sweep::run::{SweepAction, VenueSweep};
use trading_data::recorder::tables::{
    aggressor_str, batch_due, book_side_str, control_kind, reference_kind, BookSide, EnvelopeCols,
    BATCH_ROWS,
};
use trading_data::recorder::wal::{sync_due, sync_wait, LogBook, FSYNC_INTERVAL_NS};
use trading_data::types::{
    AggressorSide, Asset, Instrument, InstrumentClass, InstrumentId, Level, LifecycleState,
    Linearity, Nanos, RawFrame, SourceId, Trade, VenueId,
};
use trading_data::wire::frame::{decode_frame, encode_frame};
use trading_data::wire::reader::{FrameReader, Progress};

fn dec(s: &str) -> Decimal {
    Decimal::parse(s).unwrap()
}

fn level(price: &str, qty: &str) -> Level {
    Level { price: dec(price), qty: dec(qty) }
}

fn event(payload: Payload) -> Event {
    Event {
        venue: VenueId { value: "t".to_string() },
        instrument: None,
        venue_ts: None,
        local_ts: 1_700_000_000_000_000_000,
        source: SourceId(1),
        provenance: None,
        payload,
    }
}

fn book_ticker() -> Event {
    event(Payload::Market(MarketPayload::BookTicker {
        best_bid: level("1", "1"),
        best_ask: level("2", "1"),
        update_id: 1,
    }))
}

fn conn_down() -> Event {
    event(Payload::Control(ControlPayload::ConnDown {
        label: "ws-1".to_string(),
        reason: "test".to_string(),
    }))
}

#[test]
fn stats_sink_counts_per_kind_and_conn_down() {
    let mut sink: StatsSink<Vec<String>> = StatsSink::new(Vec::new());
    let now = 1_700_000_001_000_000_000;
    for e in [book_ticker(), book_ticker(), conn_down()] {
        let seen = vec![Seen::of(&e)];
        sink.inner.push(format!("{e:?}"));
        sink.answered(&seen, true, now);
    }
    let batch = vec![book_ticker(), conn_down()];
    let seen = tally(&batch);
    for e in &batch {
        sink.inner.push(format!("{e:?}"));
    }
    sink.answered(&seen, true, now);

    let stats = sink.stats();
    assert_eq!(stats.total(), 5);
    assert_eq!(stats.count(EventKind::BookTicker), 3);
    assert_eq!(stats.count(EventKind::Control), 2);
    assert_eq!(stats.count(EventKind::Trades), 0);
    assert_eq!(stats.conn_down(), 2);
    assert!(stats.staleness(EventKind::BookTicker, now + 7).is_some());
    assert!(stats.staleness(EventKind::Trades, now + 7).is_none());
    assert_eq!(sink.inner.len(), 5);
}

#[test]
fn stats_sink_does_not_count_rejected_events() {
    // A sink that refuses: nothing was accepted, so nothing is counted.
    let mut sink: StatsSink<()> = StatsSink::new(());
    sink.answered(&vec![Seen::of(&book_ticker())], false, 1_700_000_001_000_000_000);
    sink.answered(&tally(&vec![conn_down(), book_ticker()]), false, 1_700_000_001_000_000_000);
    assert_eq!(sink.stats().total(), 0);
    assert_eq!(sink.stats().conn_down(), 0);
}

#[test]
fn event_kind_snapshot_roundtrip() {
    let mut stats = CaptureStats::new();
    stats.record(EventKind::Trades, 3, 1_700_000_000_000_000_000, 0);
    let snap = stats.snapshot();
    assert_eq!(snap.total, 3);
    assert_eq!(snap.by_kind[EventKind::Trades.index()], 3);
    assert_eq!(EventKind::of(&conn_down().payload), EventKind::Control);
    assert_eq!(EventKind::Trades.name(), "trades");
    let all = EventKind::all();
    assert_eq!(all.len(), KINDS);
    for (i, k) in all.iter().enumerate() {
        assert_eq!(k.index(), i);
    }
}

#[test]
fn writer_counters() {
    let mut w = WriterStats::default();
    w.record_enqueued();
    w.record_enqueued();
    w.record_dequeued();
    w.record_written();
    w.record_dropped();
    assert_eq!(w.queue_depth(), 1);
    assert_eq!((w.written(), w.dropped()), (1, 1));
    assert_eq!(w.fsync_age(10), None);
    w.record_fsync(4);
    assert_eq!(w.fsync_age(10), Some(6));
    assert_eq!(w.fsync_age(1), Some(0));
}

fn make_event(i: u64, local_ts: Nanos) -> Event {
    Event {
        venue: VenueId { value: "test_venue".to_string() },
        instrument: Some(InstrumentId { value: "btcusdt".to_string() }),
        venue_ts: Some(local_ts - 100_000_000),
        local_ts,
        source: SourceId(1),
        provenance: None,
        payload: Payload::Market(MarketPayload::BookTicker {
            best_bid: level(&(50_000 + i).to_string(), "1.0"),
            best_ask: level(&(50_001 + i).to_string(), "2.0"),
            update_id: 1000 + i,
        }),
    }
}

/// A log of the events whose payloads are their positions.
fn log_of(n: usize) -> Vec<u8> {
    let mut buf = Vec::new();
    for i in 0..n {
        encode_frame(&(i as u64).to_le_bytes(), &mut buf).unwrap();
    }
    buf
}

/// Write events the way the writer does: each to the file it is routed to.
fn write_all(events: &[Event], today: &Date) -> BTreeMap<String, Vec<u8>> {
    let mut book = LogBook::new("base", "wal");
    let mut files: BTreeMap<String, Vec<u8>> = BTreeMap::new();
    for (i, e) in events.iter().enumerate() {
        let r = book.route(&e.venue.value, e.local_ts, today);
        assert_eq!(r.opened, !files.contains_key(&r.path));
        let file = files.entry(r.path).or_default();
        encode_frame(&(i as u64).to_le_bytes(), file).unwrap();
    }
    files
}

#[test]
fn test_wal_write_read() {
    let events: Vec<Event> = (0..5)
        .map(|i| make_event(i, 1_700_000_000_100_000_000 + i * 1_000_000_000))
        .collect();
    let files = write_all(&events, &Date::parse_iso("2023-11-14").unwrap());
    assert_eq!(files.len(), 1, "expected exactly one WAL file");
    let data = &files["base/test_venue/2023-11-14.wal"];

    let mut offset = 0;
    let mut decoded_events = Vec::new();
    while offset < data.len() {
        let (payload, consumed) = decode_frame(&data[offset..]).unwrap();
        let i = u64::from_le_bytes(payload.as_slice().try_into().unwrap());
        decoded_events.push(&events[i as usize]);
        offset += consumed;
    }
    assert_eq!(decoded_events.len(), 5);
    for (i, event) in decoded_events.iter().enumerate() {
        assert_eq!(event.venue.value, "test_venue");
        assert_eq!(event.instrument.as_ref().unwrap().value, "btcusdt");
        assert_eq!(event.source, SourceId(1));
        match &event.payload {
            Payload::Market(MarketPayload::BookTicker { best_bid, best_ask, update_id }) => {
                assert_eq!(*update_id, 1000 + i as u64);
                assert!(best_bid.price.same_value(&dec(&(50_000 + i).to_string())));
                assert!(best_ask.price.same_value(&dec(&(50_001 + i).to_string())));
            }
            other => panic!("unexpected payload at index {i}: {other:?}"),
        }
    }
}

#[test]
fn test_wal_routes_by_local_ts_date() {
    let day1 = 1_700_000_000_000_000_000u64;
    let day2 = day1 + 86_400_000_000_000;
    let files = write_all(
        &[make_event(0, day1), make_event(1, day2)],
        &Date::parse_iso("2023-11-14").unwrap(),
    );
    let names: Vec<&str> = files.keys().map(|p| p.rsplit('/').next().unwrap()).collect();
    assert_eq!(names, ["2023-11-14.wal", "2023-11-15.wal"]);
}

#[test]
fn test_raw_wal_roundtrip() {
    let frames = vec![
        RawFrame {
            local_ts: 1_700_000_000_000_000_000,
            source: SourceId(1),
            bytes: br#"{"e":"bookTicker","s":"BTCUSDT"}"#.to_vec(),
        },
        RawFrame {
            local_ts: 1_700_000_000_000_000_001,
            source: SourceId(2),
            bytes: vec![0xDE, 0xAD, 0xBE, 0xEF],
        },
    ];
    let today = Date::parse_iso("2023-11-14").unwrap();
    let mut book = LogBook::new("base", "rawwal");
    let mut file = Vec::new();
    for f in &frames {
        let r = book.route("test_venue", f.local_ts, &today);
        assert_eq!(r.path, "base/test_venue/2023-11-14.rawwal");
        let packed = rmp_serde::to_vec(&(f.local_ts, f.source.0, &f.bytes)).unwrap();
        encode_frame(&packed, &mut file).unwrap();
    }

    let mut reader = FrameReader::new();
    reader.fill(&file);
    reader.fill(&[]);
    let mut decoded: Vec<RawFrame> = Vec::new();
    while let Progress::Frame(p) = reader.next_frame().unwrap() {
        let (local_ts, source, bytes): (u64, u16, Vec<u8>) = rmp_serde::from_slice(&p).unwrap();
        reader.settle(true);
        decoded.push(RawFrame { local_ts, source: SourceId(source), bytes });
    }
    assert_eq!(decoded.len(), 2);
    assert_eq!(decoded[0].bytes, frames[0].bytes);
    assert_eq!(decoded[0].source, SourceId(1));
    assert_eq!(decoded[1].bytes, frames[1].bytes);
}

#[test]
fn logs_of_past_days_close_at_midnight() {
    let d1 = Date::parse_iso("2023-11-14").unwrap();
    let d2 = Date::parse_iso("2023-11-15").unwrap();
    let day1 = 1_700_000_000_000_000_000u64;
    let mut book = LogBook::new("base", "wal");
    assert!(!book.route("v", day1, &d1).late);
    book.route("v", day1 + 86_400_000_000_000, &d2);
    let closed = book.rotate(&d2);
    assert_eq!(closed.len(), 1);
    assert_eq!(closed[0].path, "base/v/2023-11-14.wal");
    assert_eq!(book.open.len(), 1);
    let reopened = book.route("v", day1, &d2);
    assert!(reopened.opened && reopened.late, "a backlog reopens the day for a moment");
    assert_eq!(sync_wait(FSYNC_INTERVAL_NS + 1), 0);
    assert_eq!(sync_wait(1), FSYNC_INTERVAL_NS - 1);
    assert!(sync_due(FSYNC_INTERVAL_NS) && !sync_due(FSYNC_INTERVAL_NS - 1));
}

fn base_event(i: u64, payload: Payload) -> Event {
    Event {
        venue: VenueId { value: "test_venue".to_string() },
        instrument: Some(InstrumentId { value: "btcusdt".to_string() }),
        venue_ts: Some(1_700_000_000_000_000_000 + i * 1_000_000),
        local_ts: 1_700_000_000_100_000_000 + i * 1_000_000,
        source: SourceId(1),
        provenance: None,
        payload,
    }
}

fn make_events(n: u64) -> Vec<Event> {
    let mut events = Vec::new();
    for i in 0..n {
        events.push(base_event(
            i,
            Payload::Market(MarketPayload::BookTicker {
                best_bid: level("50000", "1"),
                best_ask: level("50001", "2"),
                update_id: i,
            }),
        ));
    }
    events.push(base_event(
        n,
        Payload::Market(MarketPayload::BookUpdate {
            bids: vec![level("49999", "3")],
            asks: vec![],
            first_update_id: 157,
            final_update_id: 160,
            prev_final_update_id: Some(149),
            event_time: Some(1_700_000_000_000_000_111),
        }),
    ));
    events.push(base_event(
        n + 1,
        Payload::Market(MarketPayload::Trades {
            trades: vec![Trade {
                id: "42".to_string(),
                price: dec("50000.5"),
                qty: dec("0.25"),
                aggressor_side: AggressorSide::Buy,
                kind: Some("MARKET".to_string()),
            }],
        }),
    ));
    let mut conn_up = base_event(
        n + 2,
        Payload::Control(ControlPayload::ConnUp { label: "ws-1".to_string() }),
    );
    conn_up.instrument = None;
    conn_up.venue_ts = None;
    events.push(conn_up);
    events
}

fn tables_of(bytes: &[u8], events: &[Event]) -> (Tables, u64) {
    let mut reader = FrameReader::new();
    reader.fill(bytes);
    reader.fill(&[]);
    let mut tables = Tables::new();
    while let Progress::Frame(p) = reader.next_frame().unwrap() {
        reader.settle(true);
        let i = u64::from_le_bytes(p.as_slice().try_into().unwrap());
        tables.route(&events[i as usize]);
    }
    (tables, reader.stats().skipped_bytes)
}

#[test]
fn events_are_routed_to_their_tables() {
    let events = make_events(10);
    let (t, _) = tables_of(&log_of(events.len()), &events);
    assert_eq!(t.book_ticker.len(), 10);
    assert_eq!(t.book_ticker[3].update_id, 3);
    assert_eq!(t.book_update.len(), 1);
    assert_eq!(t.book_update[0].first_update_id, 157);
    assert_eq!(t.book_update[0].prev_final_update_id, Some(149));
    assert_eq!(t.book_update[0].event_time, Some(1_700_000_000_000_000_111));
    assert_eq!(t.trades[0].trade_id, "42");
    assert_eq!(t.control.len(), 1, "a control event needs no instrument");
    assert!(t.liquidation.is_empty() && t.open_interest.is_empty() && t.reference.is_empty());
    assert_eq!(t.skipped_no_instrument, 0);
}

#[test]
fn market_events_without_instrument_are_counted_and_left_out() {
    let mut t = Tables::new();
    t.route(&book_ticker());
    assert!(t.book_ticker.is_empty());
    assert_eq!(t.skipped_no_instrument, 1);
}

#[test]
fn convert_recovers_past_one_corrupt_frame() {
    let events = make_events(2000);
    let mut buf = log_of(events.len());
    let mid = buf.len() / 2;
    buf[mid] ^= 0xFF;
    let (t, skipped) = tables_of(&buf, &events);
    assert!(refusal(skipped, buf.len() as u64).is_none());
    let rows = t.book_ticker.len();
    assert!(
        (1998..2000).contains(&rows),
        "all but the corrupted frame(s) survive, got {rows}"
    );
}

#[test]
fn a_log_that_is_mostly_damage_is_refused() {
    assert!(refusal(1, 100).is_none());
    assert!(refusal(2, 100).is_some());
    assert!(refusal(0, 0).is_none());
}

#[test]
fn reference_events_convert_to_typed_rows() {
    let instrument = || Instrument {
        id: InstrumentId { value: "newusdt".to_string() },
        class: InstrumentClass::Perp,
        base: Asset("NEW".to_string()),
        quote: Asset("USDT".to_string()),
        tick_size: Some(dec("0.001")),
        lot_size: Some(dec("1")),
        min_notional: Some(dec("5")),
        contract_multiplier: None,
        settle_ccy: Some(Asset("USDT".to_string())),
        linearity: Some(Linearity::Linear),
        funding_interval: Some(8 * 3600 * 1_000_000_000),
        lifecycle: LifecycleState::Trading,
    };
    let mut events = vec![
        base_event(
            0,
            Payload::Reference(ReferencePayload::InstrumentAdded { instrument: instrument() }),
        ),
        base_event(
            1,
            Payload::Reference(ReferencePayload::InstrumentChanged { instrument: instrument() }),
        ),
        base_event(
            2,
            Payload::Reference(ReferencePayload::InstrumentDelisted {
                instrument_id: InstrumentId { value: "newusdt".to_string() },
            }),
        ),
        base_event(
            3,
            Payload::Reference(ReferencePayload::MarketResolved { outcome: "yes".to_string() }),
        ),
    ];
    for e in &mut events {
        e.instrument = Some(InstrumentId { value: "newusdt".to_string() });
    }
    let (t, _) = tables_of(&log_of(events.len()), &events);
    assert_eq!(t.reference.len(), 4);
    let kinds: Vec<&str> = t.reference.iter().map(|r| reference_kind(&r.payload)).collect();
    assert_eq!(
        kinds,
        ["instrument_added", "instrument_changed", "instrument_delisted", "market_resolved"]
    );
    // The row keeps the full payload.
    match &t.reference[0].payload {
        ReferencePayload::InstrumentAdded { instrument } => {
            assert!(instrument.tick_size.unwrap().same_value(&dec("0.001")));
        }
        other => panic!("unexpected payload: {other:?}"),
    }
}

#[test]
fn names_in_tables() {
    assert_eq!(aggressor_str(AggressorSide::Buy), "buy");
    assert_eq!(aggressor_str(AggressorSide::Sell), "sell");
    assert_eq!(book_side_str(BookSide::Bid), "bid");
    assert_eq!(book_side_str(BookSide::Ask), "ask");
    assert_eq!(control_kind(&ControlPayload::SnapshotBegin), "snapshot_begin");
    assert!(batch_due(BATCH_ROWS) && !batch_due(BATCH_ROWS - 1));
    let mut cols = EnvelopeCols::new();
    assert!(cols.is_empty());
    cols.push("btcusdt", Some(5), u64::MAX, SourceId(3));
    assert_eq!(cols.len(), 1);
    assert_eq!(cols.venue_ts, vec![Some(5)]);
    assert_eq!(cols.local_ts, vec![-1]);
    assert_eq!(cols.source, vec![3]);
    let e = control_event(
        &VenueId { value: "v".to_string() },
        9,
        SourceId(2),
        ControlPayload::SnapshotEnd,
    );
    assert!(e.instrument.is_none() && e.venue_ts.is_none() && e.local_ts == 9);
}

/// The sweep over paths kept in memory.
struct Disk {
    /// Log names with their ages in seconds.
    logs: BTreeMap<String, u64>,
    paths: BTreeSet<String>,
    /// What conversion and judgement give.
    converts: bool,
    verdict: QaStatus,
    /// A step that fails.
    fails: Option<PublishStep>,
}

impl Disk {
    fn new() -> Disk {
        Disk {
            logs: BTreeMap::new(),
            paths: BTreeSet::new(),
            converts: true,
            verdict: QaStatus::Pass,
            fails: None,
        }
    }

    fn under(&self, dir: &str) -> bool {
        self.paths.iter().any(|p| p.starts_with(&format!("{dir}/")))
    }

    fn clear(&mut self, dir: &str) {
        self.paths.retain(|p| !p.starts_with(&format!("{dir}/")));
    }

    fn sweep(&mut self, as_of: &Date) -> Vec<SweepOutcome> {
        let names: Vec<String> = self.logs.keys().cloned().collect();
        let mut run = VenueSweep::new(
            "binance".to_string(),
            "wal/binance".to_string(),
            "parquet".to_string(),
            *as_of,
            wal_files(&names),
        );
        loop {
            match run.action() {
                SweepAction::Probe { marker } => run.probed(self.paths.contains(&marker)),
                SweepAction::Convert { wal_path, date, .. } => {
                    let age = self.logs[wal_path.trim_start_matches("wal/binance/")];
                    let result = match age_gate(&Ok(age * 1_000_000_000)) {
                        Some(r) => r,
                        None => self.publish(&date),
                    };
                    run.converted(result);
                }
                SweepAction::Done => return run.outcomes,
            }
        }
    }

    fn publish(&mut self, date: &Date) -> SweepResult {
        let p = publish_paths("parquet", "binance", date);
        let final_exists = self.under(&p.final_dir);
        let mut step = first_step(self.under(&p.tmp_dir), final_exists);
        let mut status = self.verdict;
        loop {
            if self.fails == Some(step) {
                return step_failed(step, "no space");
            }
            match step {
                PublishStep::CleanTmp => self.clear(&p.tmp_dir),
                PublishStep::CleanOutput => self.clear(&p.final_dir),
                PublishStep::Convert => {
                    if self.converts {
                        self.paths.insert(format!("{}/book_update.parquet", p.tmp_dir));
                    } else {
                        status = QaStatus::Fail;
                    }
                }
                PublishStep::WriteReport => {
                    self.paths.insert(p.report_part.clone());
                }
                PublishStep::FinalizeReport => {
                    self.paths.remove(&p.report_part);
                    self.paths.insert(p.tmp_report.clone());
                }
                PublishStep::Publish => {
                    let moved: Vec<String> = self
                        .paths
                        .iter()
                        .filter(|x| x.starts_with(&p.tmp_dir))
                        .map(|x| x.replace(&p.tmp_dir, &p.final_dir))
                        .collect();
                    self.clear(&p.tmp_dir);
                    self.paths.extend(moved);
                }
                PublishStep::Done => {
                    return SweepResult::Converted { status, report_path: p.report };
                }
                _ => {}
            }
            step = next_step(step, final_exists);
        }
    }
}

const OLD: u64 = 3600;

fn as_of() -> Date {
    Date::parse_iso("2026-06-11").unwrap()
}

#[test]
fn closed_day_converted_with_marker_then_skipped() {
    let mut disk = Disk::new();
    disk.logs.insert("2026-06-10.wal".to_string(), OLD);
    let outcomes = disk.sweep(&as_of());
    assert_eq!(outcomes.len(), 1);
    assert!(matches!(
        outcomes[0].result,
        SweepResult::Converted { status: QaStatus::Pass, .. }
    ));
    assert!(disk.paths.contains("parquet/binance/2026-06-10/qa_report.json"));
    assert!(disk.paths.contains("parquet/binance/2026-06-10/book_update.parquet"));
    assert!(!disk.under("parquet/binance/.tmp-2026-06-10"));

    assert!(disk.sweep(&as_of()).is_empty());
}

#[test]
fn open_day_not_touched() {
    let mut disk = Disk::new();
    disk.logs.insert("2026-06-11.wal".to_string(), OLD);
    assert!(disk.sweep(&as_of()).is_empty());
    assert!(!disk.under("parquet/binance/2026-06-11"));
}

#[test]
fn fresh_mtime_guard_skips() {
    let mut disk = Disk::new();
    disk.logs.insert("2026-06-10.wal".to_string(), 0);
    let outcomes = disk.sweep(&as_of());
    assert_eq!(outcomes.len(), 1);
    assert!(matches!(outcomes[0].result, SweepResult::SkippedFresh));
    assert!(!disk.under("parquet/binance/2026-06-10"));
    assert!(age_gate(&Ok(FRESH_GUARD_NS)).is_none());
    assert!(matches!(
        age_gate(&Err("gone".to_string())),
        Some(SweepResult::Failed(e)) if e == "stat failed: gone"
    ));
}

#[test]
fn stale_tmp_and_markerless_output_recovered() {
    let mut disk = Disk::new();
    disk.logs.insert("2026-06-10.wal".to_string(), OLD);
    disk.paths.insert("parquet/binance/.tmp-2026-06-10/junk".to_string());
    disk.paths.insert("parquet/binance/2026-06-10/orphan.parquet".to_string());
    let outcomes = disk.sweep(&as_of());
    assert_eq!(outcomes.len(), 1);
    assert!(matches!(
        outcomes[0].result,
        SweepResult::Converted { status: QaStatus::Pass, .. }
    ));
    assert!(disk.paths.contains("parquet/binance/2026-06-10/qa_report.json"));
    assert!(!disk.paths.contains("parquet/binance/2026-06-10/orphan.parquet"));
    assert!(!disk.under("parquet/binance/.tmp-2026-06-10"));
}

#[test]
fn corrupt_wal_publishes_failing_report() {
    let mut disk = Disk::new();
    disk.logs.insert("2026-06-10.wal".to_string(), OLD);
    disk.converts = false;
    let outcomes = disk.sweep(&as_of());
    assert_eq!(outcomes.len(), 1);
    match &outcomes[0].result {
        SweepResult::Converted { status, report_path } => {
            assert_eq!(*status, QaStatus::Fail);
            assert!(disk.paths.contains(report_path));
        }
        other => panic!("expected published failing report, got {other:?}"),
    }
    assert!(disk.sweep(&as_of()).is_empty());
}

#[test]
fn non_date_and_non_wal_files_ignored() {
    let mut disk = Disk::new();
    disk.logs.insert("notes.txt".to_string(), OLD);
    disk.logs.insert("garbage.wal".to_string(), OLD);
    assert!(disk.sweep(&as_of()).is_empty());
}

#[test]
fn a_failed_step_leaves_no_marker() {
    for (step, text) in [
        (PublishStep::CreateTmp, "create tmp dir: no space"),
        (PublishStep::Judge, "qa pass failed: no space"),
        (PublishStep::WriteReport, "write report: no space"),
        (PublishStep::FinalizeReport, "finalize report: no space"),
        (PublishStep::Publish, "publish: no space"),
    ] {
        let mut disk = Disk::new();
        disk.logs.insert("2026-06-10.wal".to_string(), OLD);
        disk.fails = Some(step);
        let outcomes = disk.sweep(&as_of());
        assert!(matches!(&outcomes[0].result, SweepResult::Failed(e) if e == text), "{text}");
        assert!(!disk.paths.contains("parquet/binance/2026-06-10/qa_report.json"));
        disk.fails = None;
        assert_eq!(disk.sweep(&as_of()).len(), 1, "the next sweep tries again");
    }
}

#[test]
fn outcomes_are_told_in_lines() {
    let date = Date::parse_iso("2026-06-10").unwrap();
    let outcome = |result: SweepResult| SweepOutcome {
        venue: "binance".to_string(),
        date,
        wal_path: "w".to_string(),
        result,
    };
    let converted = |status: QaStatus| SweepResult::Converted {
        status,
        report_path: "r.json".to_string(),
    };
    let outcomes = vec![
        outcome(converted(QaStatus::Pass)),
        outcome(converted(QaStatus::Fail)),
        outcome(SweepResult::Failed("x".to_string())),
        outcome(SweepResult::SkippedFresh),
    ];
    let lines: Vec<String> = outcomes.iter().map(outcome_line).collect();
    assert_eq!(
        lines,
        [
            "binance/2026-06-10: PASS (r.json)",
            "binance/2026-06-10: FAIL (r.json)",
            "binance/2026-06-10: ERROR x",
            "binance/2026-06-10: skipped (recently written)",
        ]
    );
    assert_eq!(problems(&outcomes), 2);
    assert_eq!(summary_line(4, &as_of(), 2), "swept 4 file(s) as of 2026-06-11, 2 problem(s)");
}

#[test]
fn logs_are_swept_earliest_first() {
    let names: Vec<String> =
        ["2026-06-12.wal", "2026-06-10.wal", "2026-06-11.wal", ".wal", "2026-06-11.rawwal"]
            .iter()
            .map(|s| s.to_string())
            .collect();
    let days: Vec<String> = wal_files(&names).iter().map(|w| w.date.to_text()).collect();
    assert_eq!(days, ["2026-06-10", "2026-06-11", "2026-06-12"]);
}

#[test]
fn a_sweep_reports_what_was_due_and_is_silent_after() {
    let date = |s: &str| Date::parse_ymd(s).unwrap();
    let as_of = date("2026-06-12");
    assert!(is_due(&date("2026-06-11"), &as_of, false));
    assert!(!is_due(&date("2026-06-11"), &as_of, true));
    assert!(!is_due(&as_of, &as_of, false));

    let mut disk = Disk::new();
    for day in ["2026-06-12", "2026-06-10", "2026-06-09", "2026-06-11"] {
        disk.logs.insert(format!("{day}.wal"), 3600);
    }
    disk.paths.insert("parquet/binance/2026-06-10/qa_report.json".to_string());
    // One that fails does not stop the rest, and is tried again.
    disk.fails = Some(PublishStep::Judge);
    let days = |o: &Vec<SweepOutcome>| o.iter().map(|x| x.date.to_text()).collect::<Vec<String>>();
    let failed = disk.sweep(&as_of);
    assert_eq!(days(&failed), ["2026-06-09", "2026-06-11"]);
    assert_eq!(problems(&failed), 2);
    disk.fails = None;
    let converted = disk.sweep(&as_of);
    assert_eq!(days(&converted), ["2026-06-09", "2026-06-11"]);
    assert_eq!(problems(&converted), 0);
    assert!(disk.sweep(&as_of).is_empty());
}

#[test]
fn a_depth_is_never_negative() {
    let mut w = WriterStats::default();
    w.record_dequeued();
    assert_eq!(w.queue_depth(), 0);
    w.record_enqueued();
    assert_eq!(w.queue_depth(), 0);
    w.record_enqueued();
    assert_eq!(w.queue_depth(), 1);
}
