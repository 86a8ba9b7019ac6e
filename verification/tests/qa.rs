//! The daily quality report.
use trading_data::decimal::Decimal;
use trading_data::events::Event;
use trading_data::payloads::{ControlPayload, MarketPayload, Payload};
use trading_data::recorder::qa::accumulator::Accumulator;
use trading_data::recorder::qa::histogram::Histogram;
use trading_data::recorder::qa::report::{
    fatal_failure, FrameStats, QaError, QaReport, QaStatus,
};
use trading_data::types::{AggressorSide, InstrumentId, Level, Nanos, SourceId, Trade, VenueId};
use trading_data::wire::frame::{encode_frame, WireError};
use trading_data::wire::reader::{FrameReader, Progress};

const T0: Nanos = 1_700_000_000_000_000_000;
const SEC: Nanos = 1_000_000_000;
const MAX_SKIPPED_RATIO: f64 = 0.01;

fn dec(s: &str) -> Decimal {
    Decimal::parse(s).unwrap()
}

fn event(instrument: &str, local_ts: Nanos, source: u16, payload: Payload) -> Event {
    Event {
        venue: VenueId { value: "binance".to_string() },
        instrument: if instrument.is_empty() {
            None
        } else {
            Some(InstrumentId { value: instrument.to_string() })
        },
        venue_ts: Some(local_ts.saturating_sub(50_000_000)),
        local_ts,
        source: SourceId(source),
        provenance: None,
        payload,
    }
}

fn book_update(
    inst: &str,
    ts: Nanos,
    source: u16,
    first: u64,
    last: u64,
    pu: Option<u64>,
) -> Event {
    event(
        inst,
        ts,
        source,
        Payload::Market(MarketPayload::BookUpdate {
            bids: vec![],
            asks: vec![],
            first_update_id: first,
            final_update_id: last,
            prev_final_update_id: pu,
            event_time: Some(ts.saturating_sub(40_000_000)),
        }),
    )
}

fn snapshot(inst: &str, ts: Nanos, last_update_id: u64) -> Event {
    event(
        inst,
        ts,
        0,
        Payload::Market(MarketPayload::BookSnapshot {
            bids: vec![Level { price: dec("1"), qty: dec("1") }],
            asks: vec![],
            last_update_id,
        }),
    )
}

fn trades(inst: &str, ts: Nanos, source: u16, ids: &[&str]) -> Event {
    event(
        inst,
        ts,
        source,
        Payload::Market(MarketPayload::Trades {
            trades: ids
                .iter()
                .map(|id| Trade {
                    id: id.to_string(),
                    price: dec("100"),
                    qty: dec("1"),
                    aggressor_side: AggressorSide::Buy,
                    kind: None,
                })
                .collect(),
        }),
    )
}

fn conn_down(ts: Nanos, source: u16) -> Event {
    event(
        "",
        ts,
        source,
        Payload::Control(ControlPayload::ConnDown {
            label: "ws-1".to_string(),
            reason: "test".to_string(),
        }),
    )
}

/// A log in which a frame's payload is the position of its event.
fn write_wal(events: &[Event]) -> Vec<u8> {
    let mut bytes = Vec::new();
    for i in 0..events.len() {
        encode_frame(&(i as u64).to_le_bytes(), &mut bytes).unwrap();
    }
    bytes
}

fn qa_bytes(bytes: &[u8], events: &[Event]) -> QaReport {
    let mut acc = Accumulator::new();
    let mut reader = FrameReader::new();
    let mut failures = Vec::new();
    reader.fill(bytes);
    if !bytes.is_empty() {
        reader.fill(&[]);
    }
    loop {
        match reader.next_frame() {
            Ok(Progress::Frame(p)) => {
                reader.settle(true);
                let i = u64::from_le_bytes(p.as_slice().try_into().unwrap());
                acc.push(&events[i as usize]);
            }
            Ok(Progress::NeedBytes) => panic!("all bytes were handed in"),
            Ok(Progress::End) => break,
            Err(e) => {
                failures.push(fatal_failure(acc.total(), &e));
                break;
            }
        }
    }
    let s = *reader.stats();
    let frames = FrameStats {
        frames_ok: s.frames_ok,
        skipped_bytes: s.skipped_bytes,
        resyncs: s.resyncs,
        undecodable_frames: s.undecodable_frames,
        truncated_tail: s.truncated_tail,
    };
    let ratio = format!("{:.4}", skipped_ratio(s.skipped_bytes, bytes.len() as u64));
    acc.finish(
        "binance",
        "2026-06-10",
        "a.wal",
        bytes.len() as u64,
        "now",
        frames,
        &ratio,
        failures,
    )
}

fn skipped_ratio(skipped: u64, bytes: u64) -> f64 {
    skipped as f64 / bytes.max(1) as f64
}

fn qa(events: &[Event]) -> QaReport {
    qa_bytes(&write_wal(events), events)
}

#[test]
fn clean_chain_passes() {
    let r = qa(&[
        snapshot("btcusdt", T0, 100),
        book_update("btcusdt", T0 + SEC, 1, 95, 105, None),
        book_update("btcusdt", T0 + 2 * SEC, 1, 106, 110, Some(105)),
        book_update("btcusdt", T0 + 3 * SEC, 1, 111, 115, Some(110)),
    ]);
    assert_eq!(r.status, QaStatus::Pass, "failures: {:?}", r.failures);
    assert_eq!(r.events.total, 4);
    let d = r.depth.get("btcusdt").unwrap();
    assert_eq!(d.updates, 3);
    assert_eq!(d.chain_breaks_unexplained, 0);
    assert_eq!(d.unspliced_snapshots, 0);
    assert!(!d.missing_snapshot);
    assert!(r.latency_us.depth_e_minus_t.is_some());
    assert!(r.latency_us.local_minus_venue.contains("book_update"));
}

#[test]
fn chain_break_without_conn_down_fails() {
    let r = qa(&[
        snapshot("btcusdt", T0, 100),
        book_update("btcusdt", T0 + SEC, 1, 95, 105, None),
        book_update("btcusdt", T0 + 2 * SEC, 1, 200, 210, Some(199)),
    ]);
    assert_eq!(r.status, QaStatus::Fail);
    assert_eq!(r.depth.get("btcusdt").unwrap().chain_breaks_unexplained, 1);
    assert!(r.failures.iter().any(|f| f.contains("chain break")));
}

#[test]
fn chain_break_after_conn_down_is_explained() {
    let r = qa(&[
        snapshot("btcusdt", T0, 100),
        book_update("btcusdt", T0 + SEC, 1, 95, 105, None),
        conn_down(T0 + 2 * SEC, 1),
        book_update("btcusdt", T0 + 3 * SEC, 1, 200, 210, Some(199)),
        snapshot("btcusdt", T0 + 4 * SEC, 205),
        book_update("btcusdt", T0 + 5 * SEC, 1, 203, 211, Some(210)),
    ]);
    let d = r.depth.get("btcusdt").unwrap();
    assert_eq!(d.chain_breaks_explained, 1);
    assert_eq!(d.chain_breaks_unexplained, 0);
    assert_eq!(r.status, QaStatus::Pass, "failures: {:?}", r.failures);
    assert_eq!(r.control.conn_down, 1);
}

#[test]
fn conn_down_on_other_source_does_not_excuse() {
    let r = qa(&[
        snapshot("btcusdt", T0, 100),
        book_update("btcusdt", T0 + SEC, 1, 95, 105, None),
        conn_down(T0 + 2 * SEC, 7),
        book_update("btcusdt", T0 + 3 * SEC, 1, 200, 210, Some(199)),
    ]);
    assert_eq!(r.depth.get("btcusdt").unwrap().chain_breaks_unexplained, 1);
    assert_eq!(r.status, QaStatus::Fail);
}

#[test]
fn splice_boundaries_and_unspliced() {
    let r = qa(&[
        snapshot("a", T0, 50),
        snapshot("a", T0 + SEC, 100),
        book_update("a", T0 + 2 * SEC, 1, 100, 105, None),
        snapshot("a", T0 + 3 * SEC, 110),
        book_update("a", T0 + 4 * SEC, 1, 106, 110, Some(105)),
        book_update("a", T0 + 200 * SEC, 1, 111, 112, Some(110)),
    ]);
    let d = r.depth.get("a").unwrap();
    assert_eq!(d.snapshots, 3);
    assert_eq!(d.unspliced_snapshots, 1);
    assert_eq!(d.snapshots_pending_at_eof, 0);
    assert_eq!(r.status, QaStatus::Fail);
}

#[test]
fn snapshot_near_eof_is_pending_not_failure() {
    let r = qa(&[
        book_update("a", T0, 1, 95, 105, None),
        snapshot("a", T0 + 30 * SEC, 500),
        book_update("a", T0 + 31 * SEC, 1, 106, 110, Some(105)),
    ]);
    let d = r.depth.get("a").unwrap();
    assert_eq!(d.snapshots_pending_at_eof, 1);
    assert_eq!(d.unspliced_snapshots, 0);
    assert_eq!(r.status, QaStatus::Pass, "failures: {:?}", r.failures);
}

#[test]
fn snapshot_cut_off_by_disconnect_is_abandoned_not_failed() {
    let r = qa(&[
        book_update("a", T0, 1, 95, 105, None),
        snapshot("a", T0 + SEC, 500),
        conn_down(T0 + 2 * SEC, 1),
        book_update("a", T0 + 200 * SEC, 1, 700, 710, Some(699)),
        snapshot("a", T0 + 201 * SEC, 705),
        book_update("a", T0 + 202 * SEC, 1, 706, 711, Some(710)),
    ]);
    let d = r.depth.get("a").unwrap();
    assert_eq!(d.snapshots_abandoned_by_reconnect, 1);
    assert_eq!(d.unspliced_snapshots, 0);
    assert_eq!(d.chain_breaks_explained, 1);
    assert_eq!(d.chain_breaks_unexplained, 0);
    assert_eq!(r.status, QaStatus::Pass, "failures: {:?}", r.failures);
}

#[test]
fn updates_without_any_snapshot_fail() {
    let r = qa(&[
        book_update("a", T0, 1, 95, 105, None),
        book_update("a", T0 + SEC, 1, 106, 110, Some(105)),
    ]);
    assert!(r.depth.get("a").unwrap().missing_snapshot);
    assert_eq!(r.status, QaStatus::Fail);
}

#[test]
fn trade_id_regression_buckets() {
    let r = qa(&[
        snapshot("a", T0, 1),
        trades("a", T0 + SEC, 1, &["10", "11"]),
        trades("a", T0 + 2 * SEC, 1, &["11"]),
        conn_down(T0 + 3 * SEC, 1),
        trades("a", T0 + 4 * SEC, 1, &["9"]),
        trades("a", T0 + 5 * SEC, 1, &["abc"]),
    ]);
    let d = r.dups.get("a").unwrap();
    assert_eq!(d.trade_id_regressions_unexplained, 1);
    assert_eq!(d.trade_id_regressions_explained, 1);
    assert_eq!(r.status, QaStatus::Pass, "failures: {:?}", r.failures);
}

#[test]
fn zero_events_fail() {
    let r = qa(&[]);
    assert_eq!(r.status, QaStatus::Fail);
    assert!(r.failures.iter().any(|f| f.contains("zero")));
}

#[test]
fn corrupt_beyond_ratio_fails_with_frame_stats() {
    let events = [snapshot("a", T0, 1), book_update("a", T0 + SEC, 1, 1, 2, None)];
    let mut bytes = write_wal(&events);
    let garbage = vec![0xAAu8; bytes.len()];
    bytes.extend_from_slice(&garbage);

    let r = qa_bytes(&bytes, &events);
    assert!(r.frames.skipped_bytes > 0);
    assert!(skipped_ratio(r.frames.skipped_bytes, r.wal_bytes) > MAX_SKIPPED_RATIO);
    assert_eq!(r.status, QaStatus::Fail);
    assert!(r.failures.iter().any(|f| f.contains("corrupt")));
}

#[test]
fn conversion_error_folds_into_status() {
    let mut r = qa(&[snapshot("a", T0, 100), book_update("a", T0 + SEC, 1, 95, 105, None)]);
    assert_eq!(r.status, QaStatus::Pass);
    r.set_conversion_error("disk full".to_string());
    assert_eq!(r.status, QaStatus::Fail);
    assert!(!r.conversion.ok);
    assert_eq!(r.conversion.error.as_deref(), Some("disk full"));
}

#[test]
fn histogram_percentiles() {
    let mut h = Histogram::default();
    for ms in 1..=100i64 {
        h.record(ms * 1_000_000);
    }
    let s = h.summary().unwrap();
    assert_eq!(s.count, 100);
    // A sample at exactly k ms lies in [k, k+1) and reports the upper edge.
    assert_eq!(s.p50_us, 51_000);
    assert_eq!(s.p95_us, 96_000);
    assert_eq!(s.p99_us, 100_000);
    assert_eq!(s.min_us, 1_000);
    assert_eq!(s.max_us, 100_000);

    let mut h = Histogram::default();
    h.record(-2 * SEC as i64);
    h.record(-500_000_000);
    h.record(20 * SEC as i64);
    let s = h.summary().unwrap();
    assert_eq!(s.min_us, -2_000_000);
    assert_eq!(s.max_us, 20_000_000);
    assert_eq!(h.percentile_us(1).unwrap(), -2_000_000);
    assert_eq!(h.percentile_us(100).unwrap(), 20_000_000);
    assert_eq!(h.count(), 3);
    assert!(Histogram::new().summary().is_none());
    assert!(Histogram::new().percentile_us(50).is_none());
}

#[test]
fn a_report_names_its_file_and_counts_by_kind() {
    let r = qa(&[
        snapshot("btcusdt", T0, 100),
        book_update("btcusdt", T0 + SEC, 1, 95, 105, None),
        conn_down(T0 + 2 * SEC, 3),
    ]);
    assert_eq!(r.schema_version, 1);
    assert_eq!((r.venue.as_str(), r.date.as_str(), r.wal_file.as_str()), ("binance", "2026-06-10", "a.wal"));
    assert_eq!(r.events.by_kind.get("book_update"), Some(&1));
    assert_eq!(r.events.by_kind.get("control"), Some(&1));
    assert!(!r.events.by_kind.contains("trades"));
    let cov = r.instruments.get("btcusdt").unwrap();
    assert_eq!((cov.events, cov.first_local_ts, cov.last_local_ts), (2, T0, T0 + SEC));
    assert_eq!(r.control.timeline.len(), 1);
}

#[test]
fn a_fatal_frame_is_a_failure_of_its_own() {
    let mut bytes = write_wal(&[snapshot("a", T0, 1)]);
    let at = bytes.len();
    bytes.extend_from_slice(b"WAL1");
    bytes.push(2);
    let payload = 0u64.to_le_bytes();
    let len = (payload.len() as u32).to_le_bytes();
    let mut hasher = crc32fast::Hasher::new();
    hasher.update(&[2u8]);
    hasher.update(&len);
    hasher.update(&payload);
    bytes.extend_from_slice(&len);
    bytes.extend_from_slice(&hasher.finalize().to_le_bytes());
    bytes.extend_from_slice(&payload);
    assert!(bytes.len() > at);
    let r = qa_bytes(&bytes, &[snapshot("a", T0, 1)]);
    assert_eq!(r.status, QaStatus::Fail);
    assert_eq!(r.failures[0], fatal_failure(1, &WireError::BadVersion(2)));
    assert!(QaError::Io("gone".to_string()).message().contains("gone"));
}

#[test]
fn an_accumulator_says_what_it_admits() {
    let mut acc = Accumulator::new();
    let mut far = snapshot("btcusdt", T0, 5);
    assert!(acc.admits(&far));
    acc.push(&far);
    // The distance between the two times has to be a number of nanoseconds.
    far.local_ts = 1 << 63;
    far.venue_ts = Some(1);
    assert!(!acc.admits(&far));
    // Counters do not overflow.
    let gap = |dropped: u64| {
        let reason = "bus".to_string();
        event("", T0, 1, Payload::Control(ControlPayload::Gap { reason, dropped }))
    };
    assert!(acc.admits(&gap(u64::MAX)));
    acc.push(&gap(u64::MAX - 1));
    assert!(acc.admits(&gap(1)));
    assert!(!acc.admits(&gap(2)));
    assert_eq!(acc.total(), 2);
}

#[test]
fn the_last_snapshot_id_has_no_successor() {
    let mut acc = Accumulator::new();
    let last = snapshot("btcusdt", T0, u64::MAX);
    assert!(acc.admits(&last));
    acc.push(&last);
    // Held against it, an update of the instrument would need an id behind it.
    assert!(!acc.admits(&book_update("btcusdt", T0 + 1, 1, 1, 2, None)));
    assert!(acc.admits(&book_update("ethusdt", T0 + 1, 1, 1, 2, None)));
    assert!(acc.can_finish());
}

#[test]
fn a_wait_needs_an_end() {
    let mut acc = Accumulator::new();
    let late = snapshot("btcusdt", u64::MAX - 1, 5);
    assert!(acc.admits(&late));
    acc.push(&late);
    assert!(!acc.can_finish());
    // Spliced, it waits no longer.
    acc.push(&book_update("btcusdt", u64::MAX - 1, 1, 5, 6, None));
    assert!(acc.can_finish());
}
