//! The capture process: universe, heartbeat and startup.
use trading_data::adapter::{DataType, Scope};
use trading_data::calendar::Date;
use trading_data::config::DataTypeCfg;
use trading_data::decimal::Decimal;
use trading_data::events::Event;
use trading_data::payloads::{Payload, ReferencePayload};
use trading_data::process::heartbeat::{deltas, staleness_line};
use trading_data::process::startup::{dump_due, dump_path, unknown_instruments};
use trading_data::process::universe::{auto_subscription, index, Manager, Observation};
use trading_data::recorder::stats::{CaptureStats, EventKind};
use trading_data::types::{
    Asset, Instrument, InstrumentClass, InstrumentId, LifecycleState, Linearity, SourceId, VenueId,
};

fn instrument(symbol: &str, lifecycle: LifecycleState, tick: &str) -> Instrument {
    Instrument {
        id: InstrumentId { value: symbol.to_string() },
        class: InstrumentClass::Perp,
        base: Asset(symbol.trim_end_matches("usdt").to_uppercase()),
        quote: Asset("USDT".to_string()),
        tick_size: Decimal::parse(tick),
        lot_size: None,
        min_notional: None,
        contract_multiplier: None,
        settle_ccy: Some(Asset("USDT".to_string())),
        linearity: Some(Linearity::Linear),
        funding_interval: Some(8 * 3600 * 1_000_000_000),
        lifecycle,
    }
}

/// A manager with the file it saves its listing to.
struct Harness {
    manager: Manager,
    saved: Option<Vec<Instrument>>,
}

impl Harness {
    fn new(saved: Option<Vec<Instrument>>) -> Harness {
        Harness {
            manager: Manager::new(VenueId { value: "binance".to_string() }),
            saved,
        }
    }

    fn apply(&mut self, list: Vec<Instrument>) -> Observation {
        let saved = if self.manager.needs_state() { self.saved.clone() } else { None };
        let o = self.manager.apply(list, saved, 77);
        self.saved = self.manager.prev.as_ref().map(|m| m.values.clone());
        o
    }
}

#[test]
fn baseline_then_add_change_delist_disappear() {
    let mut h = Harness::new(None);
    let o = h.apply(vec![
        instrument("btcusdt", LifecycleState::Trading, "0.1"),
        instrument("ethusdt", LifecycleState::Trading, "0.01"),
    ]);
    assert!(o.changes.baseline);
    assert_eq!(o.changes.added.len(), 2);
    assert_eq!(o.events.len(), 2);
    assert!(h.manager.auto_subscribe_candidates(&o.changes).is_empty());
    assert_eq!(h.manager.perps.len(), 2);
    assert!(o.perps_changed);

    let o = h.apply(vec![
        instrument("btcusdt", LifecycleState::Halted, "0.1"),
        instrument("ethusdt", LifecycleState::Trading, "0.001"),
        instrument("newusdt", LifecycleState::Trading, "0.0001"),
    ]);
    assert!(!o.changes.baseline);
    assert_eq!(o.changes.added.len(), 1);
    assert_eq!(o.changes.changed, 2, "lifecycle + tick changes");
    assert_eq!(o.changes.delisted, 0);
    let auto = h.manager.auto_subscribe_candidates(&o.changes);
    assert_eq!(auto.len(), 1);
    assert_eq!(auto[0].value, "newusdt");
    assert_eq!(h.manager.perps, ["ethusdt", "newusdt"]);
    assert_eq!(o.events.len(), 3);
    assert!(o.events.iter().all(|e| e.source == SourceId::rest()));

    let o = h.apply(vec![
        instrument("btcusdt", LifecycleState::Halted, "0.1"),
        instrument("ethusdt", LifecycleState::Trading, "0.001"),
    ]);
    assert_eq!(o.changes.delisted, 1);
    assert_eq!(o.events.len(), 1);
    assert!(matches!(
        &o.events[0].payload,
        Payload::Reference(ReferencePayload::InstrumentDelisted { instrument_id })
            if instrument_id.value == "newusdt"
    ));
}

#[test]
fn restart_with_state_file_emits_no_burst() {
    let universe = || {
        vec![
            instrument("btcusdt", LifecycleState::Trading, "0.1"),
            instrument("ethusdt", LifecycleState::Trading, "0.01"),
        ]
    };
    let mut h = Harness::new(None);
    assert_eq!(h.apply(universe()).events.len(), 2, "baseline burst");
    let mut h = Harness::new(h.saved);
    let o = h.apply(universe());
    assert!(!o.changes.baseline, "state file found");
    assert_eq!(o.changes.added.len(), 0);
    assert_eq!(o.changes.changed, 0);
    assert!(o.events.is_empty(), "no re-emitted burst");
}

#[test]
fn a_restart_on_the_same_numbers_written_otherwise_is_silent() {
    let mut h = Harness::new(None);
    h.apply(vec![instrument("btcusdt", LifecycleState::Trading, "0.10")]);
    let mut h = Harness::new(h.saved);
    let o = h.apply(vec![instrument("btcusdt", LifecycleState::Trading, "0.1")]);
    assert!(!o.changes.baseline);
    assert!(o.events.is_empty());
}

fn about(e: &Event) -> &str {
    e.instrument.as_ref().unwrap().value.as_str()
}

#[test]
fn events_come_in_the_order_of_the_ids() {
    let mut h = Harness::new(None);
    let o = h.apply(vec![
        instrument("ETHUSDT", LifecycleState::Trading, "1"),
        instrument("adausdt", LifecycleState::Trading, "1"),
        instrument("ETHUSDT", LifecycleState::Halted, "2"),
    ]);
    assert_eq!(o.events.iter().map(about).collect::<Vec<_>>(), ["adausdt", "ethusdt"]);
    match &o.events[1].payload {
        Payload::Reference(ReferencePayload::InstrumentAdded { instrument }) => {
            assert_eq!(instrument.lifecycle, LifecycleState::Halted, "the later entry counts");
            assert_eq!(instrument.id.value, "ETHUSDT");
        }
        other => panic!("unexpected payload: {other:?}"),
    }
    assert_eq!(o.events[0].local_ts, 77);
}

#[test]
fn the_same_number_written_otherwise_is_no_change() {
    let mut h = Harness::new(None);
    h.apply(vec![instrument("btcusdt", LifecycleState::Trading, "0.10")]);
    let o = h.apply(vec![instrument("btcusdt", LifecycleState::Trading, "0.1000")]);
    assert!(o.events.is_empty());
    assert!(!o.perps_changed);
}

#[test]
fn only_wanted_data_of_new_instruments_is_subscribed() {
    let id = |s: &str| InstrumentId { value: s.to_string() };
    let data = vec![DataTypeCfg::Trade, DataTypeCfg::BookTicker];
    assert!(auto_subscription(vec![], &data).is_none());
    assert!(auto_subscription(vec![id("newusdt")], &vec![]).is_none());
    let s = auto_subscription(vec![id("newusdt"), id("ausdt")], &data).unwrap();
    assert_eq!(s.data, vec![DataType::Trade, DataType::BookTicker]);
    match s.scope {
        Scope::Instruments(ids) => {
            assert_eq!(ids.iter().map(|i| i.value.as_str()).collect::<Vec<_>>(), ["newusdt", "ausdt"]);
        }
        other => panic!("unexpected scope: {other:?}"),
    }
}

#[test]
fn a_listing_is_indexed_by_lowercased_id() {
    let m = index(vec![
        instrument("B", LifecycleState::Trading, "1"),
        instrument("a", LifecycleState::Trading, "1"),
    ]);
    assert_eq!(m.names, ["a", "b"]);
}

#[test]
fn a_heartbeat_tells_rates_and_staleness() {
    let mut stats = CaptureStats::new();
    let before = stats.snapshot();
    stats.record(EventKind::Trades, 7, 1_000_000_000, 0);
    stats.record(EventKind::BookTicker, 2, 5_000_000_000, 0);
    let after = stats.snapshot();
    assert_eq!(
        deltas(&before, &after),
        vec![(EventKind::BookTicker, 2), (EventKind::Trades, 7)]
    );
    assert!(deltas(&after, &after).is_empty());
    assert_eq!(staleness_line(&stats, 61_500_000_000), "book_ticker=56s trades=60s");
    assert_eq!(staleness_line(&CaptureStats::new(), 5), "");
}

#[test]
fn misspelt_instruments_stop_the_start() {
    let configured = vec!["btcusdt".to_string(), "typousdt".to_string()];
    let listed = || vec![instrument("BTCUSDT", LifecycleState::Halted, "1")];
    assert_eq!(unknown_instruments(&configured, listed()), ["typousdt"]);
    assert!(unknown_instruments(&configured[..1].to_vec(), listed()).is_empty());
}

#[test]
fn the_listing_is_dumped_once_a_day() {
    let d = |s: &str| Date::parse_iso(s).unwrap();
    assert!(dump_due(&None, &d("2026-06-11")));
    assert!(dump_due(&Some(d("2026-06-10")), &d("2026-06-11")));
    assert!(!dump_due(&Some(d("2026-06-11")), &d("2026-06-11")));
    assert_eq!(
        dump_path("data/meta", "binance", &d("2026-06-11")),
        "data/meta/binance/2026-06-11-exchangeInfo.json"
    );
}
