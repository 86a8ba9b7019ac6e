//! The process configuration: defaults, rules, and what is subscribed to.
use toml::Value;
use trading_data::adapter::{DataType, EventSinkError, Scope, VenueError};
use trading_data::config::{
    binance_unsupported_reason, CaptureCfg, Config, ConfigError, DataTypeCfg, LoggingCfg, PathsCfg,
    PollersCfg, SubscriptionCfg, UniverseCfg, VenueCfg,
};
use trading_data::types::InstrumentId;

const ALL: [DataTypeCfg; 8] = [
    DataTypeCfg::BookTicker,
    DataTypeCfg::BookDepth,
    DataTypeCfg::Trade,
    DataTypeCfg::FundingRate,
    DataTypeCfg::MarkPrice,
    DataTypeCfg::IndexPrice,
    DataTypeCfg::Liquidation,
    DataTypeCfg::OpenInterest,
];

fn data(v: Option<&Value>) -> Vec<DataTypeCfg> {
    v.and_then(|v| v.as_array())
        .map(|a| {
            a.iter()
                .map(|x| *ALL.iter().find(|d| d.name() == x.as_str().unwrap()).unwrap())
                .collect()
        })
        .unwrap_or_default()
}

fn secs(t: Option<&Value>, key: &str, default: u64) -> u64 {
    t.and_then(|t| t.get(key)).and_then(|v| v.as_integer()).map(|n| n as u64).unwrap_or(default)
}

fn parse_str(raw: &str) -> Result<Config, ConfigError> {
    let t = raw.parse::<toml::Table>().unwrap();
    let text = |section: &str, key: &str| {
        t.get(section).and_then(|s| s.get(key)).and_then(|v| v.as_str()).map(|s| s.to_string())
    };
    let capture = CaptureCfg::default();
    let pollers = PollersCfg::default();
    let universe = UniverseCfg::default();
    let cfg = Config {
        venue: VenueCfg { id: text("venue", "id").unwrap() },
        paths: PathsCfg { data_dir: text("paths", "data_dir").unwrap() },
        logging: LoggingCfg {
            filter: text("logging", "filter").unwrap_or(LoggingCfg::default().filter),
        },
        capture: CaptureCfg {
            raw_tee: t
                .get("capture")
                .and_then(|c| c.get("raw_tee"))
                .and_then(|v| v.as_bool())
                .unwrap_or(capture.raw_tee),
            heartbeat_secs: secs(t.get("capture"), "heartbeat_secs", capture.heartbeat_secs),
        },
        pollers: PollersCfg {
            premium_index_secs: secs(
                t.get("pollers"),
                "premium_index_secs",
                pollers.premium_index_secs,
            ),
            open_interest_secs: secs(
                t.get("pollers"),
                "open_interest_secs",
                pollers.open_interest_secs,
            ),
            funding_realized_secs: secs(
                t.get("pollers"),
                "funding_realized_secs",
                pollers.funding_realized_secs,
            ),
        },
        universe: UniverseCfg {
            poll_secs: secs(t.get("universe"), "poll_secs", universe.poll_secs),
            auto_subscribe_data: data(
                t.get("universe").and_then(|u| u.get("auto_subscribe_data")),
            ),
        },
        subscriptions: t
            .get("subscriptions")
            .and_then(|s| s.as_array())
            .unwrap()
            .iter()
            .map(|s| SubscriptionCfg {
                instruments: s
                    .get("instruments")
                    .and_then(|v| v.as_array())
                    .map(|a| a.iter().map(|x| x.as_str().unwrap().to_string()).collect())
                    .unwrap_or_default(),
                all: s.get("all").and_then(|v| v.as_bool()).unwrap_or(false),
                data: data(s.get("data")),
            })
            .collect(),
    };
    cfg.validate()?;
    Ok(cfg)
}

fn minimal(subscriptions: &str) -> String {
    format!("[venue]\nid = \"binance\"\n[paths]\ndata_dir = \"data\"\n{subscriptions}")
}

const TRADES: &str = "[[subscriptions]]\ninstruments = [\"btcusdt\"]\ndata = [\"trade\"]\n";

#[test]
fn a_full_configuration_says_what_to_capture() {
    let cfg = parse_str(
        "[venue]\nid = \"binance\"\n[paths]\ndata_dir = \"data\"\n[capture]\nraw_tee = true\nheartbeat_secs = 60\n\
         [[subscriptions]]\ninstruments = [\"btcusdt\", \"ethusdt\"]\ndata = [\"book_ticker\", \"book_depth\", \"trade\"]\n\
         [[subscriptions]]\nall = true\ndata = [\"funding_rate\", \"mark_price\", \"index_price\", \"open_interest\"]\n",
    )
    .unwrap();
    assert_eq!(cfg.venue.id, "binance");
    assert_eq!(cfg.paths.wal_dir(), "data/wal");
    assert_eq!(cfg.paths.raw_dir(), "data/raw");
    assert_eq!(cfg.paths.parquet_dir(), "data/parquet");
    assert_eq!(cfg.paths.meta_dir(), "data/meta");
    assert!(cfg.capture.raw_tee);
    assert_eq!(cfg.capture.heartbeat_secs, 60);
    assert_eq!(cfg.explicit_instruments(), vec!["btcusdt", "ethusdt"]);

    let subs = cfg.subscriptions();
    assert_eq!(subs.len(), 2);
    match &subs[0].scope {
        Scope::Instruments(ids) => {
            assert_eq!(ids.len(), 2);
            assert_eq!(ids[0].value, "btcusdt");
        }
        other => panic!("expected explicit scope, got {other:?}"),
    }
    assert!(subs[0].data.contains(&DataType::BookDepth));
    assert!(matches!(subs[1].scope, Scope::All));
    for dt in [
        DataType::FundingRate,
        DataType::MarkPrice,
        DataType::IndexPrice,
        DataType::OpenInterest,
    ] {
        assert!(subs[1].data.contains(&dt));
    }
    assert_eq!(cfg.pollers.premium_index_secs, 30);
}

#[test]
fn defaults_apply_when_sections_omitted() {
    let cfg = parse_str(&minimal(TRADES)).unwrap();
    assert_eq!(cfg.logging.filter, "info");
    assert!(cfg.capture.raw_tee);
    assert_eq!(cfg.capture.heartbeat_secs, 60);
}

#[test]
fn instruments_xor_all_enforced() {
    let both = minimal(
        "[[subscriptions]]\ninstruments = [\"btcusdt\"]\nall = true\ndata = [\"trade\"]\n",
    );
    let neither = minimal("[[subscriptions]]\ndata = [\"trade\"]\n");
    for raw in [both, neither] {
        assert!(matches!(parse_str(&raw), Err(ConfigError::Invalid(_))));
    }
}

#[test]
fn empty_subscriptions_and_empty_data_rejected() {
    let no_subs = "subscriptions = []\n[venue]\nid = \"binance\"\n[paths]\ndata_dir = \"d\"\n";
    assert!(matches!(parse_str(no_subs), Err(ConfigError::Invalid(_))));
    assert!(matches!(
        parse_str(&minimal("[[subscriptions]]\ninstruments = [\"btcusdt\"]\ndata = []\n")),
        Err(ConfigError::Invalid(_))
    ));
}

#[test]
fn venue_wide_rejects_types_without_array_streams() {
    for dt in ["book_ticker", "book_depth", "trade"] {
        let raw = minimal(&format!("[[subscriptions]]\nall = true\ndata = [\"{dt}\"]\n"));
        let err = parse_str(&raw).unwrap_err();
        assert!(
            matches!(&err, ConfigError::Invalid(msg) if msg.contains("venue-wide")),
            "{dt}: {}",
            err.message()
        );
    }
    let ok = minimal("[[subscriptions]]\nall = true\ndata = [\"liquidation\"]\n");
    assert!(parse_str(&ok).is_ok());
}

#[test]
fn poller_backed_types_accepted_venue_wide_only() {
    for dt in ["mark_price", "index_price", "funding_rate"] {
        let ok = minimal(&format!("[[subscriptions]]\nall = true\ndata = [\"{dt}\"]\n"));
        assert!(parse_str(&ok).is_ok(), "{dt} venue-wide should be valid");

        let per_symbol = minimal(&format!(
            "[[subscriptions]]\ninstruments = [\"btcusdt\"]\ndata = [\"{dt}\"]\n"
        ));
        let err = parse_str(&per_symbol).unwrap_err();
        assert!(
            matches!(&err, ConfigError::Invalid(msg) if msg.contains("all = true")),
            "{dt}: {}",
            err.message()
        );
    }
    for sub in [
        "[[subscriptions]]\ninstruments = [\"btcusdt\"]\ndata = [\"open_interest\"]\n",
        "[[subscriptions]]\nall = true\ndata = [\"open_interest\"]\n",
    ] {
        assert!(parse_str(&minimal(sub)).is_ok(), "open_interest: {sub}");
    }
}

#[test]
fn poller_cadences_default_and_bounds_checked() {
    let cfg = parse_str(&minimal(TRADES)).unwrap();
    assert_eq!(cfg.pollers.premium_index_secs, 30);
    assert_eq!(cfg.pollers.open_interest_secs, 300);
    assert_eq!(cfg.pollers.funding_realized_secs, 300);

    let ok = minimal(&format!("[pollers]\npremium_index_secs = 60\n{TRADES}"));
    assert_eq!(parse_str(&ok).unwrap().pollers.premium_index_secs, 60);

    for bad in ["premium_index_secs = 4", "open_interest_secs = 3601"] {
        let raw = minimal(&format!("[pollers]\n{bad}\n{TRADES}"));
        let err = parse_str(&raw).unwrap_err();
        assert!(
            matches!(&err, ConfigError::Invalid(msg) if msg.contains("out of bounds")),
            "{bad}: {}",
            err.message()
        );
    }
}

#[test]
fn universe_cadence_and_automatic_data_are_checked() {
    let poll = |n: u64| parse_str(&minimal(&format!("[universe]\npoll_secs = {n}\n{TRADES}")));
    assert!(poll(60).is_ok() && poll(86_400).is_ok());
    assert!(matches!(poll(59), Err(ConfigError::Invalid(_))));
    assert!(matches!(poll(86_401), Err(ConfigError::Invalid(_))));
    let auto = |d: &str| {
        parse_str(&minimal(&format!("[universe]\nauto_subscribe_data = [\"{d}\"]\n{TRADES}")))
    };
    assert!(auto("trade").is_ok());
    assert!(matches!(auto("mark_price"), Err(ConfigError::Invalid(_))));
}

#[test]
fn unknown_venue_rejected() {
    let raw = "[venue]\nid = \"bybit\"\n[paths]\ndata_dir = \"d\"\n[[subscriptions]]\ninstruments=[\"a\"]\ndata=[\"trade\"]";
    assert!(matches!(parse_str(raw), Err(ConfigError::Invalid(_))));
}

#[test]
fn instruments_lowercased_in_subscription_and_validation_list() {
    let cfg = parse_str(&minimal(
        "[[subscriptions]]\ninstruments = [\"BTCUSDT\"]\ndata = [\"trade\"]\n",
    ))
    .unwrap();
    assert_eq!(cfg.explicit_instruments(), vec!["btcusdt"]);
    match &cfg.subscriptions()[0].scope {
        Scope::Instruments(ids) => assert_eq!(ids[0].value, "btcusdt"),
        other => panic!("unexpected scope {other:?}"),
    }
}

#[test]
fn every_data_type_maps() {
    let pairs = [
        (DataTypeCfg::BookTicker, DataType::BookTicker),
        (DataTypeCfg::BookDepth, DataType::BookDepth),
        (DataTypeCfg::Trade, DataType::Trade),
        (DataTypeCfg::FundingRate, DataType::FundingRate),
        (DataTypeCfg::MarkPrice, DataType::MarkPrice),
        (DataTypeCfg::IndexPrice, DataType::IndexPrice),
        (DataTypeCfg::Liquidation, DataType::Liquidation),
        (DataTypeCfg::OpenInterest, DataType::OpenInterest),
    ];
    for (cfg_dt, dt) in pairs {
        assert_eq!(cfg_dt.to_data_type(), dt);
    }
}

#[test]
fn what_a_venue_cannot_serve_has_a_reason() {
    assert_eq!(binance_unsupported_reason(DataTypeCfg::OpenInterest, true), None);
    assert_eq!(binance_unsupported_reason(DataTypeCfg::OpenInterest, false), None);
    assert_eq!(binance_unsupported_reason(DataTypeCfg::Trade, false), None);
    assert!(binance_unsupported_reason(DataTypeCfg::Trade, true).is_some());
    assert!(binance_unsupported_reason(DataTypeCfg::MarkPrice, false).is_some());
}

#[test]
fn configuration_and_venue_error_messages() {
    assert_eq!(
        VenueError::ConnectionFailed("x".to_string()).message(),
        "connection failed: x"
    );
    assert_eq!(
        VenueError::InvalidInstrument(InstrumentId { value: "a\"b".to_string() }).message(),
        "invalid instrument: \"a\\\"b\""
    );
    assert!(ConfigError::Io("gone".to_string()).message().contains("gone"));
    assert_ne!(EventSinkError::Closed.message(), EventSinkError::Full.message());
}
