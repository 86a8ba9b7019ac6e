//! Symbology: canonical instruments, the mapping, the history and the fees.
use serde_json::Value;
use trading_data::backfill::binance::{funding_intervals, FundingInfoEntry};
use trading_data::calendar::Date;
use trading_data::order::NameMap;
use trading_data::symbology::fees::{
    fee_row, parse_rate, summarize as summarize_fees, venue_of_file, FeeEntry, FeeRow, RateReading,
    VenueRows,
};
use trading_data::symbology::mapping::{
    apply_overrides, assemble, binance_rows, bybit_rows, dump_date_ns, latest_dump, BinanceSymbol,
    BybitSymbol, OverrideEntry,
};
use trading_data::symbology::scd::{
    dated_dumps, day_snapshots, fold_intervals, lifecycle_str, plan_fold, read_days, summarize,
    Day, DayRead, ListedSymbol, ScdRow, Size,
};
use trading_data::symbology::{
    canonical_key, class_from_str, class_str, make_canonical, MappingRow, Registry, SymbologyError,
};
use trading_data::types::{InstrumentClass, InstrumentId, Nanos, VenueId};

fn venue(v: &str) -> VenueId {
    VenueId { value: v.to_string() }
}

fn inst(v: &str) -> InstrumentId {
    InstrumentId { value: v.to_string() }
}

fn row(venue: &str, inst: &str, base: &str, from: Nanos, to: Option<Nanos>) -> MappingRow {
    MappingRow {
        venue: venue.to_string(),
        instrument: inst.to_string(),
        canonical: make_canonical(base, "USDT", "USDT"),
        valid_from: from,
        valid_to: to,
        origin: "derived".to_string(),
    }
}

#[test]
fn point_in_time_lookup_honors_validity_windows() {
    let registry = Registry::from_rows(vec![
        row("binance", "oldusdt", "OLD", 0, Some(100)),
        row("binance", "oldusdt", "NEW", 100, None),
        row("bybit", "newusdt", "NEW", 50, None),
    ]);
    let binance = venue("binance");
    let old = inst("oldusdt");
    assert_eq!(registry.canonical(&binance, &old, 50).unwrap().base.0, "OLD");
    assert_eq!(registry.canonical(&binance, &old, 150).unwrap().base.0, "NEW");
    assert!(registry.canonical(&binance, &old, u64::MAX).is_some(), "open window");

    let c = make_canonical("NEW", "USDT", "USDT");
    let bybit = venue("bybit");
    assert_eq!(registry.venue_instrument(&c, &bybit, 200).unwrap().value, "newusdt");
    assert!(registry.venue_instrument(&c, &bybit, 10).is_none(), "before listing");

    assert_eq!(registry.matched_keys(&["binance", "bybit"], 200), ["NEW-USDT-perp-USDT"]);
    assert!(registry.matched_keys(&["binance", "bybit"], 60).is_empty());
}

#[test]
fn canonical_key_is_stable() {
    assert_eq!(
        canonical_key(&make_canonical("1000PEPE", "USDT", "USDT")),
        "1000PEPE-USDT-perp-USDT"
    );
}

#[test]
fn classes_have_names() {
    for (class, name) in [
        (InstrumentClass::Spot, "spot"),
        (InstrumentClass::Perp, "perp"),
        (InstrumentClass::Future { expiry: None }, "future"),
    ] {
        assert_eq!(class_str(&class), name);
    }
    assert!(matches!(class_from_str("perp"), Ok(InstrumentClass::Perp)));
    assert!(class_from_str("nonsense").is_err());
}

#[test]
fn a_lookup_there_and_back_is_the_same() {
    let registry = Registry::from_rows(vec![
        row("binance", "ausdt", "A", 0, Some(100)),
        row("binance", "busdt", "B", 0, None),
        row("binance", "ausdt", "C", 100, None),
        row("bybit", "a2usdt", "A", 0, None),
    ]);
    for (v, i, at) in [("binance", "ausdt", 50), ("binance", "ausdt", 150), ("bybit", "a2usdt", 50)] {
        let c = registry.canonical(&venue(v), &inst(i), at).unwrap();
        assert_eq!(registry.venue_instrument(c, &venue(v), at).unwrap().value, i);
    }
    let a = make_canonical("A", "USDT", "USDT");
    assert!(registry.venue_instrument(&a, &venue("binance"), 150).is_none());
}

#[test]
fn windows_meet_without_overlap() {
    let r = row("binance", "x", "X", 10, Some(20));
    assert!(!r.covers(9) && r.covers(10) && r.covers(19) && !r.covers(20));
    let registry = Registry::from_rows(vec![r]);
    assert_eq!(registry.len(), 1);
    assert!(!registry.is_empty());
    assert!(registry.canonical(&venue("binance"), &inst("x"), 20).is_none());
    assert!(registry.canonical(&venue("bybit"), &inst("x"), 15).is_none());
}

const BINANCE_DUMP: &str = r#"{"symbols":[
    {"symbol":"BTCUSDT","contractType":"PERPETUAL","baseAsset":"BTC","quoteAsset":"USDT","marginAsset":"USDT","status":"TRADING","onboardDate":1569398400000},
    {"symbol":"1000PEPEUSDT","contractType":"PERPETUAL","baseAsset":"1000PEPE","quoteAsset":"USDT","marginAsset":"USDT","status":"TRADING","onboardDate":1683309600000},
    {"symbol":"BTCDOMUSDT","contractType":"PERPETUAL","baseAsset":"BTCDOM","quoteAsset":"USDT","marginAsset":"USDT","status":"TRADING","onboardDate":1624362000000},
    {"symbol":"BTCUSDT_260925","contractType":"CURRENT_QUARTER","baseAsset":"BTC","quoteAsset":"USDT","marginAsset":"USDT","status":"TRADING"}
]}"#;

const BYBIT_DUMP: &str = r#"[{"retCode":0,"retMsg":"OK","result":{"category":"linear","list":[
    {"symbol":"BTCUSDT","contractType":"LinearPerpetual","baseCoin":"BTC","quoteCoin":"USDT","settleCoin":"USDT","launchTime":"1584230400000","fundingInterval":480},
    {"symbol":"1000PEPEUSDT","contractType":"LinearPerpetual","baseCoin":"1000PEPE","quoteCoin":"USDT","settleCoin":"USDT","launchTime":"1683320400000","fundingInterval":480},
    {"symbol":"ETHUSDT","contractType":"LinearPerpetual","baseCoin":"ETH","quoteCoin":"USDT","settleCoin":"USDT","launchTime":"1600000000000","fundingInterval":480}
]}}]"#;

fn text(v: &Value, key: &str) -> String {
    v.get(key).and_then(|x| x.as_str()).unwrap_or("").to_string()
}

fn opt_text(v: &Value, key: &str) -> Option<String> {
    v.get(key).and_then(|x| x.as_str()).map(|s| s.to_string())
}

fn seeded_rows() -> Vec<MappingRow> {
    let names = |n: &[&str]| n.iter().map(|s| s.to_string()).collect::<Vec<String>>();
    let binance_files = names(&["2026-06-01-exchangeInfo.json", "2026-06-11-exchangeInfo.json"]);
    let bybit_files = names(&["2026-06-11-instrumentsInfo.json"]);
    // The older dump loses to the latest one.
    let latest = latest_dump(&binance_files, "-exchangeInfo.json").unwrap();
    assert_eq!(latest, "2026-06-11-exchangeInfo.json");
    let binance: Value = serde_json::from_str(BINANCE_DUMP).unwrap();
    let symbols: Vec<BinanceSymbol> = binance
        .get("symbols")
        .and_then(|s| s.as_array())
        .unwrap()
        .iter()
        .map(|s| BinanceSymbol {
            symbol: text(s, "symbol"),
            contract_type: text(s, "contractType"),
            base_asset: text(s, "baseAsset"),
            quote_asset: text(s, "quoteAsset"),
            margin_asset: opt_text(s, "marginAsset"),
            onboard_date: s.get("onboardDate").and_then(|v| v.as_u64()),
        })
        .collect();
    let mut rows = binance_rows(&symbols, dump_date_ns(&latest));
    let bybit_latest = latest_dump(&bybit_files, "-instrumentsInfo.json").unwrap();
    let bybit: Value = serde_json::from_str(BYBIT_DUMP).unwrap();
    for page in bybit.as_array().unwrap() {
        let listed: Vec<BybitSymbol> = page
            .get("result")
            .and_then(|r| r.get("list"))
            .and_then(|l| l.as_array())
            .unwrap()
            .iter()
            .map(|s| BybitSymbol {
                symbol: text(s, "symbol"),
                contract_type: text(s, "contractType"),
                base_coin: text(s, "baseCoin"),
                quote_coin: text(s, "quoteCoin"),
                settle_coin: opt_text(s, "settleCoin"),
                launch_time: opt_text(s, "launchTime"),
            })
            .collect();
        rows.extend(bybit_rows(&listed, dump_date_ns(&bybit_latest)));
    }
    rows
}

#[test]
fn builds_mapping_with_cross_venue_matches_and_roundtrips() {
    let built = assemble(&seeded_rows(), &vec![], 1_781_136_000_000_000_000).unwrap();
    let summary = &built.summary;
    assert_eq!(summary.rows_per_venue.get("binance"), Some(&3), "dated future excluded");
    assert_eq!(summary.rows_per_venue.get("bybit"), Some(&3));
    assert_eq!(summary.matched_canonicals, 2);

    let btc = built
        .rows
        .iter()
        .find(|r| r.venue == "binance" && r.instrument == "btcusdt")
        .unwrap();
    assert_eq!(btc.valid_from, 1_569_398_400_000 * 1_000_000);
    assert!(btc.valid_to.is_none());

    let registry = Registry::from_rows(built.rows);
    assert_eq!(registry.len(), 6);
    let c = registry
        .canonical(&venue("binance"), &inst("1000pepeusdt"), u64::MAX - 1)
        .unwrap();
    assert_eq!(c.base.0, "1000PEPE", "multiplier base verbatim");
}

fn overrides() -> Vec<OverrideEntry> {
    vec![
        OverrideEntry {
            venue: "binance".to_string(),
            instrument: "BTCDOMUSDT".to_string(),
            exclude: true,
            base: None,
            quote: None,
            settle: None,
        },
        OverrideEntry {
            venue: "bybit".to_string(),
            instrument: "ethusdt".to_string(),
            exclude: false,
            base: Some("WETH".to_string()),
            quote: None,
            settle: None,
        },
    ]
}

#[test]
fn overrides_patch_and_exclude() {
    let built = assemble(&seeded_rows(), &overrides(), 1_781_136_000_000_000_000).unwrap();
    assert_eq!(built.summary.excluded, 1);
    assert_eq!(built.summary.overridden, 1);
    assert_eq!(built.summary.rows_per_venue.get("binance"), Some(&2));

    assert!(!built.rows.iter().any(|r| r.instrument == "btcdomusdt"));
    let eth = built
        .rows
        .iter()
        .find(|r| r.venue == "bybit" && r.instrument == "ethusdt")
        .unwrap();
    assert_eq!(eth.canonical.base.0, "WETH");
    assert_eq!(eth.origin, "override");
}

#[test]
fn without_rows_there_is_nothing_to_build() {
    assert!(matches!(assemble(&vec![], &overrides(), 0), Err(SymbologyError::Invalid(_))));
    let (kept, overridden, excluded) = apply_overrides(&vec![], &overrides());
    assert!(kept.is_empty() && overridden == 0 && excluded == 0);
}

#[test]
fn a_listing_without_a_date_counts_from_its_dump() {
    let s = BinanceSymbol {
        symbol: "XUSDT".to_string(),
        contract_type: "PERPETUAL".to_string(),
        base_asset: "X".to_string(),
        quote_asset: "USDT".to_string(),
        margin_asset: None,
        onboard_date: None,
    };
    let rows = binance_rows(&vec![s], dump_date_ns("2026-06-11-exchangeInfo.json"));
    assert_eq!(rows[0].valid_from, 1_781_136_000_000_000_000);
    assert_eq!(rows[0].instrument, "xusdt");
    assert_eq!(rows[0].canonical.settle.0, "USDT");
    assert_eq!(dump_date_ns("junk"), 0);
}

fn listed(symbol: &str, status: &str, tick: f64) -> ListedSymbol {
    ListedSymbol {
        symbol: symbol.to_string(),
        contract_type: "PERPETUAL".to_string(),
        base_asset: symbol.trim_end_matches("USDT").to_string(),
        quote_asset: "USDT".to_string(),
        margin_asset: Some("USDT".to_string()),
        status: status.to_string(),
        onboard_date: Some(1_700_000_000_000),
        tick_size: Some(Size::Bits(tick.to_bits())),
        lot_size: Some(Size::Bits(1f64.to_bits())),
        min_notional: Some(Size::Bits(5f64.to_bits())),
    }
}

fn date(s: &str) -> Date {
    Date::parse_iso(s).unwrap()
}

fn day(d: &str, symbols: &Vec<ListedSymbol>, funding: &NameMap<u64>) -> Day {
    Day { date: date(d), symbols: day_snapshots(symbols, funding) }
}

fn tick(r: &ScdRow) -> Option<f64> {
    match r.snap.tick_size {
        Some(Size::Bits(b)) => Some(f64::from_bits(b)),
        Some(Size::NotANumber) => Some(f64::NAN),
        None => None,
    }
}

#[test]
fn three_day_sequence_produces_exact_intervals() {
    let funding: NameMap<u64> = NameMap::new();
    let days = vec![
        day("2026-06-01", &vec![listed("AUSDT", "TRADING", 0.1)], &funding),
        day(
            "2026-06-02",
            &vec![listed("AUSDT", "TRADING", 0.01), listed("BUSDT", "TRADING", 1.0)],
            &funding,
        ),
        day("2026-06-03", &vec![listed("BUSDT", "SETTLING", 1.0)], &funding),
    ];
    let rows = fold_intervals(&days);
    let by: Vec<(&str, u64, Option<u64>, Option<f64>, &str)> = rows
        .iter()
        .map(|r| (r.symbol.as_str(), r.valid_from, r.valid_to, tick(r), r.snap.lifecycle))
        .collect();
    let d1 = date("2026-06-01").day_ns();
    let d2 = date("2026-06-02").day_ns();
    let d3 = date("2026-06-03").day_ns();
    assert_eq!(
        by,
        vec![
            ("ausdt", d1, Some(d2), Some(0.1), "trading"),
            ("ausdt", d2, Some(d3), Some(0.01), "trading"),
            ("busdt", d2, Some(d3), Some(1.0), "trading"),
            ("busdt", d3, None, Some(1.0), "halted"),
        ]
    );
}

#[test]
fn funding_interval_changes_open_new_interval_and_carry_forward() {
    let mut funding_day1: NameMap<u64> = NameMap::new();
    funding_day1.put("AUSDT".to_string(), 4 * 3600 * 1_000_000_000);
    let body = vec![listed("AUSDT", "TRADING", 0.1)];
    let days = vec![
        day("2026-06-01", &body, &funding_day1),
        day("2026-06-02", &body, &funding_day1),
        day("2026-06-03", &body, &NameMap::new()),
    ];
    let rows = fold_intervals(&days);
    assert_eq!(rows.len(), 2, "carry-forward day created no interval");
    assert_eq!(rows[0].snap.funding_interval_ns, Some(4 * 3600 * 1_000_000_000));
    assert_eq!(rows[0].valid_to, Some(date("2026-06-03").day_ns()));
    assert_eq!(rows[1].snap.funding_interval_ns, Some(8 * 3600 * 1_000_000_000));
    assert_eq!(rows[1].valid_to, None);
}

#[test]
fn build_scd_end_to_end_with_point_in_time_answer() {
    let names: Vec<String> = [
        "2026-06-02-exchangeInfo.json",
        "2026-06-01-exchangeInfo.json",
        "2026-06-01-fundingInfo.json",
        "2026-06-02-fundingInfo.json",
        "notes.txt",
    ]
    .iter()
    .map(|s| s.to_string())
    .collect();
    let inputs = plan_fold(
        &dated_dumps(&names, "-exchangeInfo.json"),
        &dated_dumps(&names, "-fundingInfo.json"),
    )
    .unwrap();
    let reads: Vec<DayRead> = inputs
        .iter()
        .map(|i| {
            let funding = match i.funding_info.as_deref() {
                Some("2026-06-01-fundingInfo.json") => funding_intervals(&vec![FundingInfoEntry {
                    symbol: "XUSDT".to_string(),
                    funding_interval_hours: Some(4),
                }]),
                _ => funding_intervals(&vec![]),
            };
            DayRead {
                date: i.date,
                funding: Some(funding),
                symbols: Some(vec![listed("XUSDT", "TRADING", 0.5)]),
            }
        })
        .collect();
    let days = read_days(&reads);
    let rows = fold_intervals(&days);
    let summary = summarize(&days, &rows, "data/meta/instruments");
    assert_eq!(summary.days, 2);
    assert_eq!(summary.rows, 2);
    assert_eq!(summary.path, "data/meta/instruments/binance.parquet");
    assert_eq!(rows[0].snap.funding_interval_ns, Some(4 * 3600 * 1_000_000_000));
    assert_eq!(rows[1].snap.funding_interval_ns, Some(8 * 3600 * 1_000_000_000));
    let first = date("2026-06-01").day_ns();
    assert!(rows[0].valid_from <= first && rows[0].valid_to.unwrap() > first);
}

#[test]
fn a_corrupt_dump_leaves_its_day_out_and_funding_carries_on() {
    let mut four: NameMap<u64> = NameMap::new();
    four.put("XUSDT".to_string(), 14_400_000_000_000);
    let read = |d: &str, funding: Option<NameMap<u64>>, ok: bool| DayRead {
        date: date(d),
        funding,
        symbols: if ok { Some(vec![listed("XUSDT", "TRADING", 0.5)]) } else { None },
    };
    let days = read_days(&vec![
        read("2026-06-01", None, true),
        read("2026-06-02", Some(four), false),
        read("2026-06-03", None, true),
    ]);
    assert_eq!(days.len(), 2);
    assert_eq!(days[1].date, date("2026-06-03"));
    let rows = fold_intervals(&days);
    assert_eq!(rows.len(), 2);
    assert_eq!(rows[0].snap.funding_interval_ns, Some(28_800_000_000_000));
    assert_eq!(rows[1].snap.funding_interval_ns, Some(14_400_000_000_000));
    assert!(plan_fold(&vec![], &vec![]).is_err());
}

#[test]
fn intervals_that_meet_differ_and_equal_ones_lie_apart() {
    let funding: NameMap<u64> = NameMap::new();
    let coarse = vec![listed("AUSDT", "TRADING", 0.1)];
    let fine = vec![listed("AUSDT", "TRADING", 0.01)];
    let days = vec![
        day("2026-06-01", &coarse, &funding),
        day("2026-06-02", &coarse, &funding),
        day("2026-06-03", &fine, &funding),
        day("2026-06-04", &vec![], &funding),
        day("2026-06-05", &fine, &funding),
    ];
    let rows = fold_intervals(&days);
    let by: Vec<(u64, Option<u64>, Option<f64>)> =
        rows.iter().map(|r| (r.valid_from, r.valid_to, tick(r))).collect();
    let at = |d: &str| date(d).day_ns();
    assert_eq!(
        by,
        vec![
            (at("2026-06-01"), Some(at("2026-06-03")), Some(0.1)),
            (at("2026-06-03"), Some(at("2026-06-04")), Some(0.01)),
            (at("2026-06-05"), None, Some(0.01)),
        ]
    );
}

#[test]
fn a_size_that_is_no_number_opens_an_interval_every_day() {
    let nan = || {
        let mut s = listed("AUSDT", "TRADING", 0.1);
        s.tick_size = Some(Size::NotANumber);
        vec![s]
    };
    let days =
        vec![day("2026-06-01", &nan(), &NameMap::new()), day("2026-06-02", &nan(), &NameMap::new())];
    assert_eq!(fold_intervals(&days).len(), 2);
}

#[test]
fn negative_zero_is_zero_and_stays_as_it_was_read() {
    let zero = |z: f64| vec![listed("AUSDT", "TRADING", z)];
    let days = vec![
        day("2026-06-01", &zero(-0.0), &NameMap::new()),
        day("2026-06-02", &zero(0.0), &NameMap::new()),
    ];
    let rows = fold_intervals(&days);
    assert_eq!(rows.len(), 1);
    assert!(tick(&rows[0]).unwrap().is_sign_negative());
}

#[test]
fn statuses_map_to_lifecycles() {
    assert_eq!(lifecycle_str("TRADING"), "trading");
    assert_eq!(lifecycle_str("PENDING_TRADING"), "pending_trading");
    assert_eq!(lifecycle_str("DELIVERED"), "delisted");
    assert_eq!(lifecycle_str("CLOSE"), "delisted");
    assert_eq!(lifecycle_str("SETTLING"), "halted");
}

/// The fee file read with plain calls; fields beyond the known ones are refused.
fn parse_fees(venue: &str, raw: &str) -> Result<Vec<FeeRow>, SymbologyError> {
    let t = raw.parse::<toml::Table>().unwrap();
    let mut rows = Vec::new();
    for e in t.get("schedule").and_then(|s| s.as_array()).unwrap() {
        let known = ["valid_from", "tier", "market", "maker", "taker"];
        if e.as_table().unwrap().keys().any(|k| !known.contains(&k.as_str())) {
            return Err(SymbologyError::Parse("unknown field".to_string()));
        }
        let field = |k: &str| e.get(k).and_then(|v| v.as_str()).unwrap().to_string();
        let entry = FeeEntry {
            valid_from: field("valid_from"),
            tier: field("tier"),
            market: field("market"),
            maker: field("maker"),
            taker: field("taker"),
        };
        let (maker, taker) = (reading(&entry.maker), reading(&entry.taker));
        rows.push(fee_row(venue, &entry, maker, taker)?);
    }
    Ok(rows)
}

fn reading(raw: &str) -> RateReading {
    match raw.parse::<f64>() {
        Err(_) => RateReading::NoNumber,
        Ok(v) if !v.is_finite() || v.abs() > 0.05 => RateReading::Implausible,
        Ok(v) => RateReading::Rate(v.to_bits()),
    }
}

#[test]
fn parses_strictly_and_rejects_junk() {
    let rows = parse_fees(
        "binance",
        r#"
[[schedule]]
valid_from = "2026-01-01"
tier = "vip0"
market = "usdm_perp"
maker = "0.0002"
taker = "0.0005"
"#,
    )
    .unwrap();
    assert_eq!(rows.len(), 1);
    assert_eq!(f64::from_bits(rows[0].maker), 0.0002);
    assert_eq!(f64::from_bits(rows[0].taker), 0.0005);
    assert!(rows[0].valid_from_ns > 0);

    for bad in [
        "[[schedule]]\nvalid_from = \"2026-01-01\"\ntier = \"t\"\nmarket = \"m\"\nmaker = \"0.1\"\ntaker = \"0.1\"\nrebate = \"x\"\n",
        "[[schedule]]\nvalid_from = \"2026-01-01\"\ntier = \"t\"\nmarket = \"m\"\nmaker = \"0.2\"\ntaker = \"0.0005\"\n",
        "[[schedule]]\nvalid_from = \"January\"\ntier = \"t\"\nmarket = \"m\"\nmaker = \"0.0002\"\ntaker = \"0.0005\"\n",
    ] {
        assert!(parse_fees("binance", bad).is_err(), "{bad}");
    }
}

#[test]
fn fee_errors_name_the_venue_and_the_text() {
    assert_eq!(
        parse_rate(RateReading::NoNumber, "x\"y", "maker", "binance").unwrap_err().message(),
        "parse: binance fees: bad maker \"x\\\"y\""
    );
    assert_eq!(
        parse_rate(RateReading::Implausible, "0.2", "taker", "binance").unwrap_err().message(),
        "parse: binance fees: implausible taker \"0.2\""
    );
    assert_eq!(parse_rate(RateReading::Rate(7), "r", "maker", "binance").unwrap(), 7);
}

#[test]
fn a_build_of_fees_is_summed_up_by_venue() {
    assert_eq!(venue_of_file("binance.toml"), Some("binance".to_string()));
    assert_eq!(venue_of_file("README.md"), None);
    let rows = |v: &str, rows: usize| VenueRows { venue: v.to_string(), rows };
    let s = summarize_fees(vec![rows("bybit", 2), rows("binance", 1)], "fees", "meta/fees").unwrap();
    let venues: Vec<(&str, usize)> =
        s.venues.iter().map(|v| (v.venue.as_str(), v.rows)).collect();
    assert_eq!(venues, [("binance", 1), ("bybit", 2)]);
    assert_eq!(s.out_dir, "meta/fees");
    assert_eq!(
        summarize_fees(vec![], "fees", "out").unwrap_err().message(),
        "invalid: no <venue>.toml files under fees"
    );
}

#[test]
fn a_venue_named_twice_is_still_matched() {
    let row = MappingRow {
        venue: "binance".to_string(),
        instrument: "btcusdt".to_string(),
        canonical: make_canonical("BTC", "USDT", "USDT"),
        valid_from: 0,
        valid_to: None,
        origin: "derived".to_string(),
    };
    let registry = Registry::from_rows(vec![row]);
    assert_eq!(registry.matched_keys(&["binance", "binance"], 5), ["BTC-USDT-perp-USDT"]);
    assert!(registry.matched_keys(&["binance", "bybit"], 5).is_empty());
    assert!(registry.matched_keys(&[], 5).is_empty());
}

#[test]
fn only_dated_names_are_dumps() {
    let names = |n: &[&str]| n.iter().map(|s| s.to_string()).collect::<Vec<String>>();
    let dumps = names(&["2026-06-11-x", "zz-x", "2026-13-01-x", "2025-12-31-x", "9999-99-x"]);
    assert_eq!(latest_dump(&dumps, "-x"), Some("2026-06-11-x".to_string()));
    assert_eq!(latest_dump(&names(&["zz-x", "2026-06-11-y"]), "-x"), None);
    assert_eq!(latest_dump(&names(&["2026-02-29-x", "+026-02-28-x"]), "-x"), None);
}

#[test]
fn only_perpetuals_are_computed_on() {
    let listed = |kind: &str, at: u64| BinanceSymbol {
        symbol: "AUSDT".to_string(),
        contract_type: kind.to_string(),
        base_asset: "A".to_string(),
        quote_asset: "USDT".to_string(),
        margin_asset: None,
        onboard_date: Some(at),
    };
    let rows = binance_rows(&vec![listed("CURRENT_QUARTER", u64::MAX), listed("PERPETUAL", 7)], 0);
    assert_eq!(rows.len(), 1);
    assert_eq!(rows[0].valid_from, 7_000_000);
}
