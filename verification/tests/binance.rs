//! The Binance adapter: frames, pollers, sessions, streams and snapshots.
use serde_json::Value;
use trading_data::adapter::{DataType, Scope, Subscription};
use trading_data::binance::funding::{
    funding_for, funding_map, FundingInfoEntry, FundingMap, FundingMeta,
};
use trading_data::binance::instruments::{symbol_to_instrument, trading_instruments, SymbolInfo};
use trading_data::binance::messages::{
    is_array_frame, message_events, parse_outcome, times_ok, AggTradeMsg, BinanceWsMessage,
    BookTickerMsg,
    DepthUpdateMsg, ForceOrderMsg, MarkPriceUpdateMsg, ParseOutcome, TradeMsg,
};
use trading_data::binance::pollers::{
    counts_as_failure, funding_info_stale, funding_page_url, funding_realized_events, next_page,
    open_interest_event, open_interest_url, pace, premium_index_events, report_fail, report_ok,
    FundingRateEntry, FundingSeen, Health, OpenInterestResp, PollerCfg, PremiumIndexEntry,
    FUNDING_CATCHUP_MS, FUNDING_LOOKBACK_MS, FUNDING_PAGE_LIMIT,
};
use trading_data::binance::polling::{
    farewell, FundingRealizedPoller, OpenInterestPoller, PremiumIndexPoller, Reply,
    FUNDING_REALIZED, OPEN_INTEREST, PREMIUM_INDEX,
};
use trading_data::binance::session::{
    classify_reply, AckState, Connection, ExponentialBackoff, Input, LoopExit, ReplyAction,
    Session, WsReply, ACK_TIMEOUT_NS, STABLE_SESSION_NS, STALE_CONN_TIMEOUT_NS,
};
use trading_data::binance::snapshots::{
    snapshot_event, snapshot_url, DepthSnapshot, SnapshotQueue,
};
use trading_data::binance::streams::{needs_snapshots, plan_connections, stream_names};
use trading_data::decimal::Decimal;
use trading_data::events::Event;
use trading_data::listing::{Filter, FilterField};
use trading_data::payloads::{ControlPayload, MarketPayload, Payload};
use trading_data::types::{
    AggressorSide, InstrumentClass, InstrumentId, Level, LifecycleState, Linearity, Nanos, SourceId,
    VenueId,
};

const SRC: SourceId = SourceId(3);
const T_LOCAL: Nanos = 1_781_174_100_000_000_000;

fn dec(s: &str) -> Decimal {
    Decimal::parse(s).unwrap()
}

fn same(d: &Decimal, s: &str) -> bool {
    d.same_value(&dec(s))
}

fn same_opt(d: &Option<Decimal>, s: &str) -> bool {
    d.as_ref().is_some_and(|d| same(d, s))
}

fn venue() -> VenueId {
    VenueId { value: "binance".to_string() }
}

fn no_funding() -> FundingMap {
    FundingMap::new()
}

fn text(v: &Value, k: &str) -> Option<String> {
    v.get(k).and_then(|x| x.as_str()).map(|s| s.to_string())
}

fn num(v: &Value, k: &str) -> Option<u64> {
    v.get(k).and_then(|x| x.as_u64())
}

fn decimal(v: &Value, k: &str) -> Option<Decimal> {
    v.get(k).and_then(|x| x.as_str()).and_then(Decimal::parse)
}

fn levels(v: &Value, k: &str) -> Option<Vec<Level>> {
    v.get(k)?
        .as_array()?
        .iter()
        .map(|l| {
            Some(Level {
                price: Decimal::parse(l.get(0)?.as_str()?)?,
                qty: Decimal::parse(l.get(1)?.as_str()?)?,
            })
        })
        .collect()
}

/// One message of a frame, read field by field.
fn message(v: &Value) -> Option<BinanceWsMessage> {
    match v.get("e")?.as_str()? {
        "bookTicker" => Some(BinanceWsMessage::BookTicker(BookTickerMsg {
            symbol: text(v, "s")?,
            update_id: num(v, "u")?,
            bid: Level { price: decimal(v, "b")?, qty: decimal(v, "B")? },
            ask: Level { price: decimal(v, "a")?, qty: decimal(v, "A")? },
            transaction_time: num(v, "T")?,
        })),
        "trade" => Some(BinanceWsMessage::Trade(TradeMsg {
            symbol: text(v, "s")?,
            trade_id: num(v, "t")?,
            price: decimal(v, "p")?,
            qty: decimal(v, "q")?,
            time: num(v, "T")?,
            buyer_is_maker: v.get("m")?.as_bool()?,
            kind: text(v, "X"),
        })),
        "aggTrade" => Some(BinanceWsMessage::AggTrade(AggTradeMsg {
            symbol: text(v, "s")?,
            agg_id: num(v, "a")?,
            price: decimal(v, "p")?,
            qty: decimal(v, "q")?,
            time: num(v, "T")?,
            buyer_is_maker: v.get("m")?.as_bool()?,
        })),
        "depthUpdate" => Some(BinanceWsMessage::DepthUpdate(DepthUpdateMsg {
            symbol: text(v, "s")?,
            event_time: num(v, "E")?,
            transaction_time: num(v, "T")?,
            first_update_id: num(v, "U")?,
            final_update_id: num(v, "u")?,
            prev_final_update_id: num(v, "pu"),
            bids: levels(v, "b")?,
            asks: levels(v, "a")?,
        })),
        "markPriceUpdate" => Some(BinanceWsMessage::MarkPriceUpdate(MarkPriceUpdateMsg {
            symbol: text(v, "s")?,
            event_time: num(v, "E")?,
            mark_price: decimal(v, "p")?,
            index_price: decimal(v, "i")?,
            funding_rate: decimal(v, "r")?,
            next_funding_time: num(v, "T")?,
        })),
        "forceOrder" => {
            let o = v.get("o")?;
            Some(BinanceWsMessage::ForceOrder(ForceOrderMsg {
                symbol: text(o, "s")?,
                side: text(o, "S")?,
                qty: decimal(o, "q")?,
                price: decimal(o, "p")?,
                avg_price: decimal(o, "ap"),
                status: text(o, "X"),
                filled_qty: decimal(o, "z"),
                time: num(o, "T")?,
            }))
        }
        _ => None,
    }
}

fn messages(frame: &str) -> Option<Vec<BinanceWsMessage>> {
    let v: Value = serde_json::from_str(frame).ok()?;
    if is_array_frame(frame) {
        v.as_array()?.iter().map(message).collect()
    } else {
        Some(vec![message(&v)?])
    }
}

fn parse_with(frame: &str, funding: &FundingMap) -> (Vec<Event>, ParseOutcome) {
    let msgs = messages(frame);
    let outcome = parse_outcome(msgs.as_ref());
    let mut out = Vec::new();
    for m in msgs.iter().flatten() {
        out.extend(message_events(m, &venue(), SRC, funding, T_LOCAL));
    }
    (out, outcome)
}

fn parse(frame: &str) -> Vec<Event> {
    parse_with(frame, &no_funding()).0
}

fn instrument(e: &Event) -> &str {
    e.instrument.as_ref().unwrap().value.as_str()
}

#[test]
fn parses_book_ticker() {
    let events = parse(
        r#"{"e":"bookTicker","u":400900217,"E":1568014460893,"T":1568014460891,"s":"BNBUSDT","b":"25.35190000","B":"31.21000000","a":"25.36520000","A":"40.66000000"}"#,
    );
    assert_eq!(events.len(), 1);
    let e = &events[0];
    assert_eq!(e.venue.value, "binance");
    assert_eq!(instrument(e), "bnbusdt");
    assert_eq!(e.venue_ts, Some(1_568_014_460_891_000_000));
    assert!(e.local_ts > 0);
    assert_eq!(e.source, SRC);
    assert!(e.provenance.is_none());
    match &e.payload {
        Payload::Market(MarketPayload::BookTicker { best_bid, best_ask, update_id }) => {
            assert_eq!(*update_id, 400900217);
            assert!(same(&best_bid.price, "25.35190000"));
            assert!(same(&best_bid.qty, "31.21000000"));
            assert!(same(&best_ask.price, "25.36520000"));
            assert!(same(&best_ask.qty, "40.66000000"));
        }
        other => panic!("unexpected payload: {other:?}"),
    }
}

#[test]
fn parses_trade() {
    let events = parse(
        r#"{"e":"trade","E":1781093004918,"T":1781093004918,"s":"BTCUSDT","t":7773119483,"p":"61038.40","q":"0.003","X":"MARKET","m":false}"#,
    );
    assert_eq!(events.len(), 1);
    let e = &events[0];
    assert_eq!(instrument(e), "btcusdt");
    assert_eq!(e.venue_ts, Some(1_781_093_004_918_000_000));
    match &e.payload {
        Payload::Market(MarketPayload::Trades { trades }) => {
            assert_eq!(trades.len(), 1);
            assert_eq!(trades[0].id, "7773119483");
            assert!(same(&trades[0].price, "61038.40"));
            assert!(same(&trades[0].qty, "0.003"));
            assert_eq!(trades[0].aggressor_side, AggressorSide::Buy);
            assert_eq!(trades[0].kind.as_deref(), Some("MARKET"));
        }
        other => panic!("unexpected payload: {other:?}"),
    }
}

#[test]
fn parses_agg_trade_fallback() {
    let events = parse(
        r#"{"e":"aggTrade","E":123456789,"s":"BTCUSDT","a":5933014,"p":"0.001","q":"100","f":100,"l":105,"T":123456785,"m":true}"#,
    );
    assert_eq!(events.len(), 1);
    let e = &events[0];
    assert_eq!(instrument(e), "btcusdt");
    assert_eq!(e.venue_ts, Some(123_456_785_000_000));
    match &e.payload {
        Payload::Market(MarketPayload::Trades { trades }) => {
            assert_eq!(trades.len(), 1);
            assert_eq!(trades[0].id, "5933014");
            assert!(same(&trades[0].price, "0.001"));
            assert!(same(&trades[0].qty, "100"));
            assert_eq!(trades[0].aggressor_side, AggressorSide::Sell);
            assert_eq!(trades[0].kind, None);
        }
        other => panic!("unexpected payload: {other:?}"),
    }
}

#[test]
fn parses_depth_update_with_chain_ids() {
    let events = parse(
        r#"{"e":"depthUpdate","E":123456789,"T":123456788,"s":"BTCUSDT","U":157,"u":160,"pu":149,"b":[["0.0024","10"]],"a":[["0.0026","100"]]}"#,
    );
    assert_eq!(events.len(), 1);
    let e = &events[0];
    assert_eq!(e.venue_ts, Some(123_456_788_000_000));
    match &e.payload {
        Payload::Market(MarketPayload::BookUpdate {
            bids,
            asks,
            first_update_id,
            final_update_id,
            prev_final_update_id,
            event_time,
        }) => {
            assert_eq!(*first_update_id, 157);
            assert_eq!(*final_update_id, 160);
            assert_eq!(*prev_final_update_id, Some(149));
            assert_eq!(*event_time, Some(123_456_789_000_000));
            assert_eq!(bids.len(), 1);
            assert!(same(&bids[0].price, "0.0024"));
            assert!(same(&asks[0].qty, "100"));
        }
        other => panic!("unexpected payload: {other:?}"),
    }
}

#[test]
fn mark_price_fans_out_three_events_in_order() {
    let events = parse(
        r#"{"e":"markPriceUpdate","E":1562305380000,"s":"BTCUSDT","p":"11794.15000000","i":"11784.62659091","P":"11784.25641265","r":"0.00038167","T":1562306400000}"#,
    );
    assert_eq!(events.len(), 3);
    for e in &events {
        assert_eq!(e.venue_ts, Some(1_562_305_380_000_000_000));
        assert_eq!(instrument(e), "btcusdt");
    }
    assert!(matches!(
        &events[0].payload,
        Payload::Market(MarketPayload::MarkPrice { price }) if same(price, "11794.15")
    ));
    assert!(matches!(
        &events[1].payload,
        Payload::Market(MarketPayload::IndexPrice { price }) if same(price, "11784.62659091")
    ));
    match &events[2].payload {
        Payload::Market(MarketPayload::FundingRatePrediction {
            rate,
            next_funding_time,
            interval,
            clamp_min,
            clamp_max,
            ..
        }) => {
            assert!(same(rate, "0.00038167"));
            assert_eq!(*next_funding_time, 1_562_306_400_000_000_000);
            assert_eq!(*interval, Some(8 * 3600 * 1_000_000_000));
            assert!(clamp_min.is_none());
            assert!(clamp_max.is_none());
        }
        other => panic!("unexpected payload: {other:?}"),
    }
}

fn four_hours(symbol: &str) -> FundingMap {
    let mut map = FundingMap::new();
    map.put(
        symbol.to_string(),
        FundingMeta {
            interval: 4 * 3600 * 1_000_000_000,
            cap: Some(dec("0.02")),
            floor: Some(dec("-0.02")),
        },
    );
    map
}

#[test]
fn funding_map_overrides_interval_and_clamps() {
    let (events, _) = parse_with(
        r#"{"e":"markPriceUpdate","E":1562305380000,"s":"BTCUSDT","p":"1","i":"1","P":"1","r":"0.0001","T":1562306400000}"#,
        &four_hours("btcusdt"),
    );
    match &events[2].payload {
        Payload::Market(MarketPayload::FundingRatePrediction {
            interval, clamp_min, clamp_max, ..
        }) => {
            assert_eq!(*interval, Some(4 * 3600 * 1_000_000_000));
            assert!(same_opt(clamp_min, "-0.02"));
            assert!(same_opt(clamp_max, "0.02"));
        }
        other => panic!("unexpected payload: {other:?}"),
    }
}

#[test]
fn depth_outcome_reports_symbol_for_snapshot_trigger() {
    let (_, outcome) = parse_with(
        r#"{"e":"depthUpdate","E":2,"T":1,"s":"BTCUSDT","U":157,"u":160,"pu":149,"b":[],"a":[]}"#,
        &no_funding(),
    );
    assert!(outcome.is_data);
    assert_eq!(outcome.depth_symbol.as_deref(), Some("btcusdt"));

    let (_, outcome) = parse_with(
        r#"{"e":"aggTrade","E":2,"s":"BTCUSDT","a":1,"p":"1","q":"1","T":1,"m":false}"#,
        &no_funding(),
    );
    assert!(outcome.is_data);
    assert_eq!(outcome.depth_symbol, None);

    let (_, outcome) = parse_with(r#"{"result":null,"id":1}"#, &no_funding());
    assert!(!outcome.is_data);
}

#[test]
fn parses_force_order_liquidation() {
    let events = parse(
        r#"{"e":"forceOrder","E":1568014460893,"o":{"s":"BTCUSDT","S":"SELL","o":"LIMIT","f":"IOC","q":"0.014","p":"9910","ap":"9910","X":"FILLED","l":"0.014","z":"0.014","T":1568014460891}}"#,
    );
    assert_eq!(events.len(), 1);
    let e = &events[0];
    assert_eq!(e.venue_ts, Some(1_568_014_460_891_000_000));
    match &e.payload {
        Payload::Market(MarketPayload::Liquidation {
            side,
            price,
            qty,
            filled_qty,
            avg_price,
            order_status,
        }) => {
            assert_eq!(*side, AggressorSide::Sell);
            assert!(same(price, "9910"));
            assert!(same(qty, "0.014"));
            assert!(same_opt(filled_qty, "0.014"));
            assert!(same_opt(avg_price, "9910"));
            assert_eq!(order_status.as_deref(), Some("FILLED"));
        }
        other => panic!("unexpected payload: {other:?}"),
    }
}

#[test]
fn parses_venue_wide_array_messages() {
    let events = parse(
        r#"[{"e":"markPriceUpdate","E":1562305380000,"s":"BTCUSDT","p":"11794.15","i":"11784.62","P":"11784.25","r":"0.0001","T":1562306400000},{"e":"markPriceUpdate","E":1562305380000,"s":"ETHUSDT","p":"294.1","i":"294.0","P":"294.0","r":"0.0002","T":1562306400000}]"#,
    );
    assert_eq!(events.len(), 6, "two markPrice messages fan out to 3 events each");
    assert_eq!(instrument(&events[0]), "btcusdt");
    assert_eq!(instrument(&events[3]), "ethusdt");
}

#[test]
fn ignores_acks_and_error_frames_without_panicking() {
    assert!(parse(r#"{"result":null,"id":1}"#).is_empty());
    assert!(parse(r#"{"error":{"code":2,"msg":"Invalid request"},"id":1}"#).is_empty());
    assert!(parse("not json at all").is_empty());
}

fn premium_entries(body: &str) -> Vec<PremiumIndexEntry> {
    let v: Value = serde_json::from_str(body).unwrap();
    v.as_array()
        .unwrap()
        .iter()
        .map(|e| PremiumIndexEntry {
            symbol: text(e, "symbol").unwrap(),
            mark_price: decimal(e, "markPrice").unwrap(),
            index_price: decimal(e, "indexPrice").unwrap(),
            last_funding_rate: decimal(e, "lastFundingRate").unwrap(),
            next_funding_time: num(e, "nextFundingTime").unwrap(),
            time: num(e, "time").unwrap(),
        })
        .collect()
}

#[test]
fn premium_index_row_fans_out_three_events() {
    let entries = premium_entries(
        r#"[{"symbol":"NEIROUSDT","markPrice":"0.00006777","indexPrice":"0.00006789","estimatedSettlePrice":"0.00006836","lastFundingRate":"0.00005000","interestRate":"0.00010000","nextFundingTime":1781179200000,"time":1781174040000}]"#,
    );
    let events = premium_index_events(&entries, &venue(), &no_funding(), T_LOCAL);
    assert_eq!(events.len(), 3);
    for e in &events {
        assert_eq!(instrument(e), "neirousdt");
        assert_eq!(e.venue_ts, Some(1_781_174_040_000_000_000));
        assert_eq!(e.local_ts, T_LOCAL);
        assert_eq!(e.source, SourceId::rest());
    }
    assert!(matches!(
        &events[0].payload,
        Payload::Market(MarketPayload::MarkPrice { price }) if same(price, "0.00006777")
    ));
    assert!(matches!(
        &events[1].payload,
        Payload::Market(MarketPayload::IndexPrice { price }) if same(price, "0.00006789")
    ));
    match &events[2].payload {
        Payload::Market(MarketPayload::FundingRatePrediction {
            rate,
            next_funding_time,
            interval,
            premium_index,
            clamp_min,
            clamp_max,
        }) => {
            assert!(same(rate, "0.00005000"));
            assert_eq!(*next_funding_time, 1_781_179_200_000_000_000);
            assert_eq!(*interval, Some(8 * 3600 * 1_000_000_000));
            assert!(premium_index.is_none());
            assert!(clamp_min.is_none());
            assert!(clamp_max.is_none());
        }
        other => panic!("unexpected payload: {other:?}"),
    }
}

#[test]
fn settling_symbol_emits_no_prediction() {
    let entries = premium_entries(
        r#"[{"symbol":"COMMONUSDT","markPrice":"0.00045217","indexPrice":"0.00045217","estimatedSettlePrice":"0.00000000","lastFundingRate":"0.00000000","interestRate":"0.00000000","nextFundingTime":0,"time":1781174040000}]"#,
    );
    let events = premium_index_events(&entries, &venue(), &no_funding(), T_LOCAL);
    assert_eq!(events.len(), 2, "mark + index only, no prediction");
    assert!(matches!(&events[0].payload, Payload::Market(MarketPayload::MarkPrice { .. })));
    assert!(matches!(&events[1].payload, Payload::Market(MarketPayload::IndexPrice { .. })));
}

#[test]
fn premium_index_stamps_funding_meta() {
    let entries = premium_entries(
        r#"[{"symbol":"BTCUSDT_260626","markPrice":"110000.1","indexPrice":"110000.2","estimatedSettlePrice":"110000.3","lastFundingRate":"0.0001","interestRate":"0.0001","nextFundingTime":1781179200000,"time":1781174040000}]"#,
    );
    let events = premium_index_events(&entries, &venue(), &four_hours("btcusdt_260626"), T_LOCAL);
    match &events[2].payload {
        Payload::Market(MarketPayload::FundingRatePrediction {
            interval, clamp_min, clamp_max, ..
        }) => {
            assert_eq!(*interval, Some(4 * 3600 * 1_000_000_000));
            assert!(same_opt(clamp_min, "-0.02"));
            assert!(same_opt(clamp_max, "0.02"));
        }
        other => panic!("unexpected payload: {other:?}"),
    }
}

#[test]
fn open_interest_parses_live_shape() {
    let v: Value = serde_json::from_str(
        r#"{"symbol":"BTCUSDT","openInterest":"101489.798","time":1781174049921}"#,
    )
    .unwrap();
    let resp = OpenInterestResp {
        symbol: text(&v, "symbol").unwrap(),
        open_interest: decimal(&v, "openInterest").unwrap(),
        time: num(&v, "time").unwrap(),
    };
    let e = open_interest_event(&resp, &venue(), T_LOCAL);
    assert_eq!(instrument(&e), "btcusdt");
    assert_eq!(e.venue_ts, Some(1_781_174_049_921_000_000));
    assert_eq!(e.source, SourceId::rest());
    match &e.payload {
        Payload::Market(MarketPayload::OpenInterest { open_interest, open_interest_value }) => {
            assert!(same(open_interest, "101489.798"));
            assert!(open_interest_value.is_none());
        }
        other => panic!("unexpected payload: {other:?}"),
    }
}

const FUNDING_PAGE: &str = r#"[{"symbol":"PLAYUSDT","fundingTime":1781168400000,"fundingRate":"-0.00287339","markPrice":"0.04887680"},{"symbol":"GUAUSDT","fundingTime":1781172000005,"fundingRate":"0.00001250","markPrice":"0.52461265"},{"symbol":"PLAYUSDT","fundingTime":1781172000005,"fundingRate":"-0.00540630","markPrice":"0.04863000"}]"#;

fn funding_rows(body: &str) -> Vec<FundingRateEntry> {
    let v: Value = serde_json::from_str(body).unwrap();
    v.as_array()
        .unwrap()
        .iter()
        .map(|e| FundingRateEntry {
            symbol: text(e, "symbol").unwrap(),
            funding_time: num(e, "fundingTime").unwrap(),
            funding_rate: decimal(e, "fundingRate").unwrap(),
        })
        .collect()
}

fn realized(body: &str, state: &mut FundingSeen) -> Vec<Event> {
    funding_realized_events(&funding_rows(body), state, &venue(), &no_funding(), T_LOCAL)
}

#[test]
fn funding_realized_emits_and_dedups_across_overlapping_windows() {
    let mut state = FundingSeen::new(1_781_160_000_000);
    let events = realized(FUNDING_PAGE, &mut state);
    assert_eq!(events.len(), 3);
    assert_eq!(state.max_seen_ms, 1_781_172_000_005);

    let e = &events[1];
    assert_eq!(instrument(e), "guausdt");
    assert_eq!(e.venue_ts, Some(1_781_172_000_005_000_000));
    match &e.payload {
        Payload::Market(MarketPayload::FundingRateRealized { rate, funding_time, interval }) => {
            assert!(same(rate, "0.00001250"));
            assert_eq!(*funding_time, 1_781_172_000_005_000_000);
            assert_eq!(*interval, Some(8 * 3600 * 1_000_000_000));
        }
        other => panic!("unexpected payload: {other:?}"),
    }

    let events = realized(FUNDING_PAGE, &mut state);
    assert!(events.is_empty(), "overlapping window must dedup");

    let events = realized(
        r#"[{"symbol":"HUSDT","fundingTime":1781172000005,"fundingRate":"-0.00048076","markPrice":"0.14379000"}]"#,
        &mut state,
    );
    assert_eq!(events.len(), 1);
}

#[test]
fn funding_seen_prunes_but_keeps_catchup_horizon() {
    let mut state = FundingSeen::new(0);
    let old = r#"[{"symbol":"AUSDT","fundingTime":1000,"fundingRate":"0.0001"}]"#;
    realized(old, &mut state);
    assert_eq!(state.seen.keys.len(), 1);

    let newer = format!(
        r#"[{{"symbol":"AUSDT","fundingTime":{},"fundingRate":"0.0001"}}]"#,
        1000 + FUNDING_CATCHUP_MS + 1
    );
    realized(&newer, &mut state);
    assert_eq!(state.seen.keys.len(), 1, "old key pruned, new key kept");

    let events = realized(old, &mut state);
    assert_eq!(events.len(), 1);
}

#[test]
fn a_poller_catches_up_and_looks_back() {
    let state = FundingSeen::catching_up(10_000_000);
    assert_eq!(state.max_seen_ms, 10_000_000 - FUNDING_CATCHUP_MS);
    let state = FundingSeen::new(10_000_000);
    assert_eq!(state.cycle_start(), 10_000_000 - FUNDING_LOOKBACK_MS);
    assert_eq!(FundingSeen::new(5).cycle_start(), 0);
    assert_eq!(next_page(FUNDING_PAGE_LIMIT, Some(7), 5), Some(7));
    assert_eq!(next_page(FUNDING_PAGE_LIMIT, Some(5), 5), None);
    assert_eq!(next_page(FUNDING_PAGE_LIMIT - 1, Some(7), 5), None);
    assert_eq!(next_page(0, None, 5), None);
    assert_eq!(
        funding_page_url(12),
        "https://fapi.binance.com/fapi/v1/fundingRate?startTime=12&limit=1000"
    );
}

#[test]
fn health_announces_up_once_and_down_after_threshold() {
    let mut h = Health::new();
    assert!(h.ok(), "first success announces ConnUp");
    assert!(!h.ok(), "repeat success silent");
    assert!(!h.fail(), "1st failure silent");
    assert!(!h.fail(), "2nd failure silent");
    assert!(h.fail(), "3rd consecutive failure announces ConnDown");
    assert!(!h.fail(), "further failures silent");
    assert!(h.ok(), "recovery announces ConnUp again");

    let mut h = Health::new();
    h.ok();
    assert!(!h.fail());
    assert!(!h.fail());
    assert!(!h.ok());
    assert!(!h.fail(), "counter reset by success");
}

#[test]
fn pollers_report_and_pace_themselves() {
    let mut h = Health::new();
    assert!(matches!(
        report_ok(&mut h, "poller-x"),
        Some(ControlPayload::ConnUp { label }) if label == "poller-x"
    ));
    assert!(report_ok(&mut h, "poller-x").is_none());
    assert!(report_fail(&mut h, "poller-x", "fetch error").is_none());
    assert!(report_fail(&mut h, "poller-x", "fetch error").is_none());
    assert!(matches!(
        report_fail(&mut h, "poller-x", "fetch error"),
        Some(ControlPayload::ConnDown { label, reason })
            if label == "poller-x" && reason == "fetch error"
    ));
    assert_eq!(pace(1_000, 4), 250);
    assert_eq!(pace(1_000, 0), 1_000);
    assert!(!counts_as_failure("HTTP 400 Bad Request"));
    assert!(counts_as_failure("HTTP 503"));
    assert!(funding_info_stale(86_400_000_000_000) && !funding_info_stale(86_399_999_999_999));
    assert_eq!(
        open_interest_url("btcusdt"),
        "https://fapi.binance.com/fapi/v1/openInterest?symbol=BTCUSDT"
    );
    let cfg = PollerCfg::default();
    assert!(cfg.premium_index < cfg.open_interest);
}

#[test]
fn premium_index_poller_tells_rows_and_outages() {
    let mut p = PremiumIndexPoller::new();
    let body = r#"[{"symbol":"BTCUSDT","markPrice":"1.5","indexPrice":"1.4",
        "lastFundingRate":"0.0001","nextFundingTime":1781193600000,"time":1781172005000}]"#;
    let told = p.polled(&Reply::Read(premium_entries(body)), &venue(), &no_funding(), 9);
    assert_eq!(told.events.len(), 3);
    assert_eq!(told.events[0].local_ts, 9);
    assert!(matches!(
        told.control,
        Some(ControlPayload::ConnUp { label }) if label == PREMIUM_INDEX
    ));
    for reply in [Reply::Garbled, Reply::Failed("timeout".to_string())] {
        let told = p.polled(&reply, &venue(), &no_funding(), 10);
        assert!(told.events.is_empty() && told.control.is_none());
    }
    let told = p.polled(&Reply::Garbled, &venue(), &no_funding(), 11);
    assert!(matches!(
        told.control,
        Some(ControlPayload::ConnDown { label, reason })
            if label == "poller-premium-index" && reason == "parse error"
    ));
    assert!(matches!(
        farewell(PREMIUM_INDEX),
        ControlPayload::ConnDown { label, reason }
            if label == PREMIUM_INDEX && reason == "shutdown"
    ));
}

#[test]
fn open_interest_refusals_are_routine() {
    let mut p = OpenInterestPoller::new(100);
    for _ in 0..5 {
        let refused = Reply::Failed("HTTP status client error (400 Bad Request)".to_string());
        let told = p.polled(&refused, &venue(), 1);
        assert!(told.events.is_empty() && told.control.is_none());
    }
    for _ in 0..2 {
        assert!(p.polled(&Reply::Failed("HTTP 503".to_string()), &venue(), 1).control.is_none());
    }
    let told = p.polled(&Reply::Failed("HTTP 503".to_string()), &venue(), 1);
    assert!(matches!(
        told.control,
        Some(ControlPayload::ConnDown { label, reason })
            if label == OPEN_INTEREST && reason == "fetch error"
    ));
    let resp = OpenInterestResp {
        symbol: "BTCUSDT".to_string(),
        open_interest: dec("12.5"),
        time: 1_781_172_005_000,
    };
    let told = p.polled(&Reply::Read(resp), &venue(), 2);
    assert_eq!(instrument(&told.events[0]), "btcusdt");
    assert!(matches!(
        told.control,
        Some(ControlPayload::ConnUp { label }) if label == "poller-open-interest"
    ));

    // A sweep that was quick waits out its interval, one that was slow does not.
    assert_eq!(p.swept(50, 120), 150);
    assert_eq!(p.sweep_start, 150);
    assert_eq!(p.swept(50, 260), 200);
    assert_eq!(p.sweep_start, 260);
}

#[test]
fn funding_cycle_pages_until_it_is_through() {
    let mut p = FundingRealizedPoller::new(1_781_172_000_000);
    assert_eq!(p.page, None);
    p.begin();
    let start = 1_781_172_000_000 - FUNDING_CATCHUP_MS - FUNDING_LOOKBACK_MS;
    assert_eq!(p.page, Some(start));

    // A full page goes on at its last instant.
    let row = |n: u64| FundingRateEntry {
        symbol: format!("S{n}USDT"),
        funding_time: start + 1 + n / 600,
        funding_rate: dec("0.0001"),
    };
    let full: Vec<FundingRateEntry> = (0..1000).map(row).collect();
    let told = p.paged(&Reply::Read(full), &venue(), &no_funding(), 5);
    assert_eq!(told.events.len(), 1000);
    assert_eq!(p.page, Some(start + 2));
    assert!(matches!(
        told.control,
        Some(ControlPayload::ConnUp { label }) if label == FUNDING_REALIZED
    ));

    // The overlap is silent, the rest is told, and the cycle is through.
    let rest: Vec<FundingRateEntry> = (600..1100).map(row).collect();
    let told = p.paged(&Reply::Read(rest), &venue(), &no_funding(), 6);
    assert_eq!(told.events.len(), 100);
    assert!(told.control.is_none());
    assert_eq!(p.page, None);

    // A failure ends the cycle and forgets nothing.
    p.begin();
    let seen = p.seen.max_seen_ms;
    let told = p.paged(&Reply::Failed("timeout".to_string()), &venue(), &no_funding(), 7);
    assert!(told.events.is_empty());
    assert_eq!((p.page, p.seen.max_seen_ms, p.health.fails), (None, seen, 1));
}

#[test]
fn times_beyond_nanoseconds_are_told_apart() {
    let frame = |time: u64| {
        messages(&format!(
            r#"{{"e":"trade","E":1,"T":{time},"s":"BTCUSDT","t":1,"p":"1","q":"1","m":true}}"#
        ))
        .unwrap()
    };
    assert!(times_ok(&frame(18_446_744_073_709)[0]));
    assert!(!times_ok(&frame(18_446_744_073_710)[0]));
}

#[test]
fn backoff_doubles_caps_and_jitters() {
    let mut b = ExponentialBackoff::new();
    let d1 = b.next_delay();
    assert!((1_000..=1_250).contains(&d1));
    let d2 = b.next_delay();
    assert!((2_000..=2_500).contains(&d2));
    for _ in 0..10 {
        let d = b.next_delay();
        assert!(d <= 37_500, "cap 30s + 25% jitter");
    }
    b.reset();
    assert!(b.next_delay() < 2_000);
}

#[test]
fn jitter_is_random() {
    let mut b = ExponentialBackoff::new();
    let delays: Vec<u64> = (0..64)
        .map(|_| {
            b.reset();
            b.next_delay()
        })
        .collect();
    assert!(delays.iter().any(|d| *d != delays[0]));
    let mut exact = ExponentialBackoff::new();
    assert_eq!(exact.delay_with(250), 1_250);
    assert_eq!(exact.delay_with(0), 2_000);
}

fn awaiting(id: u64) -> AckState {
    AckState::Awaiting { id, deadline: ACK_TIMEOUT_NS }
}

fn reply(frame: &str) -> Option<WsReply> {
    let v: Value = serde_json::from_str(frame).ok()?;
    v.as_object()?;
    let present = |k: &str| v.get(k).filter(|x| !x.is_null());
    Some(WsReply {
        has_result: present("result").is_some(),
        error: present("error").map(|e| e.to_string()),
        id: num(&v, "id"),
    })
}

#[test]
fn classify_reply_transitions() {
    assert!(matches!(
        classify_reply(&reply(r#"{"result":null,"id":7}"#), &awaiting(7)),
        ReplyAction::AckOk(7)
    ));
    assert!(matches!(
        classify_reply(&reply(r#"{"result":null,"id":8}"#), &awaiting(7)),
        ReplyAction::Ignored
    ));
    assert!(matches!(
        classify_reply(
            &reply(r#"{"error":{"code":2,"msg":"Invalid request"},"id":7}"#),
            &awaiting(7)
        ),
        ReplyAction::AckErr(7, _)
    ));
    assert!(matches!(
        classify_reply(
            &reply(r#"{"error":{"code":-1121,"msg":"bad symbol"}}"#),
            &AckState::Settled
        ),
        ReplyAction::VenueError(_)
    ));
    assert!(matches!(
        classify_reply(&reply("not json"), &AckState::Settled),
        ReplyAction::Ignored
    ));
    assert!(matches!(
        classify_reply(&reply(r#"{"result":null,"id":7}"#), &AckState::Settled),
        ReplyAction::Ignored
    ));
}

fn data(depth: Option<&str>) -> Input {
    Input::Text { is_data: true, depth_symbol: depth.map(|s| s.to_string()), reply: None }
}

fn no_data(frame: &str) -> Input {
    Input::Text { is_data: false, depth_symbol: None, reply: reply(frame) }
}

#[test]
fn a_session_settles_and_asks_for_each_snapshot_once() {
    let mut s = Session::start(7, 1_000);
    assert_eq!(s.read_timeout(1_000), ACK_TIMEOUT_NS);
    let step = s.step("ws-1", &data(Some("btcusdt")));
    assert_eq!(step.snapshot.as_deref(), Some("btcusdt"));
    assert!(s.step("ws-1", &data(Some("btcusdt"))).snapshot.is_none());
    assert_eq!(s.step("ws-1", &data(Some("ethusdt"))).snapshot.as_deref(), Some("ethusdt"));

    let step = s.step("ws-1", &no_data(r#"{"result":null,"id":7}"#));
    assert!(matches!(
        &step.controls[0],
        ControlPayload::SubAck { request_id: 7, ok: true, detail: None }
    ));
    assert!(matches!(&step.controls[1], ControlPayload::ConnUp { label } if label == "ws-1"));
    assert!(step.exit.is_none());
    assert_eq!(s.read_timeout(5_000), STALE_CONN_TIMEOUT_NS);
    assert!(matches!(
        s.step("ws-1", &Input::Timeout).exit,
        Some(LoopExit::Reconnect("stale connection (no traffic)"))
    ));
}

#[test]
fn a_session_ends_for_a_reason() {
    let exit = |i: Input| Session::start(7, 0).step("ws-1", &i);
    let timed_out = exit(Input::Timeout);
    assert!(matches!(
        &timed_out.controls[0],
        ControlPayload::SubAck { request_id: 7, ok: false, detail: Some(d) } if d == "ack timeout"
    ));
    assert!(matches!(timed_out.exit, Some(LoopExit::Reconnect("subscribe ack timeout"))));
    let rejected = exit(no_data(r#"{"error":{"code":2},"id":7}"#));
    assert!(matches!(rejected.exit, Some(LoopExit::Reconnect("subscribe rejected"))));
    assert!(matches!(
        exit(Input::Ping { answered: false }).exit,
        Some(LoopExit::Reconnect("pong send failed"))
    ));
    assert!(exit(Input::Ping { answered: true }).exit.is_none());
    assert!(matches!(exit(Input::Closed).exit, Some(LoopExit::Reconnect("closed by server"))));
    assert!(matches!(exit(Input::ReadError).exit, Some(LoopExit::Reconnect("read error"))));
    assert!(matches!(exit(Input::Ended).exit, Some(LoopExit::Reconnect("stream ended"))));
    assert!(matches!(exit(Input::Cancelled).exit, Some(LoopExit::Shutdown)));
    assert!(exit(Input::Other).exit.is_none());
}

#[test]
fn only_an_unstable_session_delays_the_next_attempt() {
    let mut c = Connection::new(4);
    assert_eq!(c.attempt_delay(), None);
    assert_eq!(c.next_request(), 5);
    let (control, again) = c.session_over("ws-1", LoopExit::Reconnect("read error"), 1);
    assert!(again);
    assert!(matches!(
        control,
        ControlPayload::ConnDown { label, reason } if label == "ws-1" && reason == "read error"
    ));
    assert!(c.attempt_delay().is_some_and(|d| (1_000..=1_250).contains(&d)));
    c.attempt_failed();
    assert!(c.attempt_delay().is_some_and(|d| (2_000..=2_500).contains(&d)));
    c.session_over("ws-1", LoopExit::Reconnect("read error"), STABLE_SESSION_NS);
    assert_eq!(c.attempt_delay(), None);
    let (control, again) = c.session_over("ws-1", LoopExit::Shutdown, 0);
    assert!(!again);
    assert!(matches!(control, ControlPayload::ConnDown { reason, .. } if reason == "shutdown"));
}

fn sub(ids: &[&str], data: Vec<DataType>) -> Subscription {
    Subscription {
        scope: Scope::Instruments(
            ids.iter().map(|i| InstrumentId { value: i.to_string() }).collect(),
        ),
        data,
    }
}

#[test]
fn subscriptions_take_streams_once_each() {
    let names = stream_names(&vec![
        sub(
            &["btcusdt", "ethusdt"],
            vec![DataType::Trade, DataType::BookDepth, DataType::OpenInterest],
        ),
        sub(&["btcusdt"], vec![DataType::Trade, DataType::MarkPrice, DataType::FundingRate]),
        Subscription { scope: Scope::All, data: vec![DataType::Liquidation, DataType::Trade] },
    ]);
    assert_eq!(
        names,
        [
            "!forceOrder@arr",
            "btcusdt@depth@100ms",
            "btcusdt@markPrice@1s",
            "btcusdt@trade",
            "ethusdt@depth@100ms",
            "ethusdt@trade",
        ]
    );
    assert!(needs_snapshots(&names));
    assert!(!needs_snapshots(&vec!["btcusdt@trade".to_string()]));
}

#[test]
fn streams_spread_over_connections() {
    let streams: Vec<String> = (0..5).map(|i| format!("s{i}")).collect();
    let plans = plan_connections(&streams, 2, 3, 10);
    assert_eq!(plans.len(), 3);
    assert_eq!(plans[0].streams, ["s0", "s1"]);
    assert_eq!(plans[2].streams, ["s4"]);
    assert_eq!(plans[0].source, SourceId(4));
    assert_eq!(plans[2].source, SourceId(6));
    assert_eq!(plans[0].request_id, 11);
    let all: Vec<String> = plans.into_iter().flat_map(|p| p.streams).collect();
    assert_eq!(all, streams);
    assert!(plan_connections(&vec![], 2, 0, 0).is_empty());
}

#[test]
fn snapshots_wait_once_and_are_tried_twice() {
    let mut q = SnapshotQueue::new();
    q.request("btcusdt");
    q.request("btcusdt");
    q.request("ethusdt");
    assert!(q.is_waiting("btcusdt"));
    let first = q.next().unwrap();
    assert_eq!(first.symbol, "btcusdt");
    q.failed(first);
    assert_eq!(q.next().unwrap().symbol, "ethusdt");
    let again = q.next().unwrap();
    assert_eq!(again.symbol, "btcusdt");
    assert!(again.retry);
    q.failed(again);
    assert!(q.next().is_none(), "the second failure is the last");
    q.refresh();
    assert!(q.is_waiting("btcusdt") && q.is_waiting("ethusdt"));
}

#[test]
fn a_snapshot_becomes_an_event() {
    let resp = DepthSnapshot {
        last_update_id: 9,
        transaction_time: 5,
        bids: vec![Level { price: dec("1"), qty: dec("2") }],
        asks: vec![],
    };
    let e = snapshot_event(&venue(), "btcusdt", &resp, T_LOCAL);
    assert_eq!(instrument(&e), "btcusdt");
    assert_eq!(e.venue_ts, Some(5_000_000));
    assert_eq!(e.source, SourceId::rest());
    match &e.payload {
        Payload::Market(MarketPayload::BookSnapshot { bids, asks, last_update_id }) => {
            assert_eq!((bids.len(), asks.len(), *last_update_id), (1, 0, 9));
        }
        other => panic!("unexpected payload: {other:?}"),
    }
    assert_eq!(
        snapshot_url("btcusdt"),
        "https://fapi.binance.com/fapi/v1/depth?symbol=BTCUSDT&limit=1000"
    );
}

#[test]
fn funding_metadata_is_found_by_lowercased_symbol() {
    let map = funding_map(&vec![FundingInfoEntry {
        symbol: "BTCUSDT".to_string(),
        adjusted_funding_rate_cap: Some(dec("0.02")),
        adjusted_funding_rate_floor: None,
        funding_interval_hours: Some(4),
    }]);
    let meta = funding_for(&map, "btcusdt");
    assert_eq!(meta.interval, 14_400_000_000_000);
    assert!(same_opt(&meta.cap, "0.020"));
    let other = funding_for(&map, "ethusdt");
    assert_eq!(other.interval, 28_800_000_000_000);
    assert!(other.cap.is_none());
}

fn symbol(name: &str, contract: &str, status: &str) -> SymbolInfo {
    let filter = |t: &str, k: &str, v: &str| Filter {
        filter_type: Some(t.to_string()),
        fields: vec![FilterField { name: k.to_string(), value: v.to_string() }],
    };
    SymbolInfo {
        symbol: name.to_string(),
        contract_type: contract.to_string(),
        base_asset: "BTC".to_string(),
        quote_asset: "USDT".to_string(),
        margin_asset: Some("USDT".to_string()),
        status: status.to_string(),
        delivery_date: Some(7),
        filters: vec![
            filter("PRICE_FILTER", "tickSize", "0.10"),
            filter("LOT_SIZE", "stepSize", "0.001"),
            filter("MIN_NOTIONAL", "notional", "100"),
        ],
    }
}

#[test]
fn listed_symbols_become_instruments() {
    let i = symbol_to_instrument(&symbol("BTCUSDT", "PERPETUAL", "TRADING"), &four_hours("btcusdt"));
    assert_eq!(i.id.value, "btcusdt");
    assert!(matches!(i.class, InstrumentClass::Perp));
    assert!(same_opt(&i.tick_size, "0.1"));
    assert!(same_opt(&i.lot_size, "0.001"));
    assert!(same_opt(&i.min_notional, "100"));
    assert_eq!(i.funding_interval, Some(14_400_000_000_000));
    assert_eq!(i.linearity, Some(Linearity::Linear));
    assert_eq!(i.lifecycle, LifecycleState::Trading);

    let f = symbol_to_instrument(&symbol("BTCUSDT_X", "CURRENT_QUARTER", "SETTLING"), &no_funding());
    assert!(matches!(f.class, InstrumentClass::Future { expiry: Some(7_000_000) }));
    assert_eq!(f.funding_interval, None);
    assert_eq!(f.lifecycle, LifecycleState::Halted);

    let trading = trading_instruments(
        &vec![
            symbol("A", "PERPETUAL", "TRADING"),
            symbol("B", "PERPETUAL", "CLOSE"),
            symbol("C", "PERPETUAL", "TRADING"),
        ],
        &no_funding(),
    );
    let ids: Vec<&str> = trading.iter().map(|i| i.id.value.as_str()).collect();
    assert_eq!(ids, ["a", "c"]);
}
