//! Frames on the wire: layout, damage, and the reader that heals past it.
use std::collections::BTreeMap;
use trading_data::decimal::Decimal;
use trading_data::events::Event;
use trading_data::payloads::{ControlPayload, MarketPayload, Payload};
use trading_data::types::{AggressorSide, InstrumentId, Level, SourceId, Trade, VenueId};
use trading_data::wire::frame::{
    decode_frame, encode_frame, WireError, HEADER_LEN, MAX_FRAME_LEN, WIRE_VERSION,
};
use trading_data::wire::reader::{FrameReader, FrameReaderStats, Progress};

const MAGIC: [u8; 4] = *b"WAL1";

type Tagged<P> = BTreeMap<String, BTreeMap<String, P>>;
type Packed<P> = (
    (String,),
    Option<(String,)>,
    Option<u64>,
    u64,
    u16,
    Option<u8>,
    Tagged<P>,
);
type PackedLevel = (String, String);
type PackedTicker = (PackedLevel, PackedLevel, u64);
type PackedTrades = (Vec<(String, String, String, String, Option<String>)>,);
type PackedLiquidation = (
    String,
    String,
    String,
    Option<String>,
    Option<String>,
    Option<String>,
);
type PackedDown = (String, String);

fn dec(s: &str) -> Decimal {
    Decimal::parse(s).unwrap()
}

fn show(d: &Decimal) -> String {
    rust_decimal::Decimal::from_i128_with_scale(d.mantissa(), d.scale()).to_string()
}

fn level(price: &str, qty: &str) -> Level {
    Level { price: dec(price), qty: dec(qty) }
}

fn side_name(s: AggressorSide) -> String {
    match s {
        AggressorSide::Buy => "Buy".to_string(),
        AggressorSide::Sell => "Sell".to_string(),
    }
}

fn envelope<P>(e: &Event, group: &str, variant: &str, p: P) -> Packed<P> {
    let mut inner = BTreeMap::new();
    inner.insert(variant.to_string(), p);
    let mut outer = BTreeMap::new();
    outer.insert(group.to_string(), inner);
    (
        (e.venue.value.clone(),),
        e.instrument.as_ref().map(|i| (i.value.clone(),)),
        e.venue_ts,
        e.local_ts,
        e.source.0,
        None,
        outer,
    )
}

fn pack(e: &Event) -> Vec<u8> {
    match &e.payload {
        Payload::Market(MarketPayload::BookTicker { best_bid, best_ask, update_id }) => {
            let p: PackedTicker = (
                (show(&best_bid.price), show(&best_bid.qty)),
                (show(&best_ask.price), show(&best_ask.qty)),
                *update_id,
            );
            rmp_serde::to_vec(&envelope(e, "Market", "BookTicker", p)).unwrap()
        }
        Payload::Market(MarketPayload::Trades { trades }) => {
            let p: PackedTrades = (trades
                .iter()
                .map(|t| {
                    (
                        t.id.clone(),
                        show(&t.price),
                        show(&t.qty),
                        side_name(t.aggressor_side),
                        t.kind.clone(),
                    )
                })
                .collect(),);
            rmp_serde::to_vec(&envelope(e, "Market", "Trades", p)).unwrap()
        }
        Payload::Market(MarketPayload::Liquidation {
            side,
            price,
            qty,
            filled_qty,
            avg_price,
            order_status,
        }) => {
            let p: PackedLiquidation = (
                side_name(*side),
                show(price),
                show(qty),
                filled_qty.as_ref().map(show),
                avg_price.as_ref().map(show),
                order_status.clone(),
            );
            rmp_serde::to_vec(&envelope(e, "Market", "Liquidation", p)).unwrap()
        }
        Payload::Control(ControlPayload::ConnDown { label, reason }) => {
            let p: PackedDown = (label.clone(), reason.clone());
            rmp_serde::to_vec(&envelope(e, "Control", "ConnDown", p)).unwrap()
        }
        other => panic!("no packing for {other:?}"),
    }
}

fn opened<P>(p: Packed<P>, group: &str, variant: &str) -> Option<(Event, P)> {
    let (venue, instrument, venue_ts, local_ts, source, _, mut payload) = p;
    let inner = payload.remove(group)?.remove(variant)?;
    Some((
        Event {
            venue: VenueId { value: venue.0 },
            instrument: instrument.map(|i| InstrumentId { value: i.0 }),
            venue_ts,
            local_ts,
            source: SourceId(source),
            provenance: None,
            payload: Payload::Control(ControlPayload::SnapshotEnd),
        },
        inner,
    ))
}

fn unpack(b: &[u8]) -> Option<Event> {
    if let Ok(p) = rmp_serde::from_slice::<Packed<PackedTicker>>(b) {
        if let Some((mut e, (bid, ask, update_id))) = opened(p, "Market", "BookTicker") {
            e.payload = Payload::Market(MarketPayload::BookTicker {
                best_bid: level(&bid.0, &bid.1),
                best_ask: level(&ask.0, &ask.1),
                update_id,
            });
            return Some(e);
        }
    }
    if let Ok(p) = rmp_serde::from_slice::<Packed<PackedTrades>>(b) {
        if let Some((mut e, (rows,))) = opened(p, "Market", "Trades") {
            e.payload = Payload::Market(MarketPayload::Trades {
                trades: rows
                    .into_iter()
                    .map(|(id, price, qty, side, kind)| Trade {
                        id,
                        price: dec(&price),
                        qty: dec(&qty),
                        aggressor_side: if side == "Buy" {
                            AggressorSide::Buy
                        } else {
                            AggressorSide::Sell
                        },
                        kind,
                    })
                    .collect(),
            });
            return Some(e);
        }
    }
    if let Ok(p) = rmp_serde::from_slice::<Packed<PackedLiquidation>>(b) {
        if let Some((mut e, l)) = opened(p, "Market", "Liquidation") {
            e.payload = Payload::Market(MarketPayload::Liquidation {
                side: if l.0 == "Buy" { AggressorSide::Buy } else { AggressorSide::Sell },
                price: dec(&l.1),
                qty: dec(&l.2),
                filled_qty: l.3.as_deref().map(dec),
                avg_price: l.4.as_deref().map(dec),
                order_status: l.5,
            });
            return Some(e);
        }
    }
    if let Ok(p) = rmp_serde::from_slice::<Packed<PackedDown>>(b) {
        if let Some((mut e, (label, reason))) = opened(p, "Control", "ConnDown") {
            e.payload = Payload::Control(ControlPayload::ConnDown { label, reason });
            return Some(e);
        }
    }
    None
}

fn encode(e: &Event, buf: &mut Vec<u8>) {
    encode_frame(&pack(e), buf).unwrap();
}

fn decode(buf: &[u8]) -> Result<(Event, usize), WireError> {
    let (payload, consumed) = decode_frame(buf)?;
    Ok((unpack(&payload).unwrap(), consumed))
}

fn make_book_ticker_event() -> Event {
    Event {
        venue: VenueId { value: "binance".to_string() },
        instrument: Some(InstrumentId { value: "btcusdt".to_string() }),
        venue_ts: Some(1_700_000_000_000_000_000),
        local_ts: 1_700_000_000_100_000_000,
        source: SourceId(1),
        provenance: None,
        payload: Payload::Market(MarketPayload::BookTicker {
            best_bid: level("50000.50", "1.5"),
            best_ask: level("50001.00", "2.0"),
            update_id: 400_900_217,
        }),
    }
}

fn make_trade_event() -> Event {
    Event {
        venue: VenueId { value: "binance".to_string() },
        instrument: Some(InstrumentId { value: "ethusdt".to_string() }),
        venue_ts: Some(1_700_000_001_000_000_000),
        local_ts: 1_700_000_001_100_000_000,
        source: SourceId(1),
        provenance: None,
        payload: Payload::Market(MarketPayload::Trades {
            trades: vec![Trade {
                id: "26129".to_string(),
                price: dec("2000.25"),
                qty: dec("10.0"),
                aggressor_side: AggressorSide::Buy,
                kind: Some("MARKET".to_string()),
            }],
        }),
    }
}

fn make_liquidation_event() -> Event {
    Event {
        venue: VenueId { value: "binance".to_string() },
        instrument: Some(InstrumentId { value: "btcusdt".to_string() }),
        venue_ts: Some(1_700_000_002_000_000_000),
        local_ts: 1_700_000_002_100_000_000,
        source: SourceId(2),
        provenance: None,
        payload: Payload::Market(MarketPayload::Liquidation {
            side: AggressorSide::Sell,
            price: dec("9910"),
            qty: dec("0.014"),
            filled_qty: Some(dec("0.014")),
            avg_price: Some(dec("9910")),
            order_status: Some("FILLED".to_string()),
        }),
    }
}

fn make_control_event() -> Event {
    Event {
        venue: VenueId { value: "binance".to_string() },
        instrument: None,
        venue_ts: None,
        local_ts: 1_700_000_003_000_000_000,
        source: SourceId(1),
        provenance: None,
        payload: Payload::Control(ControlPayload::ConnDown {
            label: "ws-1".to_string(),
            reason: "read error".to_string(),
        }),
    }
}

fn encode_all(events: &[Event]) -> Vec<u8> {
    let mut buf = Vec::new();
    for e in events {
        encode(e, &mut buf);
    }
    buf
}

/// The next event, with the reader fed `step` bytes at a time.
fn next_event(
    reader: &mut FrameReader,
    buf: &[u8],
    at: &mut usize,
    step: usize,
) -> Result<Option<Event>, WireError> {
    loop {
        match reader.next_frame()? {
            Progress::Frame(p) => {
                let event = unpack(&p);
                reader.settle(event.is_some());
                if let Some(e) = event {
                    return Ok(Some(e));
                }
            }
            Progress::NeedBytes => {
                let end = buf.len().min(*at + step);
                reader.fill(&buf[*at..end]);
                *at = end;
            }
            Progress::End => return Ok(None),
        }
    }
}

fn read_by(buf: &[u8], step: usize) -> (Vec<Event>, FrameReaderStats) {
    let mut reader = FrameReader::new();
    let mut at = 0;
    let mut out = Vec::new();
    while let Some(e) = next_event(&mut reader, buf, &mut at, step).unwrap() {
        out.push(e);
    }
    (out, *reader.stats())
}

fn read_all(buf: &[u8]) -> (Vec<Event>, FrameReaderStats) {
    let (out, stats) = read_by(buf, 65_536);
    let (bytewise, same) = read_by(buf, 1);
    assert_eq!(bytewise.len(), out.len());
    assert_eq!(stats, same);
    (out, stats)
}

#[test]
fn test_roundtrip_book_ticker() {
    let event = make_book_ticker_event();
    let mut buf = Vec::new();
    encode(&event, &mut buf);

    let (decoded, consumed) = decode(&buf).unwrap();
    assert_eq!(consumed, buf.len());
    assert_eq!(decoded.venue.value, "binance");
    assert_eq!(decoded.instrument.as_ref().unwrap().value, "btcusdt");
    assert_eq!(decoded.venue_ts, Some(1_700_000_000_000_000_000));
    assert_eq!(decoded.local_ts, 1_700_000_000_100_000_000);
    assert_eq!(decoded.source, SourceId(1));
    assert!(decoded.provenance.is_none());

    match &decoded.payload {
        Payload::Market(MarketPayload::BookTicker { best_bid, best_ask, update_id }) => {
            assert!(best_bid.price.same_value(&dec("50000.50")));
            assert!(best_bid.qty.same_value(&dec("1.5")));
            assert!(best_ask.price.same_value(&dec("50001.00")));
            assert!(best_ask.qty.same_value(&dec("2.0")));
            assert_eq!(*update_id, 400_900_217);
        }
        other => panic!("unexpected payload: {other:?}"),
    }
}

#[test]
fn test_roundtrip_trade() {
    let event = make_trade_event();
    let mut buf = Vec::new();
    encode(&event, &mut buf);

    let (decoded, consumed) = decode(&buf).unwrap();
    assert_eq!(consumed, buf.len());
    assert_eq!(decoded.source, SourceId(1));

    match &decoded.payload {
        Payload::Market(MarketPayload::Trades { trades }) => {
            assert_eq!(trades.len(), 1);
            assert_eq!(trades[0].id, "26129");
            assert!(trades[0].price.same_value(&dec("2000.25")));
            assert!(trades[0].qty.same_value(&dec("10.0")));
            assert!(matches!(trades[0].aggressor_side, AggressorSide::Buy));
        }
        other => panic!("unexpected payload: {other:?}"),
    }
}

#[test]
fn test_roundtrip_liquidation() {
    let event = make_liquidation_event();
    let mut buf = Vec::new();
    encode(&event, &mut buf);

    let (decoded, _) = decode(&buf).unwrap();
    assert_eq!(format!("{:?}", decoded.payload), format!("{:?}", event.payload));
}

#[test]
fn test_roundtrip_control() {
    let event = make_control_event();
    let mut buf = Vec::new();
    encode(&event, &mut buf);

    let (decoded, _) = decode(&buf).unwrap();
    assert!(decoded.instrument.is_none());
    assert_eq!(decoded.venue_ts, None);
    assert_eq!(format!("{:?}", decoded.payload), format!("{:?}", event.payload));
}

#[test]
fn test_header_layout() {
    let mut buf = Vec::new();
    encode(&make_book_ticker_event(), &mut buf);
    assert_eq!(&buf[0..4], &MAGIC);
    assert_eq!(buf[4], WIRE_VERSION);
    let len = u32::from_le_bytes(buf[5..9].try_into().unwrap()) as usize;
    assert_eq!(HEADER_LEN + len, buf.len());
}

#[test]
fn test_insufficient_data_empty() {
    assert!(matches!(decode_frame(&[]), Err(WireError::InsufficientData)));
}

#[test]
fn test_insufficient_data_short_header() {
    assert!(matches!(decode_frame(b"WAL"), Err(WireError::InsufficientData)));
}

#[test]
fn test_insufficient_data_truncated_payload() {
    let event = make_book_ticker_event();
    let mut buf = Vec::new();
    encode(&event, &mut buf);

    let truncated = &buf[..buf.len() - 5];
    assert!(matches!(decode_frame(truncated), Err(WireError::InsufficientData)));
}

#[test]
fn test_decode_bad_magic() {
    let mut buf = Vec::new();
    encode(&make_book_ticker_event(), &mut buf);
    buf[0] = b'X';
    assert!(matches!(decode_frame(&buf), Err(WireError::BadMagic { .. })));
}

#[test]
fn test_decode_bad_version() {
    let mut buf = Vec::new();
    encode(&make_book_ticker_event(), &mut buf);
    buf[4] = 9;
    assert!(matches!(decode_frame(&buf), Err(WireError::BadVersion(9))));
}

#[test]
fn test_decode_bad_crc() {
    let mut buf = Vec::new();
    encode(&make_book_ticker_event(), &mut buf);
    let last = buf.len() - 1;
    buf[last] ^= 0xFF;
    assert!(matches!(decode_frame(&buf), Err(WireError::BadCrc)));
}

#[test]
fn test_reader_clean_stream() {
    let events = vec![make_book_ticker_event(), make_trade_event(), make_book_ticker_event()];
    let buf = encode_all(&events);
    let (out, stats) = read_all(&buf);
    assert_eq!(out.len(), 3);
    assert_eq!(stats.frames_ok, 3);
    assert_eq!(stats.resyncs, 0);
    assert_eq!(stats.skipped_bytes, 0);
    assert!(!stats.truncated_tail);
}

#[test]
fn test_reader_empty_input() {
    let (out, stats) = read_all(&[]);
    assert!(out.is_empty());
    assert!(!stats.truncated_tail);
}

#[test]
fn test_reader_corrupt_frame_resyncs() {
    let events = vec![make_book_ticker_event(), make_trade_event(), make_book_ticker_event()];
    let mut buf = encode_all(&events);
    // One payload byte of the middle frame: its checksum no longer holds.
    let mut one = Vec::new();
    encode(&events[0], &mut one);
    buf[one.len() + HEADER_LEN + 3] ^= 0xFF;

    let (out, stats) = read_all(&buf);
    assert_eq!(out.len(), 2, "first and third frames survive");
    assert_eq!(stats.resyncs, 1);
    assert!(stats.skipped_bytes > 0);
    assert!(matches!(
        &out[1].payload,
        Payload::Market(MarketPayload::BookTicker { .. })
    ));
}

#[test]
fn test_reader_resync_skips_magic_inside_payload() {
    // A damaged frame whose payload holds the magic bytes: they are not to be
    // taken for the start of a frame.
    let mut decoy = make_trade_event();
    decoy.instrument = Some(InstrumentId { value: "WAL1WAL1WAL1".to_string() });
    let events = vec![make_book_ticker_event(), decoy, make_trade_event()];
    let mut buf = encode_all(&events);
    let mut one = Vec::new();
    encode(&events[0], &mut one);
    buf[one.len() + 9] ^= 0xFF;

    let (out, stats) = read_all(&buf);
    assert_eq!(out.len(), 2, "first and third frames survive");
    assert_eq!(stats.resyncs, 1);
    match &out[1].payload {
        Payload::Market(MarketPayload::Trades { trades }) => {
            assert_eq!(trades.len(), 1);
        }
        other => panic!("unexpected payload: {other:?}"),
    }
}

#[test]
fn test_reader_truncated_tail() {
    let events = vec![make_book_ticker_event(), make_trade_event()];
    let mut buf = encode_all(&events);
    let mut tail = Vec::new();
    encode(&make_book_ticker_event(), &mut tail);
    buf.extend_from_slice(&tail[..tail.len() / 2]);

    let (out, stats) = read_all(&buf);
    assert_eq!(out.len(), 2);
    assert!(stats.truncated_tail);
    assert_eq!(stats.resyncs, 0);
}

#[test]
fn damage_costs_exactly_the_damaged_frame() {
    let events = vec![make_book_ticker_event(), make_trade_event(), make_book_ticker_event()];
    let sound = encode_all(&events);
    let start = encode_all(&events[..1]).len();
    let len = encode_all(&events[1..2]).len();
    // Every byte of the middle frame but its version, which is fatal, and the low
    // bytes of its length, which may announce more than the file holds.
    let mut flips: Vec<(usize, u8)> = vec![(5, 0x01)];
    for at in (0..4).chain(8..len) {
        flips.push((at, 0xFF));
    }
    for (at, mask) in flips {
        let mut buf = sound.clone();
        buf[start + at] ^= mask;
        let (out, stats) = read_by(&buf, 65_536);
        assert_eq!(out.len(), 2, "byte {at}");
        assert_eq!(stats.skipped_bytes, len as u64, "byte {at}");
        assert_eq!(stats.resyncs, 1, "byte {at}");
        assert!(!stats.truncated_tail, "byte {at}");
    }
}

#[test]
fn junk_that_spells_the_magic_costs_one_search() {
    let mut buf = Vec::new();
    encode(&make_book_ticker_event(), &mut buf);
    let junk = b"WAL1WAL1 and WAL\x01\x00\x00WAL1WAL1\x02\x09";
    buf.extend_from_slice(b"noise");
    buf.extend_from_slice(junk);
    encode(&make_trade_event(), &mut buf);
    encode(&make_control_event(), &mut buf);

    let (out, stats) = read_all(&buf);
    assert_eq!(out.len(), 3);
    assert_eq!(stats.skipped_bytes, (5 + junk.len()) as u64);
    assert_eq!(stats.resyncs, 1);
}

#[test]
fn a_damaged_tail_loses_no_frame() {
    let events = vec![make_book_ticker_event(), make_trade_event(), make_control_event()];
    let mut buf = encode_all(&events);
    let last = buf.len() - 1;
    buf[last] ^= 0xFF;
    buf.extend_from_slice(b"WAL1 noise");

    let (out, _) = read_all(&buf);
    assert_eq!(out.len(), 2);
}

#[test]
fn a_file_cut_anywhere_in_a_frame_keeps_the_frames_before() {
    let whole = encode_all(&vec![make_book_ticker_event(), make_trade_event()]);
    let mut tail = Vec::new();
    encode(&make_control_event(), &mut tail);
    for k in 1..tail.len() {
        let mut buf = whole.clone();
        buf.extend_from_slice(&tail[..k]);
        let (out, stats) = read_by(&buf, 65_536);
        assert_eq!(out.len(), 2, "cut after {k}");
        assert!(stats.truncated_tail, "cut after {k}");
        assert_eq!(stats.skipped_bytes, k as u64);
        assert_eq!(stats.resyncs, 0);
    }
}

#[test]
fn test_reader_bad_version_aborts_sticky() {
    let mut buf = Vec::new();
    encode(&make_book_ticker_event(), &mut buf);

    // A frame that is sound but of version 2, with its own checksum.
    let payload = pack(&make_trade_event());
    let len = (payload.len() as u32).to_le_bytes();
    let mut hasher = crc32fast::Hasher::new();
    hasher.update(&[2u8]);
    hasher.update(&len);
    hasher.update(&payload);
    let crc = hasher.finalize();
    buf.extend_from_slice(&MAGIC);
    buf.push(2u8);
    buf.extend_from_slice(&len);
    buf.extend_from_slice(&crc.to_le_bytes());
    buf.extend_from_slice(&payload);
    // A good frame behind it must not be reached.
    encode(&make_trade_event(), &mut buf);

    let mut reader = FrameReader::new();
    let mut at = 0;
    assert!(next_event(&mut reader, &buf, &mut at, 65_536).unwrap().is_some());
    assert!(matches!(
        next_event(&mut reader, &buf, &mut at, 65_536),
        Err(WireError::BadVersion(2))
    ));
    assert!(matches!(
        next_event(&mut reader, &buf, &mut at, 65_536),
        Err(WireError::BadVersion(2))
    ));
    assert_eq!(reader.stats().frames_ok, 1);
}

#[test]
fn test_reader_frame_too_large_resyncs() {
    // A header that claims an absurd length, then a good frame.
    let mut buf = Vec::new();
    buf.extend_from_slice(&MAGIC);
    buf.push(WIRE_VERSION);
    buf.extend_from_slice(&(u32::MAX).to_le_bytes());
    buf.extend_from_slice(&[0u8; 4]);
    encode(&make_trade_event(), &mut buf);

    let (out, stats) = read_all(&buf);
    assert_eq!(out.len(), 1);
    assert_eq!(stats.resyncs, 1);
}

#[test]
fn test_reader_undecodable_payload_skipped_exactly() {
    // A sound frame whose payload is no event.
    let mut buf = Vec::new();
    encode(&make_book_ticker_event(), &mut buf);
    encode_frame(&rmp_serde::to_vec(&("not", "an", "event")).unwrap(), &mut buf).unwrap();
    encode(&make_trade_event(), &mut buf);

    let (out, stats) = read_all(&buf);
    assert_eq!(out.len(), 2);
    assert_eq!(stats.undecodable_frames, 1);
    assert_eq!(stats.resyncs, 0, "no resync scan for a CRC-valid frame");
    assert_eq!(stats.skipped_bytes, 0);
}

/// The bytes of one fixed event, header and payload.
#[test]
fn test_golden_frame_bytes() {
    let mut buf = Vec::new();
    encode(&make_book_ticker_event(), &mut buf);
    let hex: String = buf.iter().map(|b| format!("{b:02x}")).collect();
    assert_eq!(hex, GOLDEN_BOOK_TICKER_FRAME_HEX);
}

const GOLDEN_BOOK_TICKER_FRAME_HEX: &str = "57414c31015d000000cce2d19c9791a762696e616e636591a762746375736474cf17979cfe362a0000cf17979cfe3c1fe10001c081a64d61726b657481aa426f6f6b5469636b65729392a835303030302e3530a3312e3592a835303030312e3030a3322e30ce17e54079";

#[test]
fn a_payload_over_the_limit_is_refused_and_nothing_is_written() {
    let mut buf = vec![1u8, 2, 3];
    let payload = vec![0u8; MAX_FRAME_LEN + 1];
    match encode_frame(&payload, &mut buf) {
        Err(WireError::FrameTooLarge { len }) => assert_eq!(len, MAX_FRAME_LEN + 1),
        other => panic!("unexpected: {other:?}"),
    }
    assert_eq!(buf, vec![1u8, 2, 3]);
}

#[test]
fn an_announced_length_over_the_limit_is_refused() {
    let mut buf = Vec::new();
    buf.extend_from_slice(&MAGIC);
    buf.push(WIRE_VERSION);
    buf.extend_from_slice(&((MAX_FRAME_LEN + 1) as u32).to_le_bytes());
    buf.extend_from_slice(&[0u8; 4]);
    assert!(matches!(decode_frame(&buf), Err(WireError::FrameTooLarge { .. })));
}

#[test]
fn wire_error_messages() {
    assert_eq!(WireError::Encode("x".to_string()).message(), "encode error: x");
    assert_eq!(WireError::Decode("x".to_string()).message(), "decode error: x");
    assert_eq!(WireError::InsufficientData.message(), "insufficient data");
    assert_eq!(WireError::BadMagic { offset: 12 }.message(), "bad magic at offset 12");
    assert_eq!(WireError::BadVersion(7).message(), "unsupported wire version 7");
    assert_eq!(WireError::BadCrc.message(), "crc mismatch");
    assert_eq!(WireError::FrameTooLarge { len: 99 }.message(), "frame length 99 exceeds maximum");
    assert_eq!(WireError::Io("gone".to_string()).message(), "io error: gone");
}
