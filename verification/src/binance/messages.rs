//! Stream messages and the events they become. Everything the venue sends and
//! the event model has a place for is kept.
use super::funding::{funding_for, meta_for, FundingMap, FundingMeta};
use crate::decimal::Decimal;
use crate::events::Event;
use crate::payloads::{MarketPayload, Payload};
use crate::text::{dec, lowercase, opt_view, same, to_lower, u64_text};
use crate::types::{
    ms_to_nanos, AggressorSide, InstrumentId, Level, Nanos, SourceId, Trade, VenueId,
};
use vstd::prelude::*;
use vstd::string::*;

verus! {

/// Best bid and ask; times in milliseconds here and below.
#[derive(Debug)]
pub struct BookTickerMsg {
    pub symbol: String,
    pub update_id: u64,
    pub bid: Level,
    pub ask: Level,
    pub transaction_time: u64,
}

/// One fill.
#[derive(Debug)]
pub struct TradeMsg {
    pub symbol: String,
    pub trade_id: u64,
    pub price: Decimal,
    pub qty: Decimal,
    pub time: u64,
    pub buyer_is_maker: bool,
    pub kind: Option<String>,
}

/// Fills of one order aggregated, which carry no type.
#[derive(Debug)]
pub struct AggTradeMsg {
    pub symbol: String,
    pub agg_id: u64,
    pub price: Decimal,
    pub qty: Decimal,
    pub time: u64,
    pub buyer_is_maker: bool,
}

#[derive(Debug)]
pub struct DepthUpdateMsg {
    pub symbol: String,
    pub event_time: u64,
    pub transaction_time: u64,
    pub first_update_id: u64,
    pub final_update_id: u64,
    pub prev_final_update_id: Option<u64>,
    pub bids: Vec<Level>,
    pub asks: Vec<Level>,
}

/// Mark, index and funding; this stream has no transaction time.
#[derive(Debug)]
pub struct MarkPriceUpdateMsg {
    pub symbol: String,
    pub event_time: u64,
    pub mark_price: Decimal,
    pub index_price: Decimal,
    pub funding_rate: Decimal,
    pub next_funding_time: u64,
}

/// A liquidation order.
#[derive(Debug)]
pub struct ForceOrderMsg {
    pub symbol: String,
    pub side: String,
    pub qty: Decimal,
    pub price: Decimal,
    pub avg_price: Option<Decimal>,
    pub status: Option<String>,
    pub filled_qty: Option<Decimal>,
    pub time: u64,
}

#[derive(Debug)]
pub enum BinanceWsMessage {
    BookTicker(BookTickerMsg),
    Trade(TradeMsg),
    AggTrade(AggTradeMsg),
    DepthUpdate(DepthUpdateMsg),
    MarkPriceUpdate(MarkPriceUpdateMsg),
    ForceOrder(ForceOrderMsg),
}

pub open spec fn in_nanos(ms: u64) -> bool {
    ms * 1_000_000 <= u64::MAX
}

/// The times of a message can be told in nanoseconds.
pub open spec fn times_fit(m: BinanceWsMessage) -> bool {
    match m {
        BinanceWsMessage::BookTicker(x) => in_nanos(x.transaction_time),
        BinanceWsMessage::Trade(x) => in_nanos(x.time),
        BinanceWsMessage::AggTrade(x) => in_nanos(x.time),
        BinanceWsMessage::DepthUpdate(x) => in_nanos(x.transaction_time) && in_nanos(x.event_time),
        BinanceWsMessage::MarkPriceUpdate(x) => in_nanos(x.event_time) && in_nanos(
            x.next_funding_time,
        ),
        BinanceWsMessage::ForceOrder(x) => in_nanos(x.time),
    }
}

fn told_in_nanos(ms: u64) -> (r: bool)
    ensures
        r == in_nanos(ms),
{
    ms <= u64::MAX / 1_000_000
}

/// Whether the times of a message can be told in nanoseconds.
pub fn times_ok(m: &BinanceWsMessage) -> (r: bool)
    ensures
        r == times_fit(*m),
{
    match m {
        BinanceWsMessage::BookTicker(x) => told_in_nanos(x.transaction_time),
        BinanceWsMessage::Trade(x) => told_in_nanos(x.time),
        BinanceWsMessage::AggTrade(x) => told_in_nanos(x.time),
        BinanceWsMessage::DepthUpdate(x) => told_in_nanos(x.transaction_time) && told_in_nanos(
            x.event_time,
        ),
        BinanceWsMessage::MarkPriceUpdate(x) => told_in_nanos(x.event_time) && told_in_nanos(
            x.next_funding_time,
        ),
        BinanceWsMessage::ForceOrder(x) => told_in_nanos(x.time),
    }
}

/// Who took the trade: with the buyer making, the seller did.
pub open spec fn aggressor(buyer_is_maker: bool) -> AggressorSide {
    if buyer_is_maker {
        AggressorSide::Sell
    } else {
        AggressorSide::Buy
    }
}

fn aggressor_of(buyer_is_maker: bool) -> (r: AggressorSide)
    ensures
        r == aggressor(buyer_is_maker),
{
    if buyer_is_maker {
        AggressorSide::Sell
    } else {
        AggressorSide::Buy
    }
}

/// What surrounds the payload of every event of a message.
pub struct Envelope {
    pub venue: Seq<char>,
    pub source: SourceId,
    pub now: Nanos,
}

/// The event is about the symbol and happened at the venue's time.
pub open spec fn about(e: Event, env: Envelope, symbol: Seq<char>, venue_ms: u64) -> bool {
    e.enveloped(
        env.venue,
        Some(lowercase(symbol)),
        Some((venue_ms * 1_000_000) as u64),
        env.now,
        env.source,
    )
}

/// One trade with the given parts.
pub open spec fn single_trade(
    p: Payload,
    id: nat,
    price: Decimal,
    qty: Decimal,
    side: AggressorSide,
    kind: Option<Seq<char>>,
) -> bool {
    p matches Payload::Market(MarketPayload::Trades { trades }) && trades@.len() == 1
        && trades@[0].id@ == dec(id) && trades@[0].price == price && trades@[0].qty == qty
        && trades@[0].aggressor_side == side && opt_view(trades@[0].kind) == kind
}

/// The funding prediction with the metadata of its symbol.
pub open spec fn prediction(rate: Decimal, next_funding_ms: u64, meta: FundingMeta) -> Payload {
    Payload::Market(
        MarketPayload::FundingRatePrediction {
            rate,
            next_funding_time: (next_funding_ms * 1_000_000) as u64,
            interval: Some(meta.interval),
            premium_index: None,
            clamp_min: meta.floor,
            clamp_max: meta.cap,
        },
    )
}

/// The events are what the message says.
pub open spec fn says(
    m: BinanceWsMessage,
    env: Envelope,
    funding: Map<Seq<char>, FundingMeta>,
    events: Seq<Event>,
) -> bool {
    match m {
        BinanceWsMessage::BookTicker(x) => {
            &&& events.len() == 1
            &&& about(events[0], env, x.symbol@, x.transaction_time)
            &&& events[0].payload == Payload::Market(
                MarketPayload::BookTicker {
                    best_bid: x.bid,
                    best_ask: x.ask,
                    update_id: x.update_id,
                },
            )
        },
        BinanceWsMessage::Trade(x) => {
            &&& events.len() == 1
            &&& about(events[0], env, x.symbol@, x.time)
            &&& single_trade(
                events[0].payload,
                x.trade_id as nat,
                x.price,
                x.qty,
                aggressor(x.buyer_is_maker),
                opt_view(x.kind),
            )
        },
        BinanceWsMessage::AggTrade(x) => {
            &&& events.len() == 1
            &&& about(events[0], env, x.symbol@, x.time)
            &&& single_trade(
                events[0].payload,
                x.agg_id as nat,
                x.price,
                x.qty,
                aggressor(x.buyer_is_maker),
                None,
            )
        },
        BinanceWsMessage::DepthUpdate(x) => {
            &&& events.len() == 1
            &&& about(events[0], env, x.symbol@, x.transaction_time)
            &&& events[0].payload matches Payload::Market(
                MarketPayload::BookUpdate {
                    bids,
                    asks,
                    first_update_id,
                    final_update_id,
                    prev_final_update_id,
                    event_time,
                },
            ) && bids@ == x.bids@ && asks@ == x.asks@ && first_update_id == x.first_update_id
                && final_update_id == x.final_update_id && prev_final_update_id
                == x.prev_final_update_id && event_time == Some((x.event_time * 1_000_000) as u64)
        },
        BinanceWsMessage::MarkPriceUpdate(x) => {
            &&& events.len() == 3
            &&& about(events[0], env, x.symbol@, x.event_time)
            &&& about(events[1], env, x.symbol@, x.event_time)
            &&& about(events[2], env, x.symbol@, x.event_time)
            &&& events[0].payload == Payload::Market(
                MarketPayload::MarkPrice { price: x.mark_price },
            )
            &&& events[1].payload == Payload::Market(
                MarketPayload::IndexPrice { price: x.index_price },
            )
            &&& events[2].payload == prediction(
                x.funding_rate,
                x.next_funding_time,
                meta_for(funding, lowercase(x.symbol@)),
            )
        },
        BinanceWsMessage::ForceOrder(x) => {
            &&& events.len() == 1
            &&& about(events[0], env, x.symbol@, x.time)
            &&& events[0].payload matches Payload::Market(
                MarketPayload::Liquidation {
                    side,
                    price,
                    qty,
                    filled_qty,
                    avg_price,
                    order_status,
                },
            ) && side == (if x.side@ == "SELL"@ {
                AggressorSide::Sell
            } else {
                AggressorSide::Buy
            }) && price == x.price && qty == x.qty && filled_qty == x.filled_qty && avg_price
                == x.avg_price && opt_view(order_status) == opt_view(x.status)
        },
    }
}

/// An event about a symbol.
pub(crate) fn symbol_event(
    venue: &VenueId,
    symbol: &str,
    venue_ms: u64,
    now: Nanos,
    source: SourceId,
    payload: Payload,
) -> (r: Event)
    requires
        in_nanos(venue_ms),
    ensures
        about(r, (Envelope { venue: venue.value@, source, now }), symbol@, venue_ms),
        r.payload == payload,
{
    Event {
        venue: venue.clone(),
        instrument: Some(InstrumentId { value: to_lower(symbol) }),
        venue_ts: Some(ms_to_nanos(venue_ms)),
        local_ts: now,
        source,
        provenance: None,
        payload,
    }
}

/// A copy of book levels.
pub(crate) fn copy_levels(levels: &Vec<Level>) -> (r: Vec<Level>)
    ensures
        r@ == levels@,
{
    let mut out: Vec<Level> = Vec::new();
    let mut i: usize = 0;
    while i < levels.len()
        invariant
            i <= levels@.len(),
            out@ == levels@.take(i as int),
        decreases levels@.len() - i,
    {
        out.push(levels[i]);
        i = i + 1;
        assert(out@ =~= levels@.take(i as int));
    }
    assert(levels@.take(levels@.len() as int) =~= levels@);
    out
}

fn copy_text(t: &Option<String>) -> (r: Option<String>)
    ensures
        opt_view(r) == opt_view(*t),
{
    match t {
        Some(s) => Some(s.clone()),
        None => None,
    }
}

fn one(e: Event) -> (r: Vec<Event>)
    ensures
        r@ == seq![e],
{
    let mut v: Vec<Event> = Vec::new();
    v.push(e);
    v
}

fn trade_payload(
    id: u64,
    price: Decimal,
    qty: Decimal,
    aggressor_side: AggressorSide,
    kind: Option<String>,
) -> (r: Payload)
    ensures
        single_trade(r, id as nat, price, qty, aggressor_side, opt_view(kind)),
{
    let mut trades: Vec<Trade> = Vec::new();
    trades.push(Trade { id: u64_text(id), price, qty, aggressor_side, kind });
    Payload::Market(MarketPayload::Trades { trades })
}

/// The events of a message received at `now`.
pub fn message_events(
    msg: &BinanceWsMessage,
    venue: &VenueId,
    source: SourceId,
    funding: &FundingMap,
    now: Nanos,
) -> (r: Vec<Event>)
    requires
        times_fit(*msg),
        funding.wf(),
    ensures
        says(*msg, (Envelope { venue: venue.value@, source, now }), funding.as_map(), r@),
{
    match msg {
        BinanceWsMessage::BookTicker(x) => one(
            symbol_event(
                venue,
                x.symbol.as_str(),
                x.transaction_time,
                now,
                source,
                Payload::Market(
                    MarketPayload::BookTicker {
                        best_bid: x.bid,
                        best_ask: x.ask,
                        update_id: x.update_id,
                    },
                ),
            ),
        ),
        BinanceWsMessage::Trade(x) => one(
            symbol_event(
                venue,
                x.symbol.as_str(),
                x.time,
                now,
                source,
                trade_payload(
                    x.trade_id,
                    x.price,
                    x.qty,
                    aggressor_of(x.buyer_is_maker),
                    copy_text(&x.kind),
                ),
            ),
        ),
        BinanceWsMessage::AggTrade(x) => one(
            symbol_event(
                venue,
                x.symbol.as_str(),
                x.time,
                now,
                source,
                trade_payload(x.agg_id, x.price, x.qty, aggressor_of(x.buyer_is_maker), None),
            ),
        ),
        BinanceWsMessage::DepthUpdate(x) => one(
            symbol_event(
                venue,
                x.symbol.as_str(),
                x.transaction_time,
                now,
                source,
                Payload::Market(
                    MarketPayload::BookUpdate {
                        bids: copy_levels(&x.bids),
                        asks: copy_levels(&x.asks),
                        first_update_id: x.first_update_id,
                        final_update_id: x.final_update_id,
                        prev_final_update_id: x.prev_final_update_id,
                        event_time: Some(ms_to_nanos(x.event_time)),
                    },
                ),
            ),
        ),
        BinanceWsMessage::MarkPriceUpdate(x) => {
            let meta: FundingMeta = funding_for(funding, to_lower(x.symbol.as_str()).as_str());
            let mut out: Vec<Event> = Vec::new();
            out.push(
                symbol_event(
                    venue,
                    x.symbol.as_str(),
                    x.event_time,
                    now,
                    source,
                    Payload::Market(MarketPayload::MarkPrice { price: x.mark_price }),
                ),
            );
            out.push(
                symbol_event(
                    venue,
                    x.symbol.as_str(),
                    x.event_time,
                    now,
                    source,
                    Payload::Market(MarketPayload::IndexPrice { price: x.index_price }),
                ),
            );
            out.push(
                symbol_event(
                    venue,
                    x.symbol.as_str(),
                    x.event_time,
                    now,
                    source,
                    Payload::Market(
                        MarketPayload::FundingRatePrediction {
                            rate: x.funding_rate,
                            next_funding_time: ms_to_nanos(x.next_funding_time),
                            interval: Some(meta.interval),
                            premium_index: None,
                            clamp_min: meta.floor,
                            clamp_max: meta.cap,
                        },
                    ),
                ),
            );
            out
        },
        BinanceWsMessage::ForceOrder(x) => {
            let side: AggressorSide = if same(x.side.as_str(), "SELL") {
                AggressorSide::Sell
            } else {
                AggressorSide::Buy
            };
            one(
                symbol_event(
                    venue,
                    x.symbol.as_str(),
                    x.time,
                    now,
                    source,
                    Payload::Market(
                        MarketPayload::Liquidation {
                            side,
                            price: x.price,
                            qty: x.qty,
                            filled_qty: x.filled_qty,
                            avg_price: x.avg_price,
                            order_status: copy_text(&x.status),
                        },
                    ),
                ),
            )
        },
    }
}

/// The symbol whose book a message updates.
pub open spec fn updated_book(m: BinanceWsMessage) -> Option<Seq<char>> {
    match m {
        BinanceWsMessage::DepthUpdate(x) => Some(lowercase(x.symbol@)),
        _ => None,
    }
}

/// The symbol whose book the last update among the messages is for.
pub open spec fn last_book(msgs: Seq<BinanceWsMessage>) -> Option<Seq<char>>
    decreases msgs.len(),
{
    if msgs.len() == 0 {
        None
    } else {
        match updated_book(msgs.last()) {
            Some(s) => Some(s),
            None => last_book(msgs.drop_last()),
        }
    }
}

/// What the parser made of a text frame. A frame that is no data goes to the
/// watcher of replies; a depth update tells its symbol, so that the connection
/// can ask for the snapshot it builds on.
#[derive(Debug)]
pub struct ParseOutcome {
    pub is_data: bool,
    pub depth_symbol: Option<String>,
}

/// What became of a frame: of its messages, if it held any data.
pub fn parse_outcome(msgs: Option<&Vec<BinanceWsMessage>>) -> (r: ParseOutcome)
    ensures
        match msgs {
            Some(m) => r.is_data && opt_view(r.depth_symbol) == last_book(m@),
            None => !r.is_data && r.depth_symbol is None,
        },
{
    match msgs {
        None => ParseOutcome { is_data: false, depth_symbol: None },
        Some(m) => {
            let mut depth_symbol: Option<String> = None;
            let mut i: usize = 0;
            while i < m.len()
                invariant
                    i <= m@.len(),
                    opt_view(depth_symbol) == last_book(m@.take(i as int)),
                decreases m@.len() - i,
            {
                proof {
                    let t = m@.take(i + 1);
                    assert(t.drop_last() =~= m@.take(i as int));
                    assert(t.last() == m@[i as int]);
                }
                if let BinanceWsMessage::DepthUpdate(x) = &m[i] {
                    depth_symbol = Some(to_lower(x.symbol.as_str()));
                }
                i = i + 1;
            }
            assert(m@.take(m@.len() as int) =~= m@);
            ParseOutcome { is_data: true, depth_symbol }
        },
    }
}

/// Whether a frame is an array of messages, as the venue-wide streams deliver
/// them.
pub fn is_array_frame(text: &str) -> (r: bool)
    ensures
        r == (text@.len() > 0 && text@[0] == '['),
{
    text.unicode_len() > 0 && text.get_char(0) == '['
}

} // verus!
