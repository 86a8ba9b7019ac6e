//! What the events of messages and polls are for: what can be read back from
//! them.
use super::funding::{meta_for, meta_map, FundingInfoEntry, FundingMeta};
use super::messages::{
    last_book, says, times_fit, AggTradeMsg, BinanceWsMessage, BookTickerMsg, DepthUpdateMsg,
    Envelope, ForceOrderMsg, MarkPriceUpdateMsg, TradeMsg,
};
use crate::events::Event;
use crate::payloads::{MarketPayload, Payload};
use crate::text::{law_dec_parses, lowercase, parse_uint};
use crate::types::{AggressorSide, Trade};
use vstd::prelude::*;

verus! {

// ---------------------------------------------------------------------------
// The envelope
// ---------------------------------------------------------------------------

/// The event is of this venue and connection, was received at this instant, is
/// about this symbol in lower case, and tells the venue's milliseconds exactly.
pub open spec fn stems_from(e: Event, env: Envelope, symbol: Seq<char>, ms: u64) -> bool {
    &&& e.venue.value@ == env.venue
    &&& e.source == env.source
    &&& e.local_ts == env.now
    &&& e.provenance is None
    &&& e.instrument matches Some(id) && id.value@ == lowercase(symbol)
    &&& e.venue_ts matches Some(t) && t / 1_000_000 == ms && t % 1_000_000 == 0
}

/// Every event of a message stems from it: the venue's own time is the
/// transaction time where the message has one, and the event time of a mark price
/// update, which has none.
pub proof fn law_events_stem_from_their_message(
    m: BinanceWsMessage,
    env: Envelope,
    funding: Map<Seq<char>, FundingMeta>,
    events: Seq<Event>,
    i: int,
)
    requires
        times_fit(m),
        says(m, env, funding, events),
        0 <= i < events.len(),
    ensures
        m matches BinanceWsMessage::BookTicker(x) ==> stems_from(
            events[i],
            env,
            x.symbol@,
            x.transaction_time,
        ),
        m matches BinanceWsMessage::Trade(x) ==> stems_from(events[i], env, x.symbol@, x.time),
        m matches BinanceWsMessage::AggTrade(x) ==> stems_from(events[i], env, x.symbol@, x.time),
        m matches BinanceWsMessage::DepthUpdate(x) ==> stems_from(
            events[i],
            env,
            x.symbol@,
            x.transaction_time,
        ),
        m matches BinanceWsMessage::MarkPriceUpdate(x) ==> stems_from(
            events[i],
            env,
            x.symbol@,
            x.event_time,
        ),
        m matches BinanceWsMessage::ForceOrder(x) ==> stems_from(
            events[i],
            env,
            x.symbol@,
            x.time,
        ),
{
}

/// A message tells its times in nanoseconds exactly where no time it has is
/// later than the last whole millisecond that 64 bits of nanoseconds hold.
pub proof fn law_late_times_do_not_fit(m: BinanceWsMessage)
    ensures
        times_fit(m) == (match m {
            BinanceWsMessage::BookTicker(x) => x.transaction_time <= 18_446_744_073_709,
            BinanceWsMessage::Trade(x) => x.time <= 18_446_744_073_709,
            BinanceWsMessage::AggTrade(x) => x.time <= 18_446_744_073_709,
            BinanceWsMessage::DepthUpdate(x) => x.transaction_time <= 18_446_744_073_709
                && x.event_time <= 18_446_744_073_709,
            BinanceWsMessage::MarkPriceUpdate(x) => x.event_time <= 18_446_744_073_709
                && x.next_funding_time <= 18_446_744_073_709,
            BinanceWsMessage::ForceOrder(x) => x.time <= 18_446_744_073_709,
        }),
{
}

// ---------------------------------------------------------------------------
// Trades
// ---------------------------------------------------------------------------

/// The one trade of an event, if it carries one.
pub open spec fn lone_trade(e: Event) -> Option<Trade> {
    match e.payload {
        Payload::Market(MarketPayload::Trades { trades }) if trades@.len() == 1 => Some(trades@[0]),
        _ => None,
    }
}

/// A trade message is one trade, which tells the message back: its number, its
/// price, its size and its kind. Who took it is not who made it: the seller took
/// exactly where the buyer made.
pub proof fn law_trade_reads_back(
    x: TradeMsg,
    env: Envelope,
    funding: Map<Seq<char>, FundingMeta>,
    events: Seq<Event>,
)
    requires
        says(BinanceWsMessage::Trade(x), env, funding, events),
    ensures
        events.len() == 1,
        lone_trade(events[0]) matches Some(t) && {
            &&& parse_uint(t.id@, u64::MAX as nat) == Some(x.trade_id as nat)
            &&& t.price == x.price
            &&& t.qty == x.qty
            &&& (t.aggressor_side == AggressorSide::Sell <==> x.buyer_is_maker)
            &&& (t.aggressor_side == AggressorSide::Buy <==> !x.buyer_is_maker)
            &&& (t.kind is Some <==> x.kind is Some)
            &&& (t.kind matches Some(k) ==> k@ == x.kind->0@)
        },
{
    law_dec_parses(x.trade_id as nat, u64::MAX as nat);
}

/// An aggregate is one trade too, and tells the message back; it has no kind.
pub proof fn law_aggregate_reads_back(
    x: AggTradeMsg,
    env: Envelope,
    funding: Map<Seq<char>, FundingMeta>,
    events: Seq<Event>,
)
    requires
        says(BinanceWsMessage::AggTrade(x), env, funding, events),
    ensures
        events.len() == 1,
        lone_trade(events[0]) matches Some(t) && {
            &&& parse_uint(t.id@, u64::MAX as nat) == Some(x.agg_id as nat)
            &&& t.price == x.price
            &&& t.qty == x.qty
            &&& (t.aggressor_side == AggressorSide::Sell <==> x.buyer_is_maker)
            &&& (t.aggressor_side == AggressorSide::Buy <==> !x.buyer_is_maker)
            &&& t.kind is None
        },
{
    law_dec_parses(x.agg_id as nat, u64::MAX as nat);
}

/// The two trade streams agree on who took: a fill and an aggregate with the same
/// maker have the same side, and with other makers the other.
pub proof fn law_trade_streams_agree(
    x: TradeMsg,
    y: AggTradeMsg,
    env: Envelope,
    funding: Map<Seq<char>, FundingMeta>,
    fills: Seq<Event>,
    aggregates: Seq<Event>,
)
    requires
        says(BinanceWsMessage::Trade(x), env, funding, fills),
        says(BinanceWsMessage::AggTrade(y), env, funding, aggregates),
    ensures
        (lone_trade(fills[0])->0.aggressor_side == lone_trade(aggregates[0])->0.aggressor_side)
            <==> (x.buyer_is_maker == y.buyer_is_maker),
{
}

// ---------------------------------------------------------------------------
// Books
// ---------------------------------------------------------------------------

/// A book ticker is one event with the message's bid as best bid, its ask as best
/// ask, and its update id.
pub proof fn law_ticker_reads_back(
    x: BookTickerMsg,
    env: Envelope,
    funding: Map<Seq<char>, FundingMeta>,
    events: Seq<Event>,
)
    requires
        says(BinanceWsMessage::BookTicker(x), env, funding, events),
    ensures
        events.len() == 1,
        events[0].payload matches Payload::Market(
            MarketPayload::BookTicker { best_bid, best_ask, update_id },
        ) && best_bid.price == x.bid.price && best_bid.qty == x.bid.qty && best_ask.price
            == x.ask.price && best_ask.qty == x.ask.qty && update_id == x.update_id,
{
}

/// A depth update is one event with all the levels of the message, each on its
/// side and in its place, the ids that chain it, and the venue's event time beside
/// the transaction time.
pub proof fn law_depth_reads_back(
    x: DepthUpdateMsg,
    env: Envelope,
    funding: Map<Seq<char>, FundingMeta>,
    events: Seq<Event>,
)
    requires
        times_fit(BinanceWsMessage::DepthUpdate(x)),
        says(BinanceWsMessage::DepthUpdate(x), env, funding, events),
    ensures
        events.len() == 1,
        events[0].payload matches Payload::Market(
            MarketPayload::BookUpdate {
                bids,
                asks,
                first_update_id,
                final_update_id,
                prev_final_update_id,
                event_time,
            },
        ) && {
            &&& bids@.len() == x.bids@.len()
            &&& asks@.len() == x.asks@.len()
            &&& forall|k: int| 0 <= k < x.bids@.len() ==> bids@[k] == #[trigger] x.bids@[k]
            &&& forall|k: int| 0 <= k < x.asks@.len() ==> asks@[k] == #[trigger] x.asks@[k]
            &&& first_update_id == x.first_update_id
            &&& final_update_id == x.final_update_id
            &&& prev_final_update_id == x.prev_final_update_id
            &&& event_time matches Some(t) && t / 1_000_000 == x.event_time && t % 1_000_000 == 0
        },
{
}

/// Among messages, the book whose snapshot is asked for is that of the last depth
/// update: a message says so, and no later one updates a book.
pub proof fn law_last_book_is_of_the_last_update(msgs: Seq<BinanceWsMessage>, symbol: Seq<char>)
    ensures
        last_book(msgs) == Some(symbol) <==> exists|i: int|
            0 <= i < msgs.len() && (#[trigger] msgs[i] matches BinanceWsMessage::DepthUpdate(x)
                && lowercase(x.symbol@) == symbol) && forall|k: int|
                i < k < msgs.len() ==> !((#[trigger] msgs[k]) is DepthUpdate),
        last_book(msgs) is None <==> forall|k: int|
            0 <= k < msgs.len() ==> !((#[trigger] msgs[k]) is DepthUpdate),
    decreases msgs.len(),
{
    if msgs.len() > 0 {
        let p = msgs.drop_last();
        let n = msgs.len() - 1;
        law_last_book_is_of_the_last_update(p, symbol);
        assert(forall|k: int| 0 <= k < n ==> p[k] == #[trigger] msgs[k]);
        assert(forall|k: int| 0 <= k < n ==> #[trigger] p[k] == msgs[k]);
        if msgs[n] is DepthUpdate {
            if last_book(msgs) == Some(symbol) {
                assert(msgs[n] matches BinanceWsMessage::DepthUpdate(x) && lowercase(x.symbol@)
                    == symbol);
            }
        }
    }
}

// ---------------------------------------------------------------------------
// Prices, funding, liquidations
// ---------------------------------------------------------------------------

/// A mark price update is three events: the mark, the index, and the funding to
/// expect, whose interval and clamps are those the venue lists for the symbol,
/// floor below and cap above, or eight hours and no clamps.
pub proof fn law_mark_price_reads_back(
    x: MarkPriceUpdateMsg,
    env: Envelope,
    funding: Map<Seq<char>, FundingMeta>,
    events: Seq<Event>,
)
    requires
        times_fit(BinanceWsMessage::MarkPriceUpdate(x)),
        says(BinanceWsMessage::MarkPriceUpdate(x), env, funding, events),
    ensures
        events.len() == 3,
        events[0].payload matches Payload::Market(MarketPayload::MarkPrice { price }) && price
            == x.mark_price,
        events[1].payload matches Payload::Market(MarketPayload::IndexPrice { price }) && price
            == x.index_price,
        events[2].payload matches Payload::Market(
            MarketPayload::FundingRatePrediction {
                rate,
                next_funding_time,
                interval,
                premium_index,
                clamp_min,
                clamp_max,
            },
        ) && {
            let key = lowercase(x.symbol@);
            let listed = funding.dom().contains(key);
            &&& rate == x.funding_rate
            &&& next_funding_time / 1_000_000 == x.next_funding_time
            &&& next_funding_time % 1_000_000 == 0
            &&& premium_index is None
            &&& listed ==> interval == Some(funding[key].interval) && clamp_min
                == funding[key].floor && clamp_max == funding[key].cap
            &&& !listed ==> interval == Some((8 * 3_600 * 1_000_000_000) as u64) && clamp_min
                is None && clamp_max is None
        },
{
}

/// A liquidation order is one event with the message's prices, sizes and status.
/// It sells exactly where the message says so.
pub proof fn law_liquidation_reads_back(
    x: ForceOrderMsg,
    env: Envelope,
    funding: Map<Seq<char>, FundingMeta>,
    events: Seq<Event>,
)
    requires
        says(BinanceWsMessage::ForceOrder(x), env, funding, events),
    ensures
        events.len() == 1,
        events[0].payload matches Payload::Market(
            MarketPayload::Liquidation { side, price, qty, filled_qty, avg_price, order_status },
        ) && {
            &&& (side == AggressorSide::Sell <==> x.side@ == "SELL"@)
            &&& price == x.price
            &&& qty == x.qty
            &&& filled_qty == x.filled_qty
            &&& avg_price == x.avg_price
            &&& (order_status is Some <==> x.status is Some)
            &&& (order_status matches Some(s) ==> s@ == x.status->0@)
        },
{
}

/// What the venue lists for a symbol is what its last entry says: the hours as an
/// interval, eight where none are given, and the clamps each in its place. What no
/// entry names is not listed.
pub proof fn law_funding_is_of_the_last_entry(
    entries: Seq<FundingInfoEntry>,
    symbol: Seq<char>,
    i: int,
)
    ensures
        0 <= i < entries.len() && lowercase(entries[i].symbol@) == symbol && (forall|k: int|
            i < k < entries.len() ==> lowercase((#[trigger] entries[k]).symbol@) != symbol) ==> {
            &&& meta_map(entries).dom().contains(symbol)
            &&& meta_map(entries)[symbol].cap == entries[i].adjusted_funding_rate_cap
            &&& meta_map(entries)[symbol].floor == entries[i].adjusted_funding_rate_floor
            &&& entries[i].funding_interval_hours matches Some(h) ==> (h * 3_600_000_000_000
                <= u64::MAX ==> meta_map(entries)[symbol].interval == h * 3_600_000_000_000)
            &&& entries[i].funding_interval_hours is None ==> meta_map(entries)[symbol].interval
                == 8 * 3_600_000_000_000
        },
        (forall|k: int|
            0 <= k < entries.len() ==> lowercase((#[trigger] entries[k]).symbol@) != symbol)
            ==> !meta_map(entries).dom().contains(symbol),
    decreases entries.len(),
{
    if entries.len() > 0 {
        let p = entries.drop_last();
        let n = entries.len() - 1;
        law_funding_is_of_the_last_entry(p, symbol, i);
        assert(forall|k: int| 0 <= k < n ==> #[trigger] p[k] == entries[k]);
        if lowercase(entries[n].symbol@) != symbol {
            assert(entries.last() == entries[n]);
        }
    }
}

/// What counts for a symbol is what is listed for it, else eight hours without
/// clamps.
pub proof fn law_unlisted_funding_is_the_default(
    m: Map<Seq<char>, FundingMeta>,
    symbol: Seq<char>,
)
    ensures
        m.dom().contains(symbol) ==> meta_for(m, symbol) == m[symbol],
        !m.dom().contains(symbol) ==> meta_for(m, symbol).interval == 8 * 3_600_000_000_000
            && meta_for(m, symbol).cap is None && meta_for(m, symbol).floor is None,
{
}

} // verus!
