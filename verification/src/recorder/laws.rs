//! What the tables and counters are for: what can be read back from them.
use super::convert::{damaged, routed, Tables};
use super::tables::{BookSide, RowKey};
use crate::events::Event;
use crate::payloads::{MarketPayload, Payload};
use crate::types::Level;
use vstd::prelude::*;

verus! {

/// The envelope columns of a row tell the event's: its instrument, both times and
/// the connection it came from.
pub open spec fn bears(k: RowKey, e: Event) -> bool {
    &&& e.instrument matches Some(id) && k.instrument == id.value
    &&& k.venue_ts == e.venue_ts
    &&& k.local_ts == e.local_ts
    &&& k.source == e.source
}

/// No table lost or changed a row that it had.
pub proof fn law_rows_stay(o: Tables, n: Tables, e: Event, i: int)
    requires
        routed(o, n, e),
        0 <= i,
    ensures
        i < o.book_ticker@.len() ==> n.book_ticker@[i] == o.book_ticker@[i],
        i < o.trades@.len() ==> n.trades@[i] == o.trades@[i],
        i < o.mark_price@.len() ==> n.mark_price@[i] == o.mark_price@[i],
        i < o.index_price@.len() ==> n.index_price@[i] == o.index_price@[i],
        i < o.funding_rate@.len() ==> n.funding_rate@[i] == o.funding_rate@[i],
        i < o.funding_rate_realized@.len() ==> n.funding_rate_realized@[i]
            == o.funding_rate_realized@[i],
        i < o.book_snapshot@.len() ==> n.book_snapshot@[i] == o.book_snapshot@[i],
        i < o.book_update@.len() ==> n.book_update@[i] == o.book_update@[i],
        i < o.liquidation@.len() ==> n.liquidation@[i] == o.liquidation@[i],
        i < o.open_interest@.len() ==> n.open_interest@[i] == o.open_interest@[i],
        i < o.control@.len() ==> n.control@[i] == o.control@[i],
        i < o.reference@.len() ==> n.reference@[i] == o.reference@[i],
{
}

/// The kind of market payload an event about an instrument brings; nothing where
/// the event is not of the market or names no instrument.
pub open spec fn brought(e: Event) -> Option<MarketPayload> {
    if e.instrument is Some && e.payload is Market {
        Some(e.payload->Market_0)
    } else {
        None
    }
}

/// An event reaches no table but its own.
pub proof fn law_tables_hold_their_kind(o: Tables, n: Tables, e: Event)
    requires
        routed(o, n, e),
    ensures
        !(brought(e) matches Some(m) && m is BookTicker) ==> n.book_ticker@ == o.book_ticker@,
        !(brought(e) matches Some(m) && m is Trades) ==> n.trades@ == o.trades@,
        !(brought(e) matches Some(m) && m is MarkPrice) ==> n.mark_price@ == o.mark_price@,
        !(brought(e) matches Some(m) && m is IndexPrice) ==> n.index_price@ == o.index_price@,
        !(brought(e) matches Some(m) && m is FundingRatePrediction) ==> n.funding_rate@
            == o.funding_rate@,
        !(brought(e) matches Some(m) && m is FundingRateRealized) ==> n.funding_rate_realized@
            == o.funding_rate_realized@,
        !(brought(e) matches Some(m) && m is BookSnapshot) ==> n.book_snapshot@
            == o.book_snapshot@,
        !(brought(e) matches Some(m) && m is BookUpdate) ==> n.book_update@ == o.book_update@,
        !(brought(e) matches Some(m) && m is Liquidation) ==> n.liquidation@ == o.liquidation@,
        !(brought(e) matches Some(m) && m is OpenInterest) ==> n.open_interest@
            == o.open_interest@,
        !(e.payload is Control) ==> n.control@ == o.control@,
        !(e.payload is Reference) ==> n.reference@ == o.reference@,
{
}

/// The row of a book ticker tells the event back: the bid columns its best bid,
/// the ask columns its best ask.
pub proof fn law_ticker_row_reads_back(o: Tables, n: Tables, e: Event)
    requires
        routed(o, n, e),
        e.instrument is Some,
        e.payload is Market,
        e.payload->Market_0 is BookTicker,
    ensures
        n.book_ticker@.len() == o.book_ticker@.len() + 1,
        bears(n.book_ticker@.last().key, e),
        e.payload matches Payload::Market(
            MarketPayload::BookTicker { best_bid, best_ask, update_id },
        ) && best_bid == (Level {
            price: n.book_ticker@.last().bid_price,
            qty: n.book_ticker@.last().bid_qty,
        }) && best_ask == (Level {
            price: n.book_ticker@.last().ask_price,
            qty: n.book_ticker@.last().ask_qty,
        }) && update_id == n.book_ticker@.last().update_id,
{
}

/// The rows of trades tell them back, one by one and in their order.
pub proof fn law_trade_rows_read_back(o: Tables, n: Tables, e: Event)
    requires
        routed(o, n, e),
        e.instrument is Some,
        e.payload is Market,
        e.payload->Market_0 is Trades,
    ensures
        e.payload matches Payload::Market(MarketPayload::Trades { trades }) && {
            &&& n.trades@.len() == o.trades@.len() + trades@.len()
            &&& forall|i: int|
                0 <= i < trades@.len() ==> {
                    let r = n.trades@[o.trades@.len() + i];
                    &&& bears(r.key, e)
                    &&& (#[trigger] trades@[i]).id == r.trade_id
                    &&& trades@[i].price == r.price
                    &&& trades@[i].qty == r.qty
                    &&& trades@[i].aggressor_side == r.side
                    &&& trades@[i].kind == r.kind
                }
        },
{
}

/// The row of a mark or index price tells it back.
pub proof fn law_price_rows_read_back(o: Tables, n: Tables, e: Event)
    requires
        routed(o, n, e),
        e.instrument is Some,
    ensures
        e.payload matches Payload::Market(MarketPayload::MarkPrice { price })
            ==> n.mark_price@.len() == o.mark_price@.len() + 1 && bears(
            n.mark_price@.last().key,
            e,
        ) && n.mark_price@.last().price == price,
        e.payload matches Payload::Market(MarketPayload::IndexPrice { price })
            ==> n.index_price@.len() == o.index_price@.len() + 1 && bears(
            n.index_price@.last().key,
            e,
        ) && n.index_price@.last().price == price,
{
}

/// The row of expected or realized funding tells it back.
pub proof fn law_funding_rows_read_back(o: Tables, n: Tables, e: Event)
    requires
        routed(o, n, e),
        e.instrument is Some,
    ensures
        e.payload matches Payload::Market(
            MarketPayload::FundingRatePrediction {
                rate,
                next_funding_time,
                interval,
                premium_index,
                clamp_min,
                clamp_max,
            },
        ) ==> n.funding_rate@.len() == o.funding_rate@.len() + 1 && ({
            let r = n.funding_rate@.last();
            &&& bears(r.key, e)
            &&& rate == r.rate
            &&& next_funding_time == r.next_funding_time
            &&& interval == r.interval_ns
            &&& premium_index == r.premium_index
            &&& clamp_min == r.clamp_min
            &&& clamp_max == r.clamp_max
        }),
        e.payload matches Payload::Market(
            MarketPayload::FundingRateRealized { rate, funding_time, interval },
        ) ==> n.funding_rate_realized@.len() == o.funding_rate_realized@.len() + 1 && ({
            let r = n.funding_rate_realized@.last();
            &&& bears(r.key, e)
            &&& rate == r.rate
            &&& funding_time == r.funding_time
            &&& interval == r.interval_ns
        }),
{
}

/// The rows of a book snapshot tell it back: first every bid, then every ask, each
/// with its place counted from the top, all with the version of the book.
pub proof fn law_snapshot_rows_read_back(o: Tables, n: Tables, e: Event)
    requires
        routed(o, n, e),
        e.instrument is Some,
        e.payload is Market,
        e.payload->Market_0 is BookSnapshot,
    ensures
        e.payload matches Payload::Market(
            MarketPayload::BookSnapshot { bids, asks, last_update_id },
        ) && {
            let k = o.book_snapshot@.len();
            &&& n.book_snapshot@.len() == k + bids@.len() + asks@.len()
            &&& forall|i: int|
                0 <= i < bids@.len() ==> {
                    let r = n.book_snapshot@[k + i];
                    &&& bears(r.key, e)
                    &&& r.side == BookSide::Bid
                    &&& r.level_idx == i
                    &&& r.last_update_id == last_update_id
                    &&& #[trigger] bids@[i] == (Level { price: r.price, qty: r.qty })
                }
            &&& forall|i: int|
                0 <= i < asks@.len() ==> {
                    let r = n.book_snapshot@[k + bids@.len() + i];
                    &&& bears(r.key, e)
                    &&& r.side == BookSide::Ask
                    &&& r.level_idx == i
                    &&& r.last_update_id == last_update_id
                    &&& #[trigger] asks@[i] == (Level { price: r.price, qty: r.qty })
                }
        },
{
    if let Payload::Market(MarketPayload::BookSnapshot { bids, asks, last_update_id }) = e.payload {
        assert(bids@.len() == bids.len() && asks@.len() == asks.len());
    }
}

/// The rows of a book update tell it back: first every bid, then every ask, all
/// with the ids that chain it and the venue's event time.
pub proof fn law_update_rows_read_back(o: Tables, n: Tables, e: Event)
    requires
        routed(o, n, e),
        e.instrument is Some,
        e.payload is Market,
        e.payload->Market_0 is BookUpdate,
    ensures
        e.payload matches Payload::Market(
            MarketPayload::BookUpdate {
                bids,
                asks,
                first_update_id,
                final_update_id,
                prev_final_update_id,
                event_time,
            },
        ) && {
            let k = o.book_update@.len();
            &&& n.book_update@.len() == k + bids@.len() + asks@.len()
            &&& forall|i: int|
                k <= i < k + bids@.len() + asks@.len() ==> {
                    let r = #[trigger] n.book_update@[i];
                    &&& bears(r.key, e)
                    &&& r.first_update_id == first_update_id
                    &&& r.final_update_id == final_update_id
                    &&& r.prev_final_update_id == prev_final_update_id
                    &&& r.event_time == event_time
                }
            &&& forall|i: int|
                0 <= i < bids@.len() ==> {
                    let r = n.book_update@[k + i];
                    &&& r.side == BookSide::Bid
                    &&& #[trigger] bids@[i] == (Level { price: r.price, qty: r.qty })
                }
            &&& forall|i: int|
                0 <= i < asks@.len() ==> {
                    let r = n.book_update@[k + bids@.len() + i];
                    &&& r.side == BookSide::Ask
                    &&& #[trigger] asks@[i] == (Level { price: r.price, qty: r.qty })
                }
        },
{
}

/// The row of a liquidation or of open interest tells it back.
pub proof fn law_other_rows_read_back(o: Tables, n: Tables, e: Event)
    requires
        routed(o, n, e),
        e.instrument is Some,
    ensures
        e.payload matches Payload::Market(
            MarketPayload::Liquidation { side, price, qty, filled_qty, avg_price, order_status },
        ) ==> n.liquidation@.len() == o.liquidation@.len() + 1 && ({
            let r = n.liquidation@.last();
            &&& bears(r.key, e)
            &&& side == r.side
            &&& price == r.price
            &&& qty == r.qty
            &&& filled_qty == r.filled_qty
            &&& avg_price == r.avg_price
            &&& order_status == r.order_status
        }),
        e.payload matches Payload::Market(
            MarketPayload::OpenInterest { open_interest, open_interest_value },
        ) ==> n.open_interest@.len() == o.open_interest@.len() + 1 && ({
            let r = n.open_interest@.last();
            &&& bears(r.key, e)
            &&& open_interest == r.open_interest
            &&& open_interest_value == r.open_interest_value
        }),
{
}

/// Control and reference events have a row with or without an instrument, and it
/// tells them back.
pub proof fn law_control_rows_read_back(o: Tables, n: Tables, e: Event)
    requires
        routed(o, n, e),
    ensures
        e.payload matches Payload::Control(payload) ==> n.control@.len() == o.control@.len() + 1
            && ({
            let r = n.control@.last();
            &&& r.payload == payload
            &&& (r.instrument is Some <==> e.instrument is Some)
            &&& (r.instrument matches Some(i) ==> i == e.instrument->0.value)
            &&& r.venue_ts == e.venue_ts
            &&& r.local_ts == e.local_ts
            &&& r.source == e.source
        }),
        e.payload matches Payload::Reference(payload) ==> n.reference@.len()
            == o.reference@.len() + 1 && ({
            let r = n.reference@.last();
            &&& r.payload == payload
            &&& (r.instrument is Some <==> e.instrument is Some)
            &&& (r.instrument matches Some(i) ==> i == e.instrument->0.value)
            &&& r.venue_ts == e.venue_ts
            &&& r.local_ts == e.local_ts
            &&& r.source == e.source
        }),
{
}

/// What has no row is counted, once and in one place: without an instrument as
/// skipped, else under its domain. What has a row is not counted.
pub proof fn law_rowless_events_are_counted(o: Tables, n: Tables, e: Event)
    requires
        routed(o, n, e),
    ensures
        n.skipped_no_instrument - o.skipped_no_instrument == (match (e.payload, e.instrument) {
            (Payload::Control(_), _) => 0int,
            (Payload::Reference(_), _) => 0,
            (_, None) => 1,
            (_, Some(_)) => 0,
        }),
        n.chain_events - o.chain_events == (match (e.payload, e.instrument) {
            (Payload::Chain(_), Some(_)) => 1int,
            _ => 0,
        }),
        n.account_events - o.account_events == (match (e.payload, e.instrument) {
            (Payload::Account(_), Some(_)) => 1int,
            _ => 0,
        }),
{
}

/// A log is refused from the first byte beyond one in a hundred, and never an
/// empty one; more damage, or fewer bytes around it, never helps.
pub proof fn law_refused_beyond_one_percent(n: u64, bytes: u64, less: u64)
    ensures
        n > 0 && bytes == n * 100 ==> !damaged(n, bytes) && damaged((n + 1) as u64, bytes),
        n > 0 && bytes == n * 100 - 1 ==> damaged(n, bytes),
        !damaged(n, 0),
        !damaged(0, bytes),
        damaged(less, bytes) && less <= n ==> damaged(n, bytes),
        damaged(n, bytes) && 0 < less <= bytes ==> damaged(n, less),
{
}

} // verus!
