//! From a log of events to tables.
//!
//! Control and reference events are routed even without an instrument; market
//! events without one are malformed and only counted. Chain and account events
//! have no tables and are counted so that growth is visible.
use crate::events::Event;
use crate::payloads::{MarketPayload, Payload};
use crate::recorder::tables::{
    BookSide, BookSnapshotRow, BookTickerRow, BookUpdateRow, ControlRow, FundingPredictionRow,
    FundingRealizedRow, LiquidationRow, OpenInterestRow, PriceRow, ReferenceRow, RowKey, TradeRow,
};
use crate::text::{dec, push_u64};
use crate::types::{InstrumentId, Level, Trade};
use vstd::prelude::*;
use vstd::string::*;

verus! {

#[derive(Debug)]
pub struct Tables {
    pub book_ticker: Vec<BookTickerRow>,
    pub trades: Vec<TradeRow>,
    pub mark_price: Vec<PriceRow>,
    pub index_price: Vec<PriceRow>,
    pub funding_rate: Vec<FundingPredictionRow>,
    pub funding_rate_realized: Vec<FundingRealizedRow>,
    pub book_snapshot: Vec<BookSnapshotRow>,
    pub book_update: Vec<BookUpdateRow>,
    pub liquidation: Vec<LiquidationRow>,
    pub open_interest: Vec<OpenInterestRow>,
    pub control: Vec<ControlRow>,
    pub reference: Vec<ReferenceRow>,
    pub skipped_no_instrument: u64,
    pub chain_events: u64,
    pub account_events: u64,
}

// ---------------------------------------------------------------------------
// The rows of an event
// ---------------------------------------------------------------------------

/// The envelope of the rows of an event about an instrument.
pub open spec fn key_of(e: Event) -> RowKey {
    RowKey {
        instrument: e.instrument->0.value,
        venue_ts: e.venue_ts,
        local_ts: e.local_ts,
        source: e.source,
    }
}

/// The market payload of an event about an instrument.
pub open spec fn market_of(e: Event) -> Option<MarketPayload> {
    match e.payload {
        Payload::Market(m) if e.instrument is Some => Some(m),
        _ => None,
    }
}

pub open spec fn book_ticker_rows(e: Event) -> Seq<BookTickerRow> {
    match market_of(e) {
        Some(MarketPayload::BookTicker { best_bid, best_ask, update_id }) => seq![
            BookTickerRow {
                key: key_of(e),
                update_id,
                bid_price: best_bid.price,
                bid_qty: best_bid.qty,
                ask_price: best_ask.price,
                ask_qty: best_ask.qty,
            },
        ],
        _ => Seq::empty(),
    }
}

pub open spec fn trade_row(e: Event, t: Trade) -> TradeRow {
    TradeRow {
        key: key_of(e),
        trade_id: t.id,
        price: t.price,
        qty: t.qty,
        side: t.aggressor_side,
        kind: t.kind,
    }
}

pub open spec fn trade_rows(e: Event) -> Seq<TradeRow> {
    match market_of(e) {
        Some(MarketPayload::Trades { trades }) => trades@.map_values(|t: Trade| trade_row(e, t)),
        _ => Seq::empty(),
    }
}

pub open spec fn mark_price_rows(e: Event) -> Seq<PriceRow> {
    match market_of(e) {
        Some(MarketPayload::MarkPrice { price }) => seq![PriceRow { key: key_of(e), price }],
        _ => Seq::empty(),
    }
}

pub open spec fn index_price_rows(e: Event) -> Seq<PriceRow> {
    match market_of(e) {
        Some(MarketPayload::IndexPrice { price }) => seq![PriceRow { key: key_of(e), price }],
        _ => Seq::empty(),
    }
}

pub open spec fn funding_rate_rows(e: Event) -> Seq<FundingPredictionRow> {
    match market_of(e) {
        Some(
            MarketPayload::FundingRatePrediction {
                rate,
                next_funding_time,
                interval,
                premium_index,
                clamp_min,
                clamp_max,
            },
        ) => seq![
            FundingPredictionRow {
                key: key_of(e),
                rate,
                next_funding_time,
                interval_ns: interval,
                premium_index,
                clamp_min,
                clamp_max,
            },
        ],
        _ => Seq::empty(),
    }
}

pub open spec fn funding_realized_rows(e: Event) -> Seq<FundingRealizedRow> {
    match market_of(e) {
        Some(MarketPayload::FundingRateRealized { rate, funding_time, interval }) => seq![
            FundingRealizedRow { key: key_of(e), rate, funding_time, interval_ns: interval },
        ],
        _ => Seq::empty(),
    }
}

/// One row per level of one side, ranked from the top.
pub open spec fn snapshot_side(
    e: Event,
    side: BookSide,
    levels: Seq<Level>,
    last_update_id: u64,
) -> Seq<BookSnapshotRow> {
    Seq::new(
        levels.len(),
        |i: int|
            BookSnapshotRow {
                key: key_of(e),
                last_update_id,
                side,
                level_idx: i as usize,
                price: levels[i].price,
                qty: levels[i].qty,
            },
    )
}

/// Bids first, then asks.
pub open spec fn book_snapshot_rows(e: Event) -> Seq<BookSnapshotRow> {
    match market_of(e) {
        Some(MarketPayload::BookSnapshot { bids, asks, last_update_id }) => snapshot_side(
            e,
            BookSide::Bid,
            bids@,
            last_update_id,
        ) + snapshot_side(e, BookSide::Ask, asks@, last_update_id),
        _ => Seq::empty(),
    }
}

/// One row per changed level of one side.
pub open spec fn update_side(
    e: Event,
    side: BookSide,
    levels: Seq<Level>,
    first: u64,
    last: u64,
    prev: Option<u64>,
    event_time: Option<u64>,
) -> Seq<BookUpdateRow> {
    Seq::new(
        levels.len(),
        |i: int|
            BookUpdateRow {
                key: key_of(e),
                first_update_id: first,
                final_update_id: last,
                prev_final_update_id: prev,
                event_time,
                side,
                price: levels[i].price,
                qty: levels[i].qty,
            },
    )
}

/// Bids first, then asks.
pub open spec fn book_update_rows(e: Event) -> Seq<BookUpdateRow> {
    match market_of(e) {
        Some(
            MarketPayload::BookUpdate {
                bids,
                asks,
                first_update_id: f,
                final_update_id: l,
                prev_final_update_id: p,
                event_time: t,
            },
        ) => update_side(e, BookSide::Bid, bids@, f, l, p, t) + update_side(
            e,
            BookSide::Ask,
            asks@,
            f,
            l,
            p,
            t,
        ),
        _ => Seq::empty(),
    }
}

pub open spec fn liquidation_rows(e: Event) -> Seq<LiquidationRow> {
    match market_of(e) {
        Some(
            MarketPayload::Liquidation { side, price, qty, filled_qty, avg_price, order_status },
        ) => seq![
            LiquidationRow {
                key: key_of(e),
                side,
                price,
                qty,
                filled_qty,
                avg_price,
                order_status,
            },
        ],
        _ => Seq::empty(),
    }
}

pub open spec fn open_interest_rows(e: Event) -> Seq<OpenInterestRow> {
    match market_of(e) {
        Some(MarketPayload::OpenInterest { open_interest, open_interest_value }) => seq![
            OpenInterestRow { key: key_of(e), open_interest, open_interest_value },
        ],
        _ => Seq::empty(),
    }
}

/// The instrument of an event, if any.
pub open spec fn instrument_text(i: Option<InstrumentId>) -> Option<String> {
    match i {
        Some(id) => Some(id.value),
        None => None,
    }
}

pub open spec fn control_rows(e: Event) -> Seq<ControlRow> {
    match e.payload {
        Payload::Control(payload) => seq![
            ControlRow {
                instrument: instrument_text(e.instrument),
                venue_ts: e.venue_ts,
                local_ts: e.local_ts,
                source: e.source,
                payload,
            },
        ],
        _ => Seq::empty(),
    }
}

pub open spec fn reference_rows(e: Event) -> Seq<ReferenceRow> {
    match e.payload {
        Payload::Reference(payload) => seq![
            ReferenceRow {
                instrument: instrument_text(e.instrument),
                venue_ts: e.venue_ts,
                local_ts: e.local_ts,
                source: e.source,
                payload,
            },
        ],
        _ => Seq::empty(),
    }
}

/// The event is neither control nor reference and names no instrument.
pub open spec fn unrouted(e: Event) -> bool {
    !(e.payload is Control) && !(e.payload is Reference) && e.instrument is None
}

pub open spec fn is_chain(e: Event) -> bool {
    e.payload is Chain && e.instrument is Some
}

pub open spec fn is_account(e: Event) -> bool {
    e.payload is Account && e.instrument is Some
}

/// A count after one more look.
pub open spec fn counted(n: u64, hit: bool) -> int {
    if hit {
        n + 1
    } else {
        n as int
    }
}

/// The tables after one event: every table has grown by its rows of the event,
/// every count by its share.
pub open spec fn routed(o: Tables, n: Tables, e: Event) -> bool {
    &&& n.book_ticker@ =~= o.book_ticker@ + book_ticker_rows(e)
    &&& n.trades@ =~= o.trades@ + trade_rows(e)
    &&& n.mark_price@ =~= o.mark_price@ + mark_price_rows(e)
    &&& n.index_price@ =~= o.index_price@ + index_price_rows(e)
    &&& n.funding_rate@ =~= o.funding_rate@ + funding_rate_rows(e)
    &&& n.funding_rate_realized@ =~= o.funding_rate_realized@ + funding_realized_rows(e)
    &&& n.book_snapshot@ =~= o.book_snapshot@ + book_snapshot_rows(e)
    &&& n.book_update@ =~= o.book_update@ + book_update_rows(e)
    &&& n.liquidation@ =~= o.liquidation@ + liquidation_rows(e)
    &&& n.open_interest@ =~= o.open_interest@ + open_interest_rows(e)
    &&& n.control@ =~= o.control@ + control_rows(e)
    &&& n.reference@ =~= o.reference@ + reference_rows(e)
    &&& n.skipped_no_instrument == counted(o.skipped_no_instrument, unrouted(e))
    &&& n.chain_events == counted(o.chain_events, is_chain(e))
    &&& n.account_events == counted(o.account_events, is_account(e))
}

fn key(event: &Event, id: &InstrumentId) -> (r: RowKey)
    requires
        event.instrument == Some(*id),
    ensures
        r == key_of(*event),
{
    RowKey {
        instrument: id.value.clone(),
        venue_ts: event.venue_ts,
        local_ts: event.local_ts,
        source: event.source,
    }
}

fn copy_text(s: &Option<String>) -> (r: Option<String>)
    ensures
        r == *s,
{
    match s {
        Some(t) => Some(t.clone()),
        None => None,
    }
}

fn instrument_copy(i: &Option<InstrumentId>) -> (r: Option<String>)
    ensures
        r == instrument_text(*i),
{
    match i {
        Some(id) => Some(id.value.clone()),
        None => None,
    }
}

impl Tables {
    pub fn new() -> (r: Tables)
        ensures
            r.book_ticker@.len() == 0,
            r.trades@.len() == 0,
            r.mark_price@.len() == 0,
            r.index_price@.len() == 0,
            r.funding_rate@.len() == 0,
            r.funding_rate_realized@.len() == 0,
            r.book_snapshot@.len() == 0,
            r.book_update@.len() == 0,
            r.liquidation@.len() == 0,
            r.open_interest@.len() == 0,
            r.control@.len() == 0,
            r.reference@.len() == 0,
            r.skipped_no_instrument == 0,
            r.chain_events == 0,
            r.account_events == 0,
    {
        Tables {
            book_ticker: Vec::new(),
            trades: Vec::new(),
            mark_price: Vec::new(),
            index_price: Vec::new(),
            funding_rate: Vec::new(),
            funding_rate_realized: Vec::new(),
            book_snapshot: Vec::new(),
            book_update: Vec::new(),
            liquidation: Vec::new(),
            open_interest: Vec::new(),
            control: Vec::new(),
            reference: Vec::new(),
            skipped_no_instrument: 0,
            chain_events: 0,
            account_events: 0,
        }
    }

    fn push_trades(&mut self, event: &Event, id: &InstrumentId, trades: &Vec<Trade>)
        requires
            event.instrument == Some(*id),
        ensures
            final(self).trades@ == old(self).trades@ + trades@.map_values(
                |t: Trade| trade_row(*event, t),
            ),
            *final(self) == (Tables { trades: final(self).trades, ..*old(self) }),
    {
        let mut i: usize = 0;
        let ghost all = trades@.map_values(|t: Trade| trade_row(*event, t));
        assert(self.trades@ =~= old(self).trades@ + all.take(0));
        while i < trades.len()
            invariant
                i <= trades@.len(),
                event.instrument == Some(*id),
                all == trades@.map_values(|t: Trade| trade_row(*event, t)),
                self.trades@ == old(self).trades@ + all.take(i as int),
                *self == (Tables { trades: self.trades, ..*old(self) }),
            decreases trades@.len() - i,
        {
            let t: &Trade = &trades[i];
            self.trades.push(
                TradeRow {
                    key: key(event, id),
                    trade_id: t.id.clone(),
                    price: t.price,
                    qty: t.qty,
                    side: t.aggressor_side,
                    kind: copy_text(&t.kind),
                },
            );
            assert(self.trades@ =~= old(self).trades@ + all.take(i + 1));
            i = i + 1;
        }
        assert(all.take(i as int) =~= all);
    }

    fn push_snapshot_side(
        &mut self,
        event: &Event,
        id: &InstrumentId,
        side: BookSide,
        levels: &Vec<Level>,
        last_update_id: u64,
    )
        requires
            event.instrument == Some(*id),
        ensures
            final(self).book_snapshot@ == old(self).book_snapshot@ + snapshot_side(
                *event,
                side,
                levels@,
                last_update_id,
            ),
            *final(self) == (Tables { book_snapshot: final(self).book_snapshot, ..*old(self) }),
    {
        let mut i: usize = 0;
        let ghost all = snapshot_side(*event, side, levels@, last_update_id);
        assert(self.book_snapshot@ =~= old(self).book_snapshot@ + all.take(0));
        while i < levels.len()
            invariant
                i <= levels@.len(),
                event.instrument == Some(*id),
                all == snapshot_side(*event, side, levels@, last_update_id),
                self.book_snapshot@ == old(self).book_snapshot@ + all.take(i as int),
                *self == (Tables { book_snapshot: self.book_snapshot, ..*old(self) }),
            decreases levels@.len() - i,
        {
            let level: Level = levels[i];
            self.book_snapshot.push(
                BookSnapshotRow {
                    key: key(event, id),
                    last_update_id,
                    side,
                    level_idx: i,
                    price: level.price,
                    qty: level.qty,
                },
            );
            assert(self.book_snapshot@ =~= old(self).book_snapshot@ + all.take(i + 1));
            i = i + 1;
        }
        assert(all.take(i as int) =~= all);
    }

    fn push_update_side(
        &mut self,
        event: &Event,
        id: &InstrumentId,
        side: BookSide,
        levels: &Vec<Level>,
        first: u64,
        last: u64,
        prev: Option<u64>,
        event_time: Option<u64>,
    )
        requires
            event.instrument == Some(*id),
        ensures
            final(self).book_update@ == old(self).book_update@ + update_side(
                *event,
                side,
                levels@,
                first,
                last,
                prev,
                event_time,
            ),
            *final(self) == (Tables { book_update: final(self).book_update, ..*old(self) }),
    {
        let mut i: usize = 0;
        let ghost all = update_side(*event, side, levels@, first, last, prev, event_time);
        assert(self.book_update@ =~= old(self).book_update@ + all.take(0));
        while i < levels.len()
            invariant
                i <= levels@.len(),
                event.instrument == Some(*id),
                all == update_side(*event, side, levels@, first, last, prev, event_time),
                self.book_update@ == old(self).book_update@ + all.take(i as int),
                *self == (Tables { book_update: self.book_update, ..*old(self) }),
            decreases levels@.len() - i,
        {
            let level: Level = levels[i];
            self.book_update.push(
                BookUpdateRow {
                    key: key(event, id),
                    first_update_id: first,
                    final_update_id: last,
                    prev_final_update_id: prev,
                    event_time,
                    side,
                    price: level.price,
                    qty: level.qty,
                },
            );
            assert(self.book_update@ =~= old(self).book_update@ + all.take(i + 1));
            i = i + 1;
        }
        assert(all.take(i as int) =~= all);
    }

    fn route_market(&mut self, event: &Event, id: &InstrumentId, market: &MarketPayload)
        requires
            event.instrument == Some(*id),
            event.payload == Payload::Market(*market),
        ensures
            routed(*old(self), *final(self), *event),
    {
        match market {
            MarketPayload::BookTicker { best_bid, best_ask, update_id } => {
                self.book_ticker.push(
                    BookTickerRow {
                        key: key(event, id),
                        update_id: *update_id,
                        bid_price: best_bid.price,
                        bid_qty: best_bid.qty,
                        ask_price: best_ask.price,
                        ask_qty: best_ask.qty,
                    },
                );
            },
            MarketPayload::Trades { trades } => {
                self.push_trades(event, id, trades);
            },
            MarketPayload::MarkPrice { price } => {
                self.mark_price.push(PriceRow { key: key(event, id), price: *price });
            },
            MarketPayload::IndexPrice { price } => {
                self.index_price.push(PriceRow { key: key(event, id), price: *price });
            },
            MarketPayload::FundingRatePrediction {
                rate,
                next_funding_time,
                interval,
                premium_index,
                clamp_min,
                clamp_max,
            } => {
                self.funding_rate.push(
                    FundingPredictionRow {
                        key: key(event, id),
                        rate: *rate,
                        next_funding_time: *next_funding_time,
                        interval_ns: *interval,
                        premium_index: *premium_index,
                        clamp_min: *clamp_min,
                        clamp_max: *clamp_max,
                    },
                );
            },
            MarketPayload::FundingRateRealized { rate, funding_time, interval } => {
                self.funding_rate_realized.push(
                    FundingRealizedRow {
                        key: key(event, id),
                        rate: *rate,
                        funding_time: *funding_time,
                        interval_ns: *interval,
                    },
                );
            },
            MarketPayload::BookSnapshot { bids, asks, last_update_id } => {
                self.push_snapshot_side(event, id, BookSide::Bid, bids, *last_update_id);
                self.push_snapshot_side(event, id, BookSide::Ask, asks, *last_update_id);
            },
            MarketPayload::BookUpdate {
                bids,
                asks,
                first_update_id,
                final_update_id,
                prev_final_update_id,
                event_time,
            } => {
                self.push_update_side(
                    event,
                    id,
                    BookSide::Bid,
                    bids,
                    *first_update_id,
                    *final_update_id,
                    *prev_final_update_id,
                    *event_time,
                );
                self.push_update_side(
                    event,
                    id,
                    BookSide::Ask,
                    asks,
                    *first_update_id,
                    *final_update_id,
                    *prev_final_update_id,
                    *event_time,
                );
            },
            MarketPayload::Liquidation {
                side,
                price,
                qty,
                filled_qty,
                avg_price,
                order_status,
            } => {
                self.liquidation.push(
                    LiquidationRow {
                        key: key(event, id),
                        side: *side,
                        price: *price,
                        qty: *qty,
                        filled_qty: *filled_qty,
                        avg_price: *avg_price,
                        order_status: copy_text(order_status),
                    },
                );
            },
            MarketPayload::OpenInterest { open_interest, open_interest_value } => {
                self.open_interest.push(
                    OpenInterestRow {
                        key: key(event, id),
                        open_interest: *open_interest,
                        open_interest_value: *open_interest_value,
                    },
                );
            },
        }
    }

    /// Put one event into its table.
    pub fn route(&mut self, event: &Event)
        requires
            old(self).skipped_no_instrument < u64::MAX,
            old(self).chain_events < u64::MAX,
            old(self).account_events < u64::MAX,
        ensures
            routed(*old(self), *final(self), *event),
    {
        match &event.payload {
            Payload::Control(payload) => {
                self.control.push(
                    ControlRow {
                        instrument: instrument_copy(&event.instrument),
                        venue_ts: event.venue_ts,
                        local_ts: event.local_ts,
                        source: event.source,
                        payload: payload.clone(),
                    },
                );
                return ;
            },
            Payload::Reference(payload) => {
                self.reference.push(
                    ReferenceRow {
                        instrument: instrument_copy(&event.instrument),
                        venue_ts: event.venue_ts,
                        local_ts: event.local_ts,
                        source: event.source,
                        payload: payload.clone(),
                    },
                );
                return ;
            },
            _ => {},
        }
        match &event.instrument {
            None => {
                self.skipped_no_instrument = self.skipped_no_instrument + 1;
            },
            Some(id) => match &event.payload {
                Payload::Market(market) => {
                    self.route_market(event, id, market);
                },
                Payload::Chain(_) => {
                    self.chain_events = self.chain_events + 1;
                },
                Payload::Account(_) => {
                    self.account_events = self.account_events + 1;
                },
                _ => {},
            },
        }
    }
}

/// More than one byte in a hundred of a non-empty log was unreadable.
pub open spec fn damaged(skipped: u64, bytes: u64) -> bool {
    bytes > 0 && skipped * 100 > bytes
}

/// A log that damaged is an operational incident: its conversion is refused
/// with the reason.
pub fn refusal(skipped: u64, bytes: u64) -> (r: Option<String>)
    ensures
        match r {
            Some(m) => damaged(skipped, bytes) && m@ == "WAL too damaged to convert: "@ + dec(
                skipped as nat,
            ) + " of "@ + dec(bytes as nat) + " bytes skipped (> 1% threshold)"@,
            None => !damaged(skipped, bytes),
        },
{
    if bytes > 0 && skipped as u128 * 100 > bytes as u128 {
        let mut s: String = "WAL too damaged to convert: ".to_owned();
        push_u64(&mut s, skipped);
        s.append(" of ");
        push_u64(&mut s, bytes);
        s.append(" bytes skipped (> 1% threshold)");
        Some(s)
    } else {
        None
    }
}

/// How many rows, over all tables, an event makes.
pub open spec fn rows_made(e: Event) -> nat {
    book_ticker_rows(e).len() + trade_rows(e).len() + mark_price_rows(e).len() + index_price_rows(
        e,
    ).len() + funding_rate_rows(e).len() + funding_realized_rows(e).len() + book_snapshot_rows(
        e,
    ).len() + book_update_rows(e).len() + liquidation_rows(e).len() + open_interest_rows(e).len()
        + control_rows(e).len() + reference_rows(e).len()
}

/// Nothing is lost and nothing is doubled: an event makes one row, except that
/// trades make one per trade, books one per level, and what is only counted
/// makes none.
pub proof fn law_every_event_makes_its_rows(e: Event)
    ensures
        rows_made(e) == (match e.payload {
            Payload::Control(_) => 1,
            Payload::Reference(_) => 1,
            Payload::Chain(_) => 0,
            Payload::Account(_) => 0,
            Payload::Market(m) => if e.instrument is None {
                0
            } else {
                match m {
                    MarketPayload::Trades { trades } => trades@.len(),
                    MarketPayload::BookSnapshot { bids, asks, .. } => bids@.len() + asks@.len(),
                    MarketPayload::BookUpdate { bids, asks, .. } => bids@.len() + asks@.len(),
                    _ => 1,
                }
            },
        }),
{
}

} // verus!
