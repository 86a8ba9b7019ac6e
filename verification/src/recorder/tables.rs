//! Table rows shared by the log converter and the backfills: backfilled
//! history lands in the same columns as live capture. Decimals stay exact here;
//! the analytics files round them when they are written.
use crate::decimal::Decimal;
use crate::payloads::{ControlPayload, ReferencePayload};
use crate::types::{signed, to_signed, AggressorSide, Nanos, SourceId};
use vstd::prelude::*;
use vstd::string::*;

verus! {

/// Rows buffered per table before they are written out as one group: bounded
/// memory instead of a whole day.
pub const BATCH_ROWS: usize = 500_000;

/// Enough rows are buffered.
pub open spec fn full(rows: usize) -> bool {
    rows >= BATCH_ROWS
}

/// Whether a table has buffered enough to be written out.
pub fn batch_due(rows: usize) -> (r: bool)
    ensures
        r == (rows >= BATCH_ROWS),
        r == full(rows),
{
    rows >= BATCH_ROWS
}

/// How the side of a trade is written.
pub open spec fn aggressor_text(side: AggressorSide) -> Seq<char> {
    match side {
        AggressorSide::Buy => "buy"@,
        AggressorSide::Sell => "sell"@,
    }
}

/// How the side of a book is written.
pub open spec fn book_side_text(side: BookSide) -> Seq<char> {
    match side {
        BookSide::Bid => "bid"@,
        BookSide::Ask => "ask"@,
    }
}

pub fn aggressor_str(side: AggressorSide) -> (r: &'static str)
    ensures
        r@ == (match side {
            AggressorSide::Buy => "buy"@,
            AggressorSide::Sell => "sell"@,
        }),
        r@ == aggressor_text(side),
{
    match side {
        AggressorSide::Buy => "buy",
        AggressorSide::Sell => "sell",
    }
}

/// The side of a book level.
#[derive(Debug, Clone, Copy, PartialEq, Eq, Structural)]
pub enum BookSide {
    Bid,
    Ask,
}

pub fn book_side_str(side: BookSide) -> (r: &'static str)
    ensures
        r@ == (match side {
            BookSide::Bid => "bid"@,
            BookSide::Ask => "ask"@,
        }),
        r@ == book_side_text(side),
{
    match side {
        BookSide::Bid => "bid",
        BookSide::Ask => "ask",
    }
}

/// How the control table names an event.
pub open spec fn control_kind_name(c: ControlPayload) -> Seq<char> {
    match c {
        ControlPayload::ConnUp { .. } => "conn_up"@,
        ControlPayload::ConnDown { .. } => "conn_down"@,
        ControlPayload::Gap { .. } => "gap"@,
        ControlPayload::SnapshotBegin => "snapshot_begin"@,
        ControlPayload::SnapshotEnd => "snapshot_end"@,
        ControlPayload::SubAck { .. } => "sub_ack"@,
        ControlPayload::Reorg { .. } => "reorg"@,
    }
}

pub fn control_kind(c: &ControlPayload) -> (r: &'static str)
    ensures
        r@ == control_kind_name(*c),
{
    match c {
        ControlPayload::ConnUp { .. } => "conn_up",
        ControlPayload::ConnDown { .. } => "conn_down",
        ControlPayload::Gap { .. } => "gap",
        ControlPayload::SnapshotBegin => "snapshot_begin",
        ControlPayload::SnapshotEnd => "snapshot_end",
        ControlPayload::SubAck { .. } => "sub_ack",
        ControlPayload::Reorg { .. } => "reorg",
    }
}

/// How the reference table names an event.
pub open spec fn reference_kind_name(c: ReferencePayload) -> Seq<char> {
    match c {
        ReferencePayload::InstrumentAdded { .. } => "instrument_added"@,
        ReferencePayload::InstrumentChanged { .. } => "instrument_changed"@,
        ReferencePayload::InstrumentDelisted { .. } => "instrument_delisted"@,
        ReferencePayload::MarketResolved { .. } => "market_resolved"@,
    }
}

pub fn reference_kind(c: &ReferencePayload) -> (r: &'static str)
    ensures
        r@ == reference_kind_name(*c),
{
    match c {
        ReferencePayload::InstrumentAdded { .. } => "instrument_added",
        ReferencePayload::InstrumentChanged { .. } => "instrument_changed",
        ReferencePayload::InstrumentDelisted { .. } => "instrument_delisted",
        ReferencePayload::MarketResolved { .. } => "market_resolved",
    }
}

/// An optional timestamp, read as a signed number.
pub open spec fn signed_opt(t: Option<Nanos>) -> Option<i64> {
    match t {
        Some(v) => Some(signed(v) as i64),
        None => None,
    }
}

pub fn to_signed_opt(t: Option<Nanos>) -> (r: Option<i64>)
    ensures
        r == signed_opt(t),
{
    match t {
        Some(v) => Some(to_signed(v)),
        None => None,
    }
}

/// Common per-event columns of every market table, column by column.
#[derive(Debug)]
pub struct EnvelopeCols {
    pub instrument: Vec<String>,
    pub venue_ts: Vec<Option<i64>>,
    pub local_ts: Vec<i64>,
    pub source: Vec<u16>,
}

/// One envelope more in the columns.
pub open spec fn appended(
    o: EnvelopeCols,
    n: EnvelopeCols,
    instrument: Seq<char>,
    venue_ts: Option<u64>,
    local_ts: u64,
    source: SourceId,
) -> bool {
    &&& n.instrument@.len() == o.instrument@.len() + 1
    &&& n.instrument@.drop_last() == o.instrument@
    &&& n.instrument@.last()@ == instrument
    &&& n.venue_ts@ == o.venue_ts@.push(signed_opt(venue_ts))
    &&& n.local_ts@ == o.local_ts@.push(signed(local_ts) as i64)
    &&& n.source@ == o.source@.push(source.0)
}

impl EnvelopeCols {
    /// The columns are equally long.
    pub open spec fn wf(self) -> bool {
        &&& self.venue_ts@.len() == self.instrument@.len()
        &&& self.local_ts@.len() == self.instrument@.len()
        &&& self.source@.len() == self.instrument@.len()
    }

    pub fn new() -> (r: EnvelopeCols)
        ensures
            r.wf(),
            r.instrument@.len() == 0,
    {
        EnvelopeCols {
            instrument: Vec::new(),
            venue_ts: Vec::new(),
            local_ts: Vec::new(),
            source: Vec::new(),
        }
    }

    pub fn push(
        &mut self,
        instrument: &str,
        venue_ts: Option<u64>,
        local_ts: u64,
        source: SourceId,
    )
        requires
            old(self).wf(),
        ensures
            final(self).wf(),
            final(self).instrument@.len() == old(self).instrument@.len() + 1,
            final(self).instrument@.drop_last() == old(self).instrument@,
            final(self).instrument@.last()@ == instrument@,
            final(self).venue_ts@ == old(self).venue_ts@.push(signed_opt(venue_ts)),
            final(self).local_ts@ == old(self).local_ts@.push(signed(local_ts) as i64),
            final(self).source@ == old(self).source@.push(source.0),
            appended(*old(self), *final(self), instrument@, venue_ts, local_ts, source),
    {
        self.instrument.push(instrument.to_owned());
        self.venue_ts.push(to_signed_opt(venue_ts));
        self.local_ts.push(to_signed(local_ts));
        self.source.push(source.0);
        assert(self.instrument@.drop_last() =~= old(self).instrument@);
    }

    pub fn len(&self) -> (r: usize)
        ensures
            r == self.instrument@.len(),
    {
        self.instrument.len()
    }

    pub fn is_empty(&self) -> (r: bool)
        ensures
            r == (self.instrument@.len() == 0),
    {
        self.instrument.len() == 0
    }
}

/// The envelope of one row.
#[derive(Debug)]
pub struct RowKey {
    pub instrument: String,
    pub venue_ts: Option<Nanos>,
    pub local_ts: Nanos,
    pub source: SourceId,
}

#[derive(Debug)]
pub struct BookTickerRow {
    pub key: RowKey,
    pub update_id: u64,
    pub bid_price: Decimal,
    pub bid_qty: Decimal,
    pub ask_price: Decimal,
    pub ask_qty: Decimal,
}

#[derive(Debug)]
pub struct TradeRow {
    pub key: RowKey,
    pub trade_id: String,
    pub price: Decimal,
    pub qty: Decimal,
    pub side: AggressorSide,
    pub kind: Option<String>,
}

#[derive(Debug)]
pub struct PriceRow {
    pub key: RowKey,
    pub price: Decimal,
}

#[derive(Debug)]
pub struct FundingPredictionRow {
    pub key: RowKey,
    pub rate: Decimal,
    pub next_funding_time: Nanos,
    pub interval_ns: Option<u64>,
    pub premium_index: Option<Decimal>,
    pub clamp_min: Option<Decimal>,
    pub clamp_max: Option<Decimal>,
}

#[derive(Debug)]
pub struct FundingRealizedRow {
    pub key: RowKey,
    pub rate: Decimal,
    pub funding_time: Nanos,
    pub interval_ns: Option<u64>,
}

/// One level of a snapshot; its index is its rank.
#[derive(Debug)]
pub struct BookSnapshotRow {
    pub key: RowKey,
    pub last_update_id: u64,
    pub side: BookSide,
    pub level_idx: usize,
    pub price: Decimal,
    pub qty: Decimal,
}

/// One changed level of an update; changes have no rank.
#[derive(Debug)]
pub struct BookUpdateRow {
    pub key: RowKey,
    pub first_update_id: u64,
    pub final_update_id: u64,
    pub prev_final_update_id: Option<u64>,
    pub event_time: Option<Nanos>,
    pub side: BookSide,
    pub price: Decimal,
    pub qty: Decimal,
}

#[derive(Debug)]
pub struct LiquidationRow {
    pub key: RowKey,
    pub side: AggressorSide,
    pub price: Decimal,
    pub qty: Decimal,
    pub filled_qty: Option<Decimal>,
    pub avg_price: Option<Decimal>,
    pub order_status: Option<String>,
}

#[derive(Debug)]
pub struct OpenInterestRow {
    pub key: RowKey,
    pub open_interest: Decimal,
    pub open_interest_value: Option<Decimal>,
}

/// Control events keep their payload; the instrument is optional because most
/// are venue- or connection-scoped.
#[derive(Debug)]
pub struct ControlRow {
    pub instrument: Option<String>,
    pub venue_ts: Option<Nanos>,
    pub local_ts: Nanos,
    pub source: SourceId,
    pub payload: ControlPayload,
}

/// Reference events, shaped like control events.
#[derive(Debug)]
pub struct ReferenceRow {
    pub instrument: Option<String>,
    pub venue_ts: Option<Nanos>,
    pub local_ts: Nanos,
    pub source: SourceId,
    pub payload: ReferencePayload,
}

} // verus!
