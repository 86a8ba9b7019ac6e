//! Month-partitioned hourly klines: price context for the funding history.
use super::month::Month;
use super::partition::Visit;
use crate::decimal::Decimal;
use crate::recorder::tables::RowKey;
use crate::text::{lowercase, to_lower};
use crate::types::{ms_to_nanos, Nanos, SourceId};
use vstd::prelude::*;
use vstd::string::*;

verus! {

/// One hourly bar.
#[derive(Debug, Clone, Copy)]
pub struct Kline {
    pub open_time_ms: u64,
    pub close_time_ms: u64,
    pub open: Decimal,
    pub high: Decimal,
    pub low: Decimal,
    pub close: Decimal,
    pub volume: Decimal,
    pub quote_volume: Decimal,
    pub trades: u64,
    pub taker_buy_volume: Decimal,
    pub taker_buy_quote_volume: Decimal,
}

#[derive(Debug)]
pub struct KlinesCfg {
    pub out_root: String,
    pub meta_root: String,
    /// First month to fetch; full history is hours of paced requests, so the
    /// range is an explicit choice.
    pub from: Month,
}

#[derive(Debug, Clone, Copy, PartialEq, Eq, Structural)]
pub enum MonthOutcome {
    /// Closed month written and published.
    Published { rows: usize },
    /// Current month refreshed as a partial file.
    Partial { rows: usize },
    /// Closed month already has its marker file; not fetched again.
    AlreadyPublished,
    /// Month fetched empty; no file published.
    Empty,
}

/// What a visit to a month comes to.
pub open spec fn outcome_of(closed: bool, visit: Visit) -> MonthOutcome {
    if visit.skipped {
        MonthOutcome::AlreadyPublished
    } else if visit.rows == 0 {
        MonthOutcome::Empty
    } else if closed {
        MonthOutcome::Published { rows: visit.rows }
    } else {
        MonthOutcome::Partial { rows: visit.rows }
    }
}

/// What came of a month: one without a single bar is empty, the current one
/// too.
pub fn month_outcome(closed: bool, visit: Visit) -> (r: MonthOutcome)
    ensures
        r == (if visit.skipped {
            MonthOutcome::AlreadyPublished
        } else if visit.rows == 0 {
            MonthOutcome::Empty
        } else if closed {
            MonthOutcome::Published { rows: visit.rows }
        } else {
            MonthOutcome::Partial { rows: visit.rows }
        }),
        r == outcome_of(closed, visit),
{
    if visit.skipped {
        MonthOutcome::AlreadyPublished
    } else if visit.rows == 0 {
        MonthOutcome::Empty
    } else if closed {
        MonthOutcome::Published { rows: visit.rows }
    } else {
        MonthOutcome::Partial { rows: visit.rows }
    }
}

/// One bar as it stands in the table.
#[derive(Debug)]
pub struct KlineRow {
    pub key: RowKey,
    pub close_time: Nanos,
    pub open: Decimal,
    pub high: Decimal,
    pub low: Decimal,
    pub close: Decimal,
    pub volume: Decimal,
    pub quote_volume: Decimal,
    pub trades: u64,
    pub taker_buy_volume: Decimal,
    pub taker_buy_quote_volume: Decimal,
}

/// The row tells the bar.
pub open spec fn tells_bar(r: KlineRow, symbol: Seq<char>, local_ts: Nanos, k: Kline) -> bool {
    &&& r.key.instrument@ == lowercase(symbol)
    &&& r.key.venue_ts == Some((k.open_time_ms * 1_000_000) as u64)
    &&& r.key.local_ts == local_ts
    &&& r.key.source == SourceId(0)
    &&& r.close_time == k.close_time_ms * 1_000_000
    &&& r.open == k.open
    &&& r.high == k.high
    &&& r.low == k.low
    &&& r.close == k.close
    &&& r.volume == k.volume
    &&& r.quote_volume == k.quote_volume
    &&& r.trades == k.trades
    &&& r.taker_buy_volume == k.taker_buy_volume
    &&& r.taker_buy_quote_volume == k.taker_buy_quote_volume
}

/// The row of a bar: keyed by its opening time.
pub fn kline_row(symbol: &str, local_ts: Nanos, k: &Kline) -> (r: KlineRow)
    requires
        k.open_time_ms * 1_000_000 <= u64::MAX,
        k.close_time_ms * 1_000_000 <= u64::MAX,
    ensures
        r.key.instrument@ == lowercase(symbol@),
        r.key.venue_ts == Some((k.open_time_ms * 1_000_000) as u64),
        r.key.local_ts == local_ts,
        r.key.source == SourceId(0),
        r.close_time == k.close_time_ms * 1_000_000,
        r.open == k.open,
        r.high == k.high,
        r.low == k.low,
        r.close == k.close,
        r.volume == k.volume,
        r.quote_volume == k.quote_volume,
        r.trades == k.trades,
        r.taker_buy_volume == k.taker_buy_volume,
        r.taker_buy_quote_volume == k.taker_buy_quote_volume,
        tells_bar(r, symbol@, local_ts, *k),
{
    KlineRow {
        key: RowKey {
            instrument: to_lower(symbol),
            venue_ts: Some(ms_to_nanos(k.open_time_ms)),
            local_ts,
            source: SourceId::rest(),
        },
        close_time: ms_to_nanos(k.close_time_ms),
        open: k.open,
        high: k.high,
        low: k.low,
        close: k.close,
        volume: k.volume,
        quote_volume: k.quote_volume,
        trades: k.trades,
        taker_buy_volume: k.taker_buy_volume,
        taker_buy_quote_volume: k.taker_buy_quote_volume,
    }
}

} // verus!
