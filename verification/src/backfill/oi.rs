//! Day-partitioned open-interest history. Venues keep it for about a month, so
//! it is perishable and fetched by the day.
use super::partition::{earlier, Partition, Visit};
use crate::calendar::{day_exists, unsigned, to_unsigned, Date, DAY_MS};
use crate::decimal::Decimal;
use crate::recorder::tables::{OpenInterestRow, RowKey};
use crate::text::{lowercase, to_lower};
use crate::types::{ms_to_nanos, Nanos, SourceId};
use vstd::prelude::*;
use vstd::string::*;

verus! {

/// One observation of a symbol's open interest.
#[derive(Debug, Clone, Copy)]
pub struct OiPoint {
    pub ts_ms: u64,
    pub sum_open_interest: Decimal,
    pub sum_open_interest_value: Decimal,
}

#[derive(Debug)]
pub struct OiHistCfg {
    pub out_root: String,
    pub meta_root: String,
    /// Days before today to look at; a little more than venues retain.
    pub days_back: u32,
}

impl Default for OiHistCfg {
    fn default() -> (r: OiHistCfg)
        ensures
            r.out_root@ == "data/backfill"@,
            r.meta_root@ == "data/meta"@,
            r.days_back == 32,
    {
        OiHistCfg {
            out_root: "data/backfill".to_owned(),
            meta_root: "data/meta".to_owned(),
            days_back: 32,
        }
    }
}

#[derive(Debug, Clone, Copy, PartialEq, Eq, Structural)]
pub enum DayOutcome {
    /// Closed day written and published.
    Published { rows: usize },
    /// Today refreshed as a partial file.
    Partial { rows: usize },
    /// Closed day already has its marker file; not fetched again.
    AlreadyPublished,
    /// Nothing there, most likely out of retention; no file published.
    Empty,
}

/// What a visit to a day comes to.
pub open spec fn outcome_of(closed: bool, visit: Visit) -> DayOutcome {
    if visit.skipped {
        DayOutcome::AlreadyPublished
    } else if visit.rows == 0 {
        DayOutcome::Empty
    } else if closed {
        DayOutcome::Published { rows: visit.rows }
    } else {
        DayOutcome::Partial { rows: visit.rows }
    }
}

/// What came of a day.
pub fn day_outcome(closed: bool, visit: Visit) -> (r: DayOutcome)
    ensures
        r == (if visit.skipped {
            DayOutcome::AlreadyPublished
        } else if visit.rows == 0 {
            DayOutcome::Empty
        } else if closed {
            DayOutcome::Published { rows: visit.rows }
        } else {
            DayOutcome::Partial { rows: visit.rows }
        }),
        r == outcome_of(closed, visit),
{
    if visit.skipped {
        DayOutcome::AlreadyPublished
    } else if visit.rows == 0 {
        DayOutcome::Empty
    } else if closed {
        DayOutcome::Published { rows: visit.rows }
    } else {
        DayOutcome::Partial { rows: visit.rows }
    }
}

/// `p` is the partition of the day `d`, with the past ending at `now_ms`.
pub open spec fn day_partition(p: Partition, d: Date, today: Date, now_ms: u64) -> bool {
    &&& p.name@ == d.text()
    &&& p.closed == d.precedes(today)
    &&& p.start_ms == unsigned(d.number() * DAY_MS)
    &&& p.end_ms == earlier((unsigned(d.number() * DAY_MS) + 86_400_000) as u64, now_ms)
}

/// `p` is the partition of the day with the number `n`.
pub open spec fn nth_day(p: Partition, n: int, today: Date, now_ms: u64) -> bool {
    exists|d: Date| #[trigger] day_partition(p, d, today, now_ms) && d.wf() && d.number() == n
}

/// The partitions of the `days_back` days before today and of today. The days
/// may lie before the epoch or after it, not across: an instant on the day
/// before it has no unsigned successor.
pub fn day_partitions(today: &Date, days_back: u32, now_ms: u64) -> (r: Vec<Partition>)
    requires
        today.wf(),
        day_exists(today.number() - days_back),
        today.number() - days_back >= 0 || today.number() < -1,
    ensures
        r@.len() == days_back + 1,
        forall|i: int|
            0 <= i < r@.len() ==> nth_day(
                #[trigger] r@[i],
                today.number() - days_back + i,
                *today,
                now_ms,
            ),
{
    let mut out: Vec<Partition> = Vec::new();
    let mut back: u32 = days_back;
    loop
        invariant_except_break
            out@.len() == days_back - back,
        invariant
            today.wf(),
            back <= days_back,
            day_exists(today.number() - days_back),
            today.number() - days_back >= 0 || today.number() < -1,
            out@.len() <= days_back + 1,
            forall|i: int|
                0 <= i < out@.len() ==> nth_day(
                    #[trigger] out@[i],
                    today.number() - days_back + i,
                    *today,
                    now_ms,
                ),
        ensures
            out@.len() == days_back + 1,
        decreases back,
    {
        proof {
            crate::calendar::lemma_date_in_range(
                today.year as int,
                today.month as int,
                today.day as int,
            );
        }
        let day: Date = today.minus_days(back);
        proof {
            crate::calendar::lemma_date_in_range(day.year as int, day.month as int, day.day as int);
        }
        let start_ms: u64 = to_unsigned(day.start_ms());
        let end_ms: u64 = start_ms + 86_400_000;
        let p: Partition = Partition {
            name: day.to_text(),
            closed: day.before(today),
            start_ms,
            end_ms: if end_ms <= now_ms {
                end_ms
            } else {
                now_ms
            },
        };
        assert(day_partition(p, day, *today, now_ms));
        out.push(p);
        if back == 0 {
            break;
        }
        back = back - 1;
    }
    out
}

/// The row tells the observation.
pub open spec fn tells_observation(
    r: OpenInterestRow,
    symbol: Seq<char>,
    local_ts: Nanos,
    p: OiPoint,
) -> bool {
    &&& r.key.instrument@ == lowercase(symbol)
    &&& r.key.venue_ts == Some((p.ts_ms * 1_000_000) as u64)
    &&& r.key.local_ts == local_ts
    &&& r.key.source == SourceId(0)
    &&& r.open_interest == p.sum_open_interest
    &&& r.open_interest_value == Some(p.sum_open_interest_value)
}

/// The row of an observation.
pub fn oi_row(symbol: &str, local_ts: Nanos, p: &OiPoint) -> (r: OpenInterestRow)
    requires
        p.ts_ms * 1_000_000 <= u64::MAX,
    ensures
        r.key.instrument@ == lowercase(symbol@),
        r.key.venue_ts == Some((p.ts_ms * 1_000_000) as u64),
        r.key.local_ts == local_ts,
        r.key.source == SourceId(0),
        r.open_interest == p.sum_open_interest,
        r.open_interest_value == Some(p.sum_open_interest_value),
        tells_observation(r, symbol@, local_ts, *p),
{
    OpenInterestRow {
        key: RowKey {
            instrument: to_lower(symbol),
            venue_ts: Some(ms_to_nanos(p.ts_ms)),
            local_ts,
            source: SourceId::rest(),
        },
        open_interest: p.sum_open_interest,
        open_interest_value: Some(p.sum_open_interest_value),
    }
}

} // verus!
