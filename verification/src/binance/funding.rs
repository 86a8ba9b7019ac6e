//! Funding metadata by symbol. The venue lists only symbols that deviate from
//! its default interval.
use crate::decimal::Decimal;
use crate::order::NameMap;
use crate::text::{lowercase, to_lower};
use crate::types::Nanos;
use vstd::prelude::*;
use vstd::string::*;

verus! {

/// Eight hours.
pub const DEFAULT_FUNDING_INTERVAL_NS: Nanos = 28_800_000_000_000;

/// Nanoseconds in an hour.
pub const HOUR_NS: u64 = 3_600_000_000_000;

#[derive(Debug, Clone, Copy)]
pub struct FundingMeta {
    pub interval: Nanos,
    pub cap: Option<Decimal>,
    pub floor: Option<Decimal>,
}

/// Metadata by symbol in lower case.
pub type FundingMap = NameMap<FundingMeta>;

/// A symbol's entry in the funding information.
#[derive(Debug)]
pub struct FundingInfoEntry {
    pub symbol: String,
    pub adjusted_funding_rate_cap: Option<Decimal>,
    pub adjusted_funding_rate_floor: Option<Decimal>,
    pub funding_interval_hours: Option<u64>,
}

/// The metadata of an entry.
pub open spec fn meta_of(e: FundingInfoEntry) -> FundingMeta {
    FundingMeta {
        interval: match e.funding_interval_hours {
            Some(h) => (h * HOUR_NS) as u64,
            None => DEFAULT_FUNDING_INTERVAL_NS,
        },
        cap: e.adjusted_funding_rate_cap,
        floor: e.adjusted_funding_rate_floor,
    }
}

/// Metadata by symbol; of a symbol's entries the last counts.
pub open spec fn meta_map(entries: Seq<FundingInfoEntry>) -> Map<Seq<char>, FundingMeta>
    decreases entries.len(),
{
    if entries.len() == 0 {
        Map::empty()
    } else {
        meta_map(entries.drop_last()).insert(
            lowercase(entries.last().symbol@),
            meta_of(entries.last()),
        )
    }
}

/// Metadata by symbol.
pub fn funding_map(entries: &Vec<FundingInfoEntry>) -> (r: FundingMap)
    requires
        forall|i: int|
            0 <= i < entries@.len() && (#[trigger] entries@[i]).funding_interval_hours is Some
                ==> entries@[i].funding_interval_hours->0 * HOUR_NS <= u64::MAX,
    ensures
        r.wf(),
        r.as_map() == meta_map(entries@),
{
    let mut out: FundingMap = NameMap::new();
    let mut i: usize = 0;
    while i < entries.len()
        invariant
            i <= entries@.len(),
            out.wf(),
            out.as_map() == meta_map(entries@.take(i as int)),
            forall|j: int|
                0 <= j < entries@.len() && (#[trigger] entries@[j]).funding_interval_hours is Some
                    ==> entries@[j].funding_interval_hours->0 * HOUR_NS <= u64::MAX,
        decreases entries@.len() - i,
    {
        proof {
            let t = entries@.take(i + 1);
            assert(t.drop_last() =~= entries@.take(i as int));
            assert(t.last() == entries@[i as int]);
        }
        let e: &FundingInfoEntry = &entries[i];
        let meta: FundingMeta = FundingMeta {
            interval: match e.funding_interval_hours {
                Some(h) => h * HOUR_NS,
                None => DEFAULT_FUNDING_INTERVAL_NS,
            },
            cap: e.adjusted_funding_rate_cap,
            floor: e.adjusted_funding_rate_floor,
        };
        out.put(to_lower(e.symbol.as_str()), meta);
        i = i + 1;
    }
    assert(entries@.take(entries@.len() as int) =~= entries@);
    out
}

/// The metadata that counts for a symbol: its own, or the venue's default.
pub open spec fn meta_for(m: Map<Seq<char>, FundingMeta>, symbol: Seq<char>) -> FundingMeta {
    if m.dom().contains(symbol) {
        m[symbol]
    } else {
        FundingMeta { interval: DEFAULT_FUNDING_INTERVAL_NS, cap: None, floor: None }
    }
}

/// The metadata that counts for a symbol in lower case.
pub fn funding_for(map: &FundingMap, symbol: &str) -> (r: FundingMeta)
    requires
        map.wf(),
    ensures
        r == meta_for(map.as_map(), symbol@),
{
    match map.get(symbol) {
        Some(m) => *m,
        None => FundingMeta { interval: DEFAULT_FUNDING_INTERVAL_NS, cap: None, floor: None },
    }
}

} // verus!
