//! Binance USD-M history. Funding history is venue-wide and ascending, so one
//! chronological pass per month covers listed and delisted symbols alike.
use super::klines::Kline;
use super::oi::OiPoint;
use super::{BackfillError, FundingPoint, PerpMeta};
use crate::order::NameMap;
use crate::text::{contains_text, dec, has_text, push_u64, same, to_upper, uppercase};
use crate::timed::TimedMap;
use vstd::prelude::*;
use vstd::string::*;

verus! {

/// Rows per page of funding history and of klines.
pub const PAGE_LIMIT: usize = 1000;

/// Rows per open-interest request; a closed day in five-minute steps is 288.
pub const OI_HIST_LIMIT: usize = 500;

/// Nanoseconds in an hour.
pub const HOUR_NS: u64 = 3_600_000_000_000;

// ---------------------------------------------------------------------------
// Perpetuals
// ---------------------------------------------------------------------------

/// A symbol as the exchange information lists it.
#[derive(Debug)]
pub struct SymbolInfo {
    pub symbol: String,
    pub contract_type: String,
    pub onboard_date: Option<u64>,
}

/// A symbol's entry in the funding information.
#[derive(Debug)]
pub struct FundingInfoEntry {
    pub symbol: String,
    pub funding_interval_hours: Option<u64>,
}

/// Funding intervals by symbol, in nanoseconds; of a symbol's entries the last
/// that has an interval counts.
pub open spec fn interval_map(entries: Seq<FundingInfoEntry>) -> Map<Seq<char>, u64>
    decreases entries.len(),
{
    if entries.len() == 0 {
        Map::empty()
    } else {
        let m = interval_map(entries.drop_last());
        match entries.last().funding_interval_hours {
            Some(h) => m.insert(entries.last().symbol@, (h * HOUR_NS) as u64),
            None => m,
        }
    }
}

/// Funding intervals by symbol.
pub fn funding_intervals(entries: &Vec<FundingInfoEntry>) -> (r: NameMap<u64>)
    requires
        forall|i: int|
            0 <= i < entries@.len() && (#[trigger] entries@[i]).funding_interval_hours is Some
                ==> entries@[i].funding_interval_hours->0 * HOUR_NS <= u64::MAX,
    ensures
        r.wf(),
        r.as_map() == interval_map(entries@),
{
    let mut out: NameMap<u64> = NameMap::new();
    let mut i: usize = 0;
    while i < entries.len()
        invariant
            i <= entries@.len(),
            out.wf(),
            out.as_map() == interval_map(entries@.take(i as int)),
            forall|j: int|
                0 <= j < entries@.len() && (#[trigger] entries@[j]).funding_interval_hours is Some
                    ==> entries@[j].funding_interval_hours->0 * HOUR_NS <= u64::MAX,
        decreases entries@.len() - i,
    {
        proof {
            let t = entries@.take(i + 1);
            assert(t.drop_last() =~= entries@.take(i as int));
            assert(t.last() == entries@[i as int]);
        }
        if let Some(h) = entries[i].funding_interval_hours {
            out.put(entries[i].symbol.clone(), h * HOUR_NS);
        }
        i = i + 1;
    }
    assert(entries@.take(entries@.len() as int) =~= entries@);
    out
}

/// The perpetual a listed symbol is.
pub open spec fn perp_of(s: SymbolInfo, intervals: Map<Seq<char>, u64>, p: PerpMeta) -> bool {
    &&& p.symbol@ == s.symbol@
    &&& p.onboard_ms == s.onboard_date
    &&& p.funding_interval_ns == (if intervals.dom().contains(s.symbol@) {
        Some(intervals[s.symbol@])
    } else {
        None
    })
}

pub open spec fn is_perpetual(s: SymbolInfo) -> bool {
    s.contract_type@ == "PERPETUAL"@
}

/// The perpetuals among the listed symbols, in order.
pub open spec fn perpetuals(symbols: Seq<SymbolInfo>) -> Seq<SymbolInfo> {
    symbols.filter(|s: SymbolInfo| is_perpetual(s))
}

/// The perpetuals among the listed symbols.
pub fn list_perps(symbols: &Vec<SymbolInfo>, intervals: &NameMap<u64>) -> (r: Vec<PerpMeta>)
    requires
        intervals.wf(),
    ensures
        r@.len() == perpetuals(symbols@).len(),
        forall|i: int|
            0 <= i < r@.len() ==> perp_of(
                perpetuals(symbols@)[i],
                intervals.as_map(),
                #[trigger] r@[i],
            ),
{
    let mut out: Vec<PerpMeta> = Vec::new();
    let mut i: usize = 0;
    proof {
        reveal(Seq::filter);
    }
    while i < symbols.len()
        invariant
            i <= symbols@.len(),
            intervals.wf(),
            out@.len() == perpetuals(symbols@.take(i as int)).len(),
            forall|j: int|
                0 <= j < out@.len() ==> perp_of(
                    perpetuals(symbols@.take(i as int))[j],
                    intervals.as_map(),
                    #[trigger] out@[j],
                ),
        decreases symbols@.len() - i,
    {
        proof {
            reveal(Seq::filter);
            let t = symbols@.take(i + 1);
            assert(t.drop_last() =~= symbols@.take(i as int));
            assert(t.last() == symbols@[i as int]);
        }
        let s: &SymbolInfo = &symbols[i];
        if same(s.contract_type.as_str(), "PERPETUAL") {
            let funding_interval_ns: Option<u64> = match intervals.get(s.symbol.as_str()) {
                Some(v) => Some(*v),
                None => None,
            };
            out.push(
                PerpMeta {
                    symbol: s.symbol.clone(),
                    onboard_ms: s.onboard_date,
                    funding_interval_ns,
                },
            );
        }
        i = i + 1;
    }
    assert(symbols@.take(symbols@.len() as int) =~= symbols@);
    out
}

// ---------------------------------------------------------------------------
// Funding history
// ---------------------------------------------------------------------------

/// The request for one page of funding history, of one symbol or of all.
pub open spec fn funding_url_text(symbol: Option<Seq<char>>, start: u64, end_ms: u64) -> Seq<char> {
    "https://fapi.binance.com/fapi/v1/fundingRate?startTime="@ + dec(start as nat) + "&endTime="@
        + dec(end_ms as nat) + "&limit=1000"@ + (match symbol {
        Some(s) => "&symbol="@ + uppercase(s),
        None => Seq::empty(),
    })
}

pub fn funding_url(symbol: Option<&str>, start: u64, end_ms: u64) -> (r: String)
    ensures
        r@ == funding_url_text(
            match symbol {
                Some(s) => Some(s@),
                None => None,
            },
            start,
            end_ms,
        ),
{
    let mut s: String = "https://fapi.binance.com/fapi/v1/fundingRate?startTime=".to_owned();
    push_u64(&mut s, start);
    s.append("&endTime=");
    push_u64(&mut s, end_ms);
    s.append("&limit=1000");
    match symbol {
        Some(name) => {
            let tail: String = "&symbol=".to_owned().concat(to_upper(name).as_str());
            s.append(tail.as_str());
        },
        None => {
            assert(s@ + Seq::<char>::empty() =~= s@);
        },
    }
    s
}

/// The settlement a point reports: one per symbol and instant.
pub open spec fn settlement(p: FundingPoint) -> (u64, Seq<char>) {
    (p.funding_time_ms, p.symbol@)
}

/// The settlement is among the points.
pub open spec fn has_settlement(out: Seq<FundingPoint>, k: (u64, Seq<char>)) -> bool {
    exists|i: int| 0 <= i < out.len() && settlement(#[trigger] out[i]) == k
}

pub open spec fn in_window(p: FundingPoint, start_ms: u64, end_ms: u64) -> bool {
    start_ms <= p.funding_time_ms < end_ms
}

/// A page taken in row by row: what lies in the window and is not there yet.
pub open spec fn ingested(
    out: Seq<FundingPoint>,
    rows: Seq<FundingPoint>,
    start_ms: u64,
    end_ms: u64,
) -> Seq<FundingPoint>
    decreases rows.len(),
{
    if rows.len() == 0 {
        out
    } else {
        let o = ingested(out, rows.drop_last(), start_ms, end_ms);
        let p = rows.last();
        if in_window(p, start_ms, end_ms) && !has_settlement(o, settlement(p)) {
            o.push(p)
        } else {
            o
        }
    }
}

/// Whether a page leads on, and where to.
pub open spec fn pages_on(rows: Seq<FundingPoint>, start: u64, next: u64, more: bool) -> bool {
    &&& more == (rows.len() >= PAGE_LIMIT && rows.last().funding_time_ms > start)
    &&& next == (if more {
        rows.last().funding_time_ms
    } else {
        start
    })
}

/// The pages of one window of funding history. A page is continued at its last
/// instant, not after it: a full page can split an instant's rows, and what
/// comes twice is recognized.
pub struct FundingPager {
    pub start_ms: u64,
    pub end_ms: u64,
    /// Where the next page begins.
    pub start: u64,
    pub seen: TimedMap<()>,
    pub out: Vec<FundingPoint>,
}

impl FundingPager {
    pub open spec fn wf(self) -> bool {
        &&& self.seen.wf()
        &&& forall|k: (u64, Seq<char>)| #[trigger]
            self.seen.as_map().dom().contains(k) <==> has_settlement(self.out@, k)
        &&& forall|i: int|
            0 <= i < self.out@.len() ==> in_window(#[trigger] self.out@[i], self.start_ms, self.end_ms)
        &&& forall|i: int, j: int|
            0 <= i < j < self.out@.len() ==> settlement(#[trigger] self.out@[i]) != settlement(
                #[trigger] self.out@[j],
            )
    }

    pub fn new(start_ms: u64, end_ms: u64) -> (r: FundingPager)
        ensures
            r.wf(),
            r.start_ms == start_ms,
            r.end_ms == end_ms,
            r.start == start_ms,
            r.out@.len() == 0,
    {
        FundingPager { start_ms, end_ms, start: start_ms, seen: TimedMap::new(), out: Vec::new() }
    }

    /// Take in a page; whether there is another.
    pub fn take_page(&mut self, rows: &Vec<FundingPoint>) -> (more: bool)
        requires
            old(self).wf(),
        ensures
            final(self).wf(),
            final(self).start_ms == old(self).start_ms,
            final(self).end_ms == old(self).end_ms,
            final(self).out@ == ingested(
                old(self).out@,
                rows@,
                old(self).start_ms,
                old(self).end_ms,
            ),
            more == (rows@.len() >= PAGE_LIMIT && rows@.last().funding_time_ms > old(self).start),
            final(self).start == (if more {
                rows@.last().funding_time_ms
            } else {
                old(self).start
            }),
            pages_on(rows@, old(self).start, final(self).start, more),
    {
        let ghost held = *self;
        let mut i: usize = 0;
        while i < rows.len()
            invariant
                i <= rows@.len(),
                self.wf(),
                self.start_ms == held.start_ms,
                self.end_ms == held.end_ms,
                self.start == held.start,
                self.out@ == ingested(
                    held.out@,
                    rows@.take(i as int),
                    held.start_ms,
                    held.end_ms,
                ),
            decreases rows@.len() - i,
        {
            proof {
                let t = rows@.take(i + 1);
                assert(t.drop_last() =~= rows@.take(i as int));
                assert(t.last() == rows@[i as int]);
            }
            let row: &FundingPoint = &rows[i];
            if row.funding_time_ms >= self.start_ms && row.funding_time_ms < self.end_ms {
                let ghost o = *self;
                let fresh: bool = !self.seen.contains(row.funding_time_ms, row.symbol.as_str());
                if fresh {
                    self.seen.put(row.funding_time_ms, row.symbol.clone(), ());
                    self.out.push(row.clone());
                    proof {
                        let k0 = settlement(*row);
                        assert(self.out@[o.out@.len() as int] == *row);
                        assert forall|k: (u64, Seq<char>)| #[trigger]
                            self.seen.as_map().dom().contains(k) <==> has_settlement(
                                self.out@,
                                k,
                            ) by {
                            if has_settlement(o.out@, k) {
                                let j = choose|j: int|
                                    0 <= j < o.out@.len() && settlement(#[trigger] o.out@[j]) == k;
                                assert(self.out@[j] == o.out@[j]);
                            }
                            if has_settlement(self.out@, k) {
                                let j = choose|j: int|
                                    0 <= j < self.out@.len() && settlement(#[trigger] self.out@[j])
                                        == k;
                                if j < o.out@.len() {
                                    assert(o.out@[j] == self.out@[j]);
                                }
                            }
                            assert(o.seen.as_map().dom().contains(k) <==> has_settlement(
                                o.out@,
                                k,
                            ));
                        }
                        assert forall|a: int, b: int|
                            0 <= a < b < self.out@.len() implies settlement(
                            #[trigger] self.out@[a],
                        ) != settlement(#[trigger] self.out@[b]) by {
                            assert(o.out@[a] == self.out@[a]);
                            if b < o.out@.len() {
                                assert(o.out@[b] == self.out@[b]);
                            } else {
                                assert(!has_settlement(o.out@, k0));
                            }
                        }
                    }
                }
            }
            i = i + 1;
        }
        assert(rows@.take(rows@.len() as int) =~= rows@);
        if rows.len() < PAGE_LIMIT {
            return false;
        }
        let last: u64 = rows[rows.len() - 1].funding_time_ms;
        if last > self.start {
            self.start = last;
            true
        } else {
            false
        }
    }
}

/// Taking in a page keeps what was there and misses none of its settlements
/// that lie in the window.
pub proof fn law_page_loses_nothing(
    out: Seq<FundingPoint>,
    rows: Seq<FundingPoint>,
    start_ms: u64,
    end_ms: u64,
)
    ensures
        out.is_prefix_of(ingested(out, rows, start_ms, end_ms)),
        forall|k: (u64, Seq<char>)|
            has_settlement(out, k) ==> #[trigger] has_settlement(
                ingested(out, rows, start_ms, end_ms),
                k,
            ),
        forall|i: int|
            0 <= i < rows.len() && in_window(#[trigger] rows[i], start_ms, end_ms)
                ==> has_settlement(ingested(out, rows, start_ms, end_ms), settlement(rows[i])),
    decreases rows.len(),
{
    let n = ingested(out, rows, start_ms, end_ms);
    if rows.len() > 0 {
        let o = ingested(out, rows.drop_last(), start_ms, end_ms);
        law_page_loses_nothing(out, rows.drop_last(), start_ms, end_ms);
        assert forall|k: (u64, Seq<char>)| has_settlement(o, k) implies #[trigger] has_settlement(
            n,
            k,
        ) by {
            let j = choose|j: int| 0 <= j < o.len() && settlement(#[trigger] o[j]) == k;
            assert(n[j] == o[j]);
        }
        assert forall|i: int|
            0 <= i < rows.len() && in_window(
                #[trigger] rows[i],
                start_ms,
                end_ms,
            ) implies has_settlement(n, settlement(rows[i])) by {
            if i < rows.len() - 1 {
                assert(rows.drop_last()[i] == rows[i]);
                assert(has_settlement(o, settlement(rows[i])));
            } else if !has_settlement(o, settlement(rows[i])) {
                assert(n[o.len() as int] == rows[i]);
            }
        }
    }
}

/// An honest page of an ascending history: what it leaves out of the part it was
/// asked for comes at its last instant or later, and then the page is full.
pub open spec fn honest_page(
    history: Set<(u64, Seq<char>)>,
    page: Seq<FundingPoint>,
    start: u64,
    end_ms: u64,
) -> bool {
    forall|k: (u64, Seq<char>)| #[trigger]
        history.contains(k) && start <= k.0 < end_ms ==> has_settlement(page, k) || (page.len()
            >= PAGE_LIMIT && k.0 >= page.last().funding_time_ms)
}

/// Everything of the history that lies in the window and before `t` is there.
pub open spec fn covered_until(
    history: Set<(u64, Seq<char>)>,
    out: Seq<FundingPoint>,
    start_ms: u64,
    end_ms: u64,
    t: int,
) -> bool {
    forall|k: (u64, Seq<char>)| #[trigger]
        history.contains(k) && start_ms <= k.0 < end_ms && k.0 < t ==> has_settlement(out, k)
}

/// Paging is complete: with everything before a page's start in hand, an honest
/// page that is continued leaves everything before the next page's start in
/// hand, and one that is not full leaves everything in the window in hand.
pub proof fn law_paging_is_complete(
    history: Set<(u64, Seq<char>)>,
    out: Seq<FundingPoint>,
    page: Seq<FundingPoint>,
    start_ms: u64,
    end_ms: u64,
    start: u64,
)
    requires
        start_ms <= start,
        honest_page(history, page, start, end_ms),
        covered_until(history, out, start_ms, end_ms, start as int),
    ensures
        page.len() >= PAGE_LIMIT ==> covered_until(
            history,
            ingested(out, page, start_ms, end_ms),
            start_ms,
            end_ms,
            page.last().funding_time_ms as int,
        ),
        page.len() < PAGE_LIMIT ==> covered_until(
            history,
            ingested(out, page, start_ms, end_ms),
            start_ms,
            end_ms,
            end_ms as int,
        ),
{
    let n = ingested(out, page, start_ms, end_ms);
    law_page_loses_nothing(out, page, start_ms, end_ms);
    let t = if page.len() >= PAGE_LIMIT {
        page.last().funding_time_ms as int
    } else {
        end_ms as int
    };
    assert forall|k: (u64, Seq<char>)| #[trigger]
        history.contains(k) && start_ms <= k.0 < end_ms && k.0 < t implies has_settlement(n, k) by {
        if k.0 < start {
            assert(has_settlement(out, k));
        } else {
            assert(has_settlement(page, k));
            let j = choose|j: int| 0 <= j < page.len() && settlement(#[trigger] page[j]) == k;
            assert(in_window(page[j], start_ms, end_ms));
        }
    }
}

/// A full page always leads on: settlements come once per symbol and instant, so
/// with fewer symbols than a page has rows, a full page in the order of time
/// reaches past the instant it began at.
pub proof fn law_full_page_leads_on(page: Seq<FundingPoint>, symbols: Set<Seq<char>>, start: u64)
    requires
        symbols.finite(),
        symbols.len() < PAGE_LIMIT,
        forall|i: int|
            0 <= i < page.len() ==> symbols.contains((#[trigger] page[i]).symbol@)
                && page[i].funding_time_ms >= start,
        forall|i: int, j: int|
            0 <= i < j < page.len() ==> (#[trigger] page[i]).funding_time_ms <= (
            #[trigger] page[j]).funding_time_ms && settlement(page[i]) != settlement(page[j]),
        page.len() >= PAGE_LIMIT,
    ensures
        page.last().funding_time_ms > start,
{
    if page.last().funding_time_ms <= start {
        let names = page.map_values(|p: FundingPoint| p.symbol@);
        assert forall|i: int| 0 <= i < page.len() implies (#[trigger] page[i]).funding_time_ms
            == start by {
            assert(page[page.len() - 1].funding_time_ms <= start);
        }
        assert(names.no_duplicates()) by {
            assert forall|i: int, j: int|
                0 <= i < names.len() && 0 <= j < names.len() && i != j implies names[i]
                != names[j] by {
                if i < j {
                    assert(settlement(page[i]) != settlement(page[j]));
                } else {
                    assert(settlement(page[j]) != settlement(page[i]));
                }
            }
        }
        names.unique_seq_to_set();
        assert(names.to_set().subset_of(symbols));
        vstd::set_lib::lemma_len_subset(names.to_set(), symbols);
    }
}

// ---------------------------------------------------------------------------
// Open interest and klines
// ---------------------------------------------------------------------------

/// The request for a symbol's open-interest history; the end is inclusive
/// there.
pub fn oi_hist_url(symbol: &str, start_ms: u64, end_ms: u64) -> (r: String)
    requires
        end_ms > 0,
    ensures
        r@ == "https://fapi.binance.com/futures/data/openInterestHist?symbol="@ + uppercase(symbol@)
            + "&period=5m&startTime="@ + dec(start_ms as nat) + "&endTime="@ + dec(
            (end_ms - 1) as nat,
        ) + "&limit=500"@,
{
    let mut s: String = "https://fapi.binance.com/futures/data/openInterestHist?symbol=".to_owned();
    s.append(to_upper(symbol).as_str());
    s.append("&period=5m&startTime=");
    push_u64(&mut s, start_ms);
    s.append("&endTime=");
    push_u64(&mut s, end_ms - 1);
    s.append("&limit=500");
    s
}

/// The request for a symbol's hourly bars: a month is at most 744 of them, one
/// page. The end is inclusive there.
pub fn klines_url(symbol: &str, start_ms: u64, end_ms: u64) -> (r: String)
    requires
        end_ms > 0,
    ensures
        r@ == "https://fapi.binance.com/fapi/v1/klines?symbol="@ + uppercase(symbol@)
            + "&interval=1h&startTime="@ + dec(start_ms as nat) + "&endTime="@ + dec(
            (end_ms - 1) as nat,
        ) + "&limit=1000"@,
{
    let mut s: String = "https://fapi.binance.com/fapi/v1/klines?symbol=".to_owned();
    s.append(to_upper(symbol).as_str());
    s.append("&interval=1h&startTime=");
    push_u64(&mut s, start_ms);
    s.append("&endTime=");
    push_u64(&mut s, end_ms - 1);
    s.append("&limit=1000");
    s
}

/// The refusal means that there are no rows.
pub open spec fn tells_of_no_interest(body: Seq<char>) -> bool {
    has_text(body, "-1130"@) || has_text(body, "-4108"@) || has_text(body, "-1121"@)
}

/// The refusal means that there is no such symbol.
pub open spec fn tells_of_no_symbol(body: Seq<char>) -> bool {
    has_text(body, "-1121"@)
}

/// What a reply comes to: rows where it succeeded, none where its refusal means
/// that there are none, and else an error.
pub open spec fn answered(
    ok: bool,
    body: Seq<char>,
    none: bool,
    r: Result<bool, BackfillError>,
) -> bool {
    match r {
        Ok(rows) => rows == ok && (ok || none),
        Err(e) => !ok && !none && (e matches BackfillError::Http(t) && t@ == body),
    }
}

/// Whether a reply has rows to read. The edge of what is retained and symbols
/// that were never listed come back as parameter errors; they mean no rows. Any
/// other refusal is an error.
pub fn oi_reply(ok: bool, body: &str) -> (r: Result<bool, BackfillError>)
    ensures
        match r {
            Ok(rows) => rows == ok && (ok || has_text(body@, "-1130"@) || has_text(body@, "-4108"@)
                || has_text(body@, "-1121"@)),
            Err(e) => !ok && !has_text(body@, "-1130"@) && !has_text(body@, "-4108"@) && !has_text(
                body@,
                "-1121"@,
            ) && (e matches BackfillError::Http(t) && t@ == body@),
        },
        answered(ok, body@, tells_of_no_interest(body@), r),
{
    if ok {
        return Ok(true);
    }
    if contains_text(body, "-1130") || contains_text(body, "-4108") || contains_text(body, "-1121") {
        return Ok(false);
    }
    Err(BackfillError::Http(body.to_owned()))
}

/// Whether a reply has bars to read: an unknown symbol has none, any other
/// refusal is an error.
pub fn klines_reply(ok: bool, body: &str) -> (r: Result<bool, BackfillError>)
    ensures
        match r {
            Ok(rows) => rows == ok && (ok || has_text(body@, "-1121"@)),
            Err(e) => !ok && !has_text(body@, "-1121"@) && (e matches BackfillError::Http(t) && t@
                == body@),
        },
        answered(ok, body@, tells_of_no_symbol(body@), r),
{
    if ok {
        return Ok(true);
    }
    if contains_text(body, "-1121") {
        return Ok(false);
    }
    Err(BackfillError::Http(body.to_owned()))
}

/// The observations of a window.
pub open spec fn observed_within(rows: Seq<OiPoint>, start_ms: u64, end_ms: u64) -> Seq<OiPoint> {
    rows.filter(|p: OiPoint| start_ms <= p.ts_ms < end_ms)
}

/// The bars of a window.
pub open spec fn opened_within(rows: Seq<Kline>, start_ms: u64, end_ms: u64) -> Seq<Kline> {
    rows.filter(|k: Kline| start_ms <= k.open_time_ms < end_ms)
}

/// The observations that lie in the window.
pub fn oi_in_window(rows: &Vec<OiPoint>, start_ms: u64, end_ms: u64) -> (r: Vec<OiPoint>)
    ensures
        r@ == rows@.filter(|p: OiPoint| start_ms <= p.ts_ms < end_ms),
        r@ == observed_within(rows@, start_ms, end_ms),
{
    let ghost keep = |p: OiPoint| start_ms <= p.ts_ms < end_ms;
    let mut out: Vec<OiPoint> = Vec::new();
    let mut i: usize = 0;
    proof {
        reveal(Seq::filter);
    }
    while i < rows.len()
        invariant
            i <= rows@.len(),
            keep == (|p: OiPoint| start_ms <= p.ts_ms < end_ms),
            out@ == rows@.take(i as int).filter(keep),
        decreases rows@.len() - i,
    {
        proof {
            reveal(Seq::filter);
            let t = rows@.take(i + 1);
            assert(t.drop_last() =~= rows@.take(i as int));
            assert(t.last() == rows@[i as int]);
        }
        let p: OiPoint = rows[i];
        if p.ts_ms >= start_ms && p.ts_ms < end_ms {
            out.push(p);
        }
        i = i + 1;
    }
    assert(rows@.take(rows@.len() as int) =~= rows@);
    out
}

/// The bars that open in the window.
pub fn klines_in_window(rows: &Vec<Kline>, start_ms: u64, end_ms: u64) -> (r: Vec<Kline>)
    ensures
        r@ == rows@.filter(|k: Kline| start_ms <= k.open_time_ms < end_ms),
        r@ == opened_within(rows@, start_ms, end_ms),
{
    let ghost keep = |k: Kline| start_ms <= k.open_time_ms < end_ms;
    let mut out: Vec<Kline> = Vec::new();
    let mut i: usize = 0;
    proof {
        reveal(Seq::filter);
    }
    while i < rows.len()
        invariant
            i <= rows@.len(),
            keep == (|k: Kline| start_ms <= k.open_time_ms < end_ms),
            out@ == rows@.take(i as int).filter(keep),
        decreases rows@.len() - i,
    {
        proof {
            reveal(Seq::filter);
            let t = rows@.take(i + 1);
            assert(t.drop_last() =~= rows@.take(i as int));
            assert(t.last() == rows@[i as int]);
        }
        let k: Kline = rows[i];
        if k.open_time_ms >= start_ms && k.open_time_ms < end_ms {
            out.push(k);
        }
        i = i + 1;
    }
    assert(rows@.take(rows@.len() as int) =~= rows@);
    out
}

} // verus!
