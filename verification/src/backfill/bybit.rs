//! Bybit history. Funding history is kept by symbol, newest first, and paged
//! backwards.
use super::{BackfillError, FundingPoint, PerpMeta};
use crate::order::{stable_sort, stable_sort_of, Ranked};
use crate::text::{
    dec, i64_text, int_text, parse_bounded, parse_uint, push_u64, same, to_upper, uppercase,
};
use vstd::prelude::*;
use vstd::string::*;

verus! {

/// Rows per page of funding history.
pub const FUNDING_PAGE_LIMIT: usize = 200;

/// Nanoseconds in a minute.
pub const MINUTE_NS: u64 = 60_000_000_000;

/// What every reply is wrapped in.
#[derive(Debug)]
pub struct Envelope<T> {
    pub ret_code: i64,
    pub ret_msg: String,
    pub result: T,
}

/// What a reply holds.
pub open spec fn opens<T>(env: Envelope<T>, r: Result<T, BackfillError>) -> bool {
    match r {
        Ok(v) => env.ret_code == 0 && v == env.result,
        Err(e) => env.ret_code != 0 && (e matches BackfillError::Http(t) && t@ == "bybit retCode "@
            + int_text(env.ret_code as int) + ": "@ + env.ret_msg@),
    }
}

/// The result of a reply, if its code says that there is one.
pub fn unwrap_envelope<T>(env: Envelope<T>) -> (r: Result<T, BackfillError>)
    ensures
        match r {
            Ok(v) => env.ret_code == 0 && v == env.result,
            Err(e) => env.ret_code != 0 && (e matches BackfillError::Http(t) && t@
                == "bybit retCode "@ + int_text(env.ret_code as int) + ": "@ + env.ret_msg@),
        },
        opens(env, r),
{
    if env.ret_code != 0 {
        let mut s: String = "bybit retCode ".to_owned();
        s.append(i64_text(env.ret_code).as_str());
        s.append(": ");
        s.append(env.ret_msg.as_str());
        return Err(BackfillError::Http(s));
    }
    Ok(env.result)
}

/// An instrument as the venue lists it.
#[derive(Debug)]
pub struct InstrumentRow {
    pub symbol: String,
    pub contract_type: String,
    /// Milliseconds since the epoch, as text.
    pub launch_time: Option<String>,
    /// Minutes.
    pub funding_interval: Option<u64>,
}

pub open spec fn is_perpetual(r: InstrumentRow) -> bool {
    r.contract_type@ == "LinearPerpetual"@
}

/// The perpetuals among the listed instruments, in order.
pub open spec fn perpetuals(rows: Seq<InstrumentRow>) -> Seq<InstrumentRow> {
    rows.filter(|r: InstrumentRow| is_perpetual(r))
}

/// The perpetual a listed instrument is; a launch time that is no number is
/// unknown.
pub open spec fn perp_of(r: InstrumentRow, p: PerpMeta) -> bool {
    &&& p.symbol@ == r.symbol@
    &&& p.onboard_ms == (match r.launch_time {
        Some(t) => match parse_uint(t@, u64::MAX as nat) {
            Some(v) => Some(v as u64),
            None => None,
        },
        None => None,
    })
    &&& p.funding_interval_ns == (match r.funding_interval {
        Some(mins) => Some((mins * MINUTE_NS) as u64),
        None => None,
    })
}

/// The perpetuals among the listed instruments.
pub fn perp_meta(rows: &Vec<InstrumentRow>) -> (r: Vec<PerpMeta>)
    requires
        forall|i: int|
            0 <= i < rows@.len() && is_perpetual(#[trigger] rows@[i])
                && rows@[i].funding_interval is Some ==> rows@[i].funding_interval->0 * MINUTE_NS
                <= u64::MAX,
    ensures
        r@.len() == perpetuals(rows@).len(),
        forall|i: int| 0 <= i < r@.len() ==> perp_of(perpetuals(rows@)[i], #[trigger] r@[i]),
{
    let mut out: Vec<PerpMeta> = Vec::new();
    let mut i: usize = 0;
    proof {
        reveal(Seq::filter);
    }
    while i < rows.len()
        invariant
            i <= rows@.len(),
            forall|j: int|
                0 <= j < rows@.len() && is_perpetual(#[trigger] rows@[j])
                    && rows@[j].funding_interval is Some ==> rows@[j].funding_interval->0
                    * MINUTE_NS <= u64::MAX,
            out@.len() == perpetuals(rows@.take(i as int)).len(),
            forall|j: int|
                0 <= j < out@.len() ==> perp_of(
                    perpetuals(rows@.take(i as int))[j],
                    #[trigger] out@[j],
                ),
        decreases rows@.len() - i,
    {
        proof {
            reveal(Seq::filter);
            let t = rows@.take(i + 1);
            assert(t.drop_last() =~= rows@.take(i as int));
            assert(t.last() == rows@[i as int]);
        }
        let row: &InstrumentRow = &rows[i];
        if same(row.contract_type.as_str(), "LinearPerpetual") {
            let onboard_ms: Option<u64> = match &row.launch_time {
                Some(t) => parse_bounded(t.as_str(), u64::MAX),
                None => None,
            };
            let funding_interval_ns: Option<u64> = match row.funding_interval {
                Some(mins) => Some(mins * MINUTE_NS),
                None => None,
            };
            out.push(PerpMeta { symbol: row.symbol.clone(), onboard_ms, funding_interval_ns });
        }
        i = i + 1;
    }
    assert(rows@.take(rows@.len() as int) =~= rows@);
    out
}

/// The request for one page of the instruments list; the cursor continues an
/// earlier page.
pub fn instruments_url(cursor: &str) -> (r: String)
    ensures
        r@ == "https://api.bybit.com/v5/market/instruments-info?category=linear&limit=1000"@ + (
        if cursor@.len() == 0 {
            Seq::empty()
        } else {
            "&cursor="@ + cursor@
        }),
{
    let mut s: String =
        "https://api.bybit.com/v5/market/instruments-info?category=linear&limit=1000".to_owned();
    if cursor.unicode_len() > 0 {
        s.append("&cursor=".to_owned().concat(cursor).as_str());
    } else {
        assert(s@ + Seq::<char>::empty() =~= s@);
    }
    s
}

/// The cursor of the next page, if there is one.
pub fn next_cursor(cursor: Option<String>) -> (r: Option<String>)
    ensures
        r == (match cursor {
            Some(c) => if c@.len() > 0 {
                Some(c)
            } else {
                None
            },
            None => None,
        }),
{
    match cursor {
        Some(c) => if c.as_str().unicode_len() > 0 {
            Some(c)
        } else {
            None
        },
        None => None,
    }
}

/// One settlement as the venue reports it.
#[derive(Debug)]
pub struct FundingRow {
    pub symbol: String,
    pub funding_rate: crate::decimal::Decimal,
    /// Milliseconds since the epoch, as text.
    pub funding_rate_timestamp: String,
}

/// When a row settled; nothing where its time is no number.
pub open spec fn settled_at(r: FundingRow) -> Option<nat> {
    parse_uint(r.funding_rate_timestamp@, u64::MAX as nat)
}

/// The earliest time in a page.
pub open spec fn oldest_of(rows: Seq<FundingRow>) -> Option<nat>
    decreases rows.len(),
{
    if rows.len() == 0 {
        None
    } else {
        match (oldest_of(rows.drop_last()), settled_at(rows.last())) {
            (Some(a), Some(b)) => Some(
                if a <= b {
                    a
                } else {
                    b
                },
            ),
            (a, None) => a,
            (None, b) => b,
        }
    }
}

/// A row whose time lies in the window.
pub open spec fn row_in_window(r: FundingRow, start_ms: u64, end_ms: u64) -> bool {
    settled_at(r) is Some && start_ms <= settled_at(r)->0 < end_ms
}

/// The rows of a page whose times lie in the window, in order.
pub open spec fn page_in_window(rows: Seq<FundingRow>, start_ms: u64, end_ms: u64) -> Seq<
    FundingRow,
> {
    rows.filter(|r: FundingRow| row_in_window(r, start_ms, end_ms))
}

/// The point a row reports.
pub open spec fn point_of(r: FundingRow, p: FundingPoint) -> bool {
    &&& p.symbol@ == r.symbol@
    &&& settled_at(r) == Some(p.funding_time_ms as nat)
    &&& p.rate == r.funding_rate
}

/// `new` is `old` and, behind it, the points of the rows.
pub open spec fn extended(
    old_out: Seq<FundingPoint>,
    rows: Seq<FundingRow>,
    new_out: Seq<FundingPoint>,
) -> bool {
    &&& new_out.len() == old_out.len() + rows.len()
    &&& new_out.take(old_out.len() as int) == old_out
    &&& forall|i: int|
        0 <= i < rows.len() ==> point_of(#[trigger] rows[i], new_out[old_out.len() + i])
}

/// Take in a page, newest first; the oldest time in it. The next page, one back,
/// ends just before that.
pub fn ingest_funding_page(
    rows: &Vec<FundingRow>,
    start_ms: u64,
    end_ms: u64,
    out: &mut Vec<FundingPoint>,
) -> (oldest: Option<u64>)
    ensures
        extended(old(out)@, page_in_window(rows@, start_ms, end_ms), final(out)@),
        match oldest {
            Some(t) => oldest_of(rows@) == Some(t as nat),
            None => oldest_of(rows@) is None,
        },
{
    let ghost held = out@;
    let mut oldest: Option<u64> = None;
    let mut i: usize = 0;
    proof {
        reveal(Seq::filter);
        assert(out@.take(held.len() as int) =~= held);
    }
    while i < rows.len()
        invariant
            i <= rows@.len(),
            extended(held, page_in_window(rows@.take(i as int), start_ms, end_ms), out@),
            match oldest {
                Some(t) => oldest_of(rows@.take(i as int)) == Some(t as nat),
                None => oldest_of(rows@.take(i as int)) is None,
            },
        decreases rows@.len() - i,
    {
        let ghost before = page_in_window(rows@.take(i as int), start_ms, end_ms);
        let ghost o = out@;
        proof {
            reveal(Seq::filter);
            let t = rows@.take(i + 1);
            assert(t.drop_last() =~= rows@.take(i as int));
            assert(t.last() == rows@[i as int]);
        }
        let row: &FundingRow = &rows[i];
        match parse_bounded(row.funding_rate_timestamp.as_str(), u64::MAX) {
            Some(ts) => {
                oldest = Some(
                    match oldest {
                        Some(t) => if t <= ts {
                            t
                        } else {
                            ts
                        },
                        None => ts,
                    },
                );
                if ts >= start_ms && ts < end_ms {
                    out.push(
                        FundingPoint {
                            symbol: row.symbol.clone(),
                            funding_time_ms: ts,
                            rate: row.funding_rate,
                        },
                    );
                    proof {
                        let n = page_in_window(rows@.take(i + 1), start_ms, end_ms);
                        assert(n =~= before.push(rows@[i as int]));
                        assert(out@.take(held.len() as int) =~= o.take(held.len() as int));
                        assert forall|j: int| 0 <= j < n.len() implies point_of(
                            #[trigger] n[j],
                            out@[held.len() + j],
                        ) by {
                            if j < before.len() {
                                assert(point_of(before[j], o[held.len() + j]));
                            }
                        }
                    }
                }
            },
            None => {},
        }
        i = i + 1;
    }
    assert(rows@.take(rows@.len() as int) =~= rows@);
    oldest
}

/// A settlement, ordered by its time alone.
#[derive(Debug)]
pub struct ByTime(pub FundingPoint);

impl Ranked for ByTime {
    open spec fn rank_le(a: Self, b: Self) -> bool {
        a.0.funding_time_ms <= b.0.funding_time_ms
    }

    proof fn rank_total(a: Self, b: Self) {
    }

    proof fn rank_transitive(a: Self, b: Self, c: Self) {
    }

    fn not_after(&self, other: &Self) -> (r: bool) {
        self.0.funding_time_ms <= other.0.funding_time_ms
    }
}

pub open spec fn by_time(points: Seq<FundingPoint>) -> Seq<ByTime> {
    points.map_values(|p: FundingPoint| ByTime(p))
}

/// The request for one page of a symbol's funding history; both ends are
/// inclusive there.
pub fn funding_url(symbol: &str, start_ms: u64, end: u64) -> (r: String)
    ensures
        r@ == "https://api.bybit.com/v5/market/funding/history?category=linear&symbol="@
            + uppercase(symbol@) + "&startTime="@ + dec(start_ms as nat) + "&endTime="@ + dec(
            end as nat,
        ) + "&limit=200"@,
{
    let mut s: String =
        "https://api.bybit.com/v5/market/funding/history?category=linear&symbol=".to_owned();
    s.append(to_upper(symbol).as_str());
    s.append("&startTime=");
    push_u64(&mut s, start_ms);
    s.append("&endTime=");
    push_u64(&mut s, end);
    s.append("&limit=200");
    s
}

/// Whether a page leads further back, and where to.
pub open spec fn pages_back(
    rows: Seq<FundingRow>,
    start_ms: u64,
    end: u64,
    next: u64,
    more: bool,
) -> bool {
    &&& more == (rows.len() >= FUNDING_PAGE_LIMIT && oldest_of(rows) is Some && oldest_of(rows)->0
        > start_ms)
    &&& next == (if more {
        (oldest_of(rows)->0 - 1) as u64
    } else {
        end
    })
}

/// The pages of one window of a symbol's funding history.
#[derive(Debug)]
pub struct HistoryPager {
    pub start_ms: u64,
    pub end_ms: u64,
    /// The last instant of the next page.
    pub end: u64,
    pub out: Vec<FundingPoint>,
}

impl HistoryPager {
    /// The history of a symbol; there is none of all symbols.
    pub fn new(symbol: Option<&str>, start_ms: u64, end_ms: u64) -> (r: Result<
        HistoryPager,
        BackfillError,
    >)
        requires
            symbol is Some ==> end_ms > 0,
        ensures
            match r {
                Ok(p) => symbol is Some && p.start_ms == start_ms && p.end_ms == end_ms && p.end
                    == end_ms - 1 && p.out@.len() == 0,
                Err(e) => symbol is None && (e matches BackfillError::Invalid(t) && t@
                    == "bybit funding history is per-symbol; the driver must iterate perps"@),
            },
    {
        if symbol.is_none() {
            return Err(
                BackfillError::Invalid(
                    "bybit funding history is per-symbol; the driver must iterate perps".to_owned(),
                ),
            );
        }
        Ok(HistoryPager { start_ms, end_ms, end: end_ms - 1, out: Vec::new() })
    }

    /// Take in a page; whether there is another.
    pub fn take_page(&mut self, rows: &Vec<FundingRow>) -> (more: bool)
        ensures
            final(self).start_ms == old(self).start_ms,
            final(self).end_ms == old(self).end_ms,
            extended(
                old(self).out@,
                page_in_window(rows@, old(self).start_ms, old(self).end_ms),
                final(self).out@,
            ),
            more == (rows@.len() >= FUNDING_PAGE_LIMIT && oldest_of(rows@) is Some && oldest_of(
                rows@,
            )->0 > old(self).start_ms),
            final(self).end == (if more {
                (oldest_of(rows@)->0 - 1) as u64
            } else {
                old(self).end
            }),
            pages_back(rows@, old(self).start_ms, old(self).end, final(self).end, more),
    {
        let oldest: Option<u64> = ingest_funding_page(
            rows,
            self.start_ms,
            self.end_ms,
            &mut self.out,
        );
        if rows.len() < FUNDING_PAGE_LIMIT {
            return false;
        }
        match oldest {
            Some(ts) => {
                if ts > self.start_ms {
                    self.end = ts - 1;
                    true
                } else {
                    false
                }
            },
            None => false,
        }
    }

    /// The points in the order of their times.
    pub fn finish(self) -> (r: Vec<FundingPoint>)
        ensures
            stable_sort_of(by_time(self.out@), by_time(r@)),
    {
        let mut wrapped: Vec<ByTime> = Vec::new();
        let mut i: usize = 0;
        while i < self.out.len()
            invariant
                i <= self.out@.len(),
                wrapped@ == by_time(self.out@.take(i as int)),
            decreases self.out@.len() - i,
        {
            wrapped.push(ByTime(self.out[i].clone()));
            assert(wrapped@ =~= by_time(self.out@.take(i + 1)));
            i = i + 1;
        }
        assert(self.out@.take(self.out@.len() as int) =~= self.out@);
        let sorted: Vec<ByTime> = stable_sort(wrapped);
        let mut out: Vec<FundingPoint> = Vec::new();
        let mut j: usize = 0;
        while j < sorted.len()
            invariant
                j <= sorted@.len(),
                by_time(out@) == sorted@.take(j as int),
            decreases sorted@.len() - j,
        {
            let ghost o = out@;
            out.push(sorted[j].0.clone());
            proof {
                assert(by_time(out@) =~= by_time(o).push(ByTime(out@[o.len() as int])));
                assert(by_time(o).len() == o.len());
                assert(sorted@.take(j + 1) =~= sorted@.take(j as int).push(sorted@[j as int]));
            }
            j = j + 1;
        }
        assert(sorted@.take(sorted@.len() as int) =~= sorted@);
        out
    }
}

/// A settlement of the time is among the points.
pub open spec fn has_time(out: Seq<FundingPoint>, t: u64) -> bool {
    exists|i: int| 0 <= i < out.len() && (#[trigger] out[i]).funding_time_ms == t
}

pub open spec fn page_has_time(rows: Seq<FundingRow>, t: u64) -> bool {
    exists|i: int| 0 <= i < rows.len() && settled_at(#[trigger] rows[i]) == Some(t as nat)
}

/// An honest page of a symbol's history, which settles once an instant: what it
/// leaves out of the part it was asked for is older than all of it, and then the
/// page is full.
pub open spec fn honest_page(
    history: Set<u64>,
    rows: Seq<FundingRow>,
    start_ms: u64,
    end: u64,
) -> bool {
    forall|t: u64| #[trigger]
        history.contains(t) && start_ms <= t <= end ==> page_has_time(rows, t) || (rows.len()
            >= FUNDING_PAGE_LIMIT && oldest_of(rows) is Some && t < oldest_of(rows)->0)
}

/// Everything of the history that lies in the window and after `after` is
/// there.
pub open spec fn covered_from(
    history: Set<u64>,
    out: Seq<FundingPoint>,
    start_ms: u64,
    end_ms: u64,
    after: int,
) -> bool {
    forall|t: u64| #[trigger]
        history.contains(t) && start_ms <= t < end_ms && t > after ==> has_time(out, t)
}

proof fn lemma_filtered_has<T>(s: Seq<T>, keep: spec_fn(T) -> bool, i: int)
    requires
        0 <= i < s.len(),
        keep(s[i]),
    ensures
        s.filter(keep).contains(s[i]),
    decreases s.len(),
{
    reveal(Seq::filter);
    let f = s.filter(keep);
    let g = s.drop_last().filter(keep);
    if i == s.len() - 1 {
        assert(f.last() == s[i]);
    } else {
        lemma_filtered_has(s.drop_last(), keep, i);
        let j = g.index_of(s[i]);
        assert(f[j] == s[i]);
    }
}

/// Paging back is complete: with everything after a page's end in hand, an
/// honest page that is continued leaves everything after the next page's end in
/// hand, and one that is not leaves everything in the window in hand.
pub proof fn law_paging_back_is_complete(
    history: Set<u64>,
    out: Seq<FundingPoint>,
    rows: Seq<FundingRow>,
    new_out: Seq<FundingPoint>,
    start_ms: u64,
    end_ms: u64,
    end: u64,
)
    requires
        honest_page(history, rows, start_ms, end),
        covered_from(history, out, start_ms, end_ms, end as int),
        extended(out, page_in_window(rows, start_ms, end_ms), new_out),
    ensures
        ({
            let more = rows.len() >= FUNDING_PAGE_LIMIT && oldest_of(rows) is Some && oldest_of(
                rows,
            )->0 > start_ms;
            &&& more ==> covered_from(
                history,
                new_out,
                start_ms,
                end_ms,
                oldest_of(rows)->0 - 1,
            )
            &&& !more ==> covered_from(history, new_out, start_ms, end_ms, -1)
        }),
{
    let more = rows.len() >= FUNDING_PAGE_LIMIT && oldest_of(rows) is Some && oldest_of(rows)->0
        > start_ms;
    let after = if more {
        oldest_of(rows)->0 - 1
    } else {
        -1
    };
    assert forall|t: u64| #[trigger]
        history.contains(t) && start_ms <= t < end_ms && t > after implies has_time(
        new_out,
        t,
    ) by {
        if t > end {
            assert(has_time(out, t));
            let i = choose|i: int| 0 <= i < out.len() && (#[trigger] out[i]).funding_time_ms == t;
            assert(new_out.take(out.len() as int)[i] == new_out[i]);
        } else {
            assert(page_has_time(rows, t));
            let i = choose|i: int|
                0 <= i < rows.len() && settled_at(#[trigger] rows[i]) == Some(t as nat);
            let keep = |r: FundingRow| row_in_window(r, start_ms, end_ms);
            lemma_filtered_has(rows, keep, i);
            let kept = page_in_window(rows, start_ms, end_ms);
            let j = kept.index_of(rows[i]);
            assert(point_of(kept[j], new_out[out.len() + j]));
        }
    }
}

} // verus!
