//! What a backfill does with what the venues report: which history is asked
//! for, what of it is kept, and what the files tell.
use super::binance::{
    answered, has_settlement, in_window, ingested, interval_map, observed_within, opened_within,
    pages_on, perp_of, perpetuals, settlement, tells_of_no_interest, tells_of_no_symbol,
    FundingInfoEntry, SymbolInfo,
};
use super::bybit::{
    by_time, extended, oldest_of, opens, page_in_window, pages_back, point_of, row_in_window,
    ByTime, Envelope, FundingRow, InstrumentRow,
};
use super::funding::{begins_with, earliest_onboard, row_of, tells_month, MonthOutcome};
use super::klines::{tells_bar, Kline, KlineRow};
use super::month::{law_month_holds_its_instants, Month};
use super::oi::{day_partition, tells_observation, DayOutcome, OiPoint};
use super::partition::{
    after_fetch, after_probe, closed_with, listed_before, month_after, month_partition, requests_of, Action,
    Partition, PartitionRun, Stage, Standing, Visit,
};
use super::{BackfillError, FundingPoint, Pacer, PerpMeta};
use crate::calendar::{day_exists, law_dates_are_ordered, unsigned, Date, DAY_MS};
use crate::order::stable_sort_of;
use crate::recorder::tables::{FundingRealizedRow, OpenInterestRow};
use crate::text::{has_text, lowercase, parse_uint};
use crate::types::{signed, Nanos};
use vstd::prelude::*;
use vstd::string::*;

verus! {

// ---------------------------------------------------------------------------
// Pace
// ---------------------------------------------------------------------------

/// Two requests that wait for their turn are at least the gap apart.
pub proof fn law_requests_keep_their_distance(p: Pacer, first: u64, q: Pacer, second: u64)
    requires
        first + p.min_gap <= u64::MAX,
        p.spaced(first, q),
        q.next matches Some(n) && second >= n,
    ensures
        second - first >= p.min_gap,
        q.min_gap == p.min_gap,
        q.next->0 - first == p.min_gap,
{
}

// ---------------------------------------------------------------------------
// Outcomes
// ---------------------------------------------------------------------------

/// What came of a month of funding tells the visit: a skipped one was published
/// before, an open one is partial however little it has, a closed one is
/// published with all its rows or is empty.
pub proof fn law_funding_outcome_tells_the_visit(closed: bool, visit: Visit)
    ensures
        ({
            let o = super::funding::outcome_of(closed, visit);
            &&& (o is AlreadyPublished <==> visit.skipped)
            &&& (o matches MonthOutcome::Published { rows } ==> closed && rows == visit.rows && rows
                > 0)
            &&& (o matches MonthOutcome::Partial { rows } ==> !closed && rows == visit.rows)
            &&& (o is Empty ==> closed && visit.rows == 0)
        }),
{
}

/// What came of a month of bars tells the visit; one without bars is empty,
/// open or closed.
pub proof fn law_klines_outcome_tells_the_visit(closed: bool, visit: Visit)
    ensures
        ({
            let o = super::klines::outcome_of(closed, visit);
            &&& (o is AlreadyPublished <==> visit.skipped)
            &&& (o matches super::klines::MonthOutcome::Published { rows } ==> closed && rows
                == visit.rows && rows > 0)
            &&& (o matches super::klines::MonthOutcome::Partial { rows } ==> !closed && rows
                == visit.rows && rows > 0)
            &&& (o is Empty <==> !visit.skipped && visit.rows == 0)
        }),
{
}

/// What came of a day of open interest tells the visit.
pub proof fn law_day_outcome_tells_the_visit(closed: bool, visit: Visit)
    ensures
        ({
            let o = super::oi::outcome_of(closed, visit);
            &&& (o is AlreadyPublished <==> visit.skipped)
            &&& (o matches DayOutcome::Published { rows } ==> closed && rows == visit.rows && rows
                > 0)
            &&& (o matches DayOutcome::Partial { rows } ==> !closed && rows == visit.rows && rows
                > 0)
            &&& (o is Empty <==> !visit.skipped && visit.rows == 0)
        }),
{
}

// ---------------------------------------------------------------------------
// The first month
// ---------------------------------------------------------------------------

/// A month that was asked for is the first one.
pub proof fn law_asked_month_is_the_first(
    m: Month,
    perps: Seq<PerpMeta>,
    r: Result<Month, BackfillError>,
)
    requires
        begins_with(Some(m), perps, r),
    ensures
        r == Ok::<Month, BackfillError>(m),
{
}

/// Without one, no perpetual was listed before the first month begins, and one
/// was listed within it.
pub proof fn law_first_month_misses_no_listing(perps: Seq<PerpMeta>, m: Month, i: int)
    requires
        begins_with(None, perps, Ok(m)),
        m.dated(),
        0 <= i < perps.len(),
        perps[i].onboard_ms is Some,
        forall|j: int|
            0 <= j < perps.len() && (#[trigger] perps[j]).onboard_ms is Some
                ==> perps[j].onboard_ms->0 < 0x8000_0000_0000_0000 && day_exists(
                perps[j].onboard_ms->0 as int / DAY_MS as int,
            ),
    ensures
        m.start() <= perps[i].onboard_ms->0,
        exists|j: int|
            0 <= j < perps.len() && (#[trigger] perps[j]).onboard_ms is Some && m.start()
                <= perps[j].onboard_ms->0 < m.following().start(),
{
    let t = choose|t: u64| #[trigger]
        earliest_onboard(perps, t) && (if day_exists(signed(t) / DAY_MS as int) {
            super::month::falls_in(signed(t), m)
        } else {
            m == (Month { year: 1970, month: 1 })
        });
    let j = choose|j: int| 0 <= j < perps.len() && (#[trigger] perps[j]).onboard_ms == Some(t);
    assert(perps[j].onboard_ms is Some);
    assert(signed(t) == t);
    law_month_holds_its_instants(m, signed(t), m);
}

/// There is no first month where no perpetual carries a listing time, and only
/// there.
pub proof fn law_no_listing_no_month(perps: Seq<PerpMeta>, r: Result<Month, BackfillError>)
    requires
        begins_with(None, perps, r),
    ensures
        r is Err <==> forall|i: int|
            0 <= i < perps.len() ==> (#[trigger] perps[i]).onboard_ms is None,
{
    if r is Ok {
        let t = choose|t: u64| #[trigger] earliest_onboard(perps, t);
        let j = choose|j: int| 0 <= j < perps.len() && (#[trigger] perps[j]).onboard_ms == Some(t);
        assert(perps[j].onboard_ms is Some);
    }
}

// ---------------------------------------------------------------------------
// Rows
// ---------------------------------------------------------------------------

/// One of the rows has the settlement's time, symbol and rate.
pub open spec fn told_among(p: FundingPoint, rows: Seq<FundingRealizedRow>) -> bool {
    exists|j: int|
        0 <= j < rows.len() && (#[trigger] rows[j]).rate == p.rate && rows[j].funding_time
            == p.funding_time_ms * 1_000_000 && rows[j].key.instrument@ == lowercase(p.symbol@)
}

/// The rows of a month are its settlements, each once, in the order of their
/// times and, at one time, of their symbols.
pub proof fn law_month_is_told_in_order(
    points: Seq<FundingPoint>,
    local_ts: Nanos,
    rows: Seq<FundingRealizedRow>,
)
    requires
        tells_month(points, local_ts, rows),
        forall|i: int|
            0 <= i < points.len() ==> (#[trigger] points[i]).funding_time_ms * 1_000_000
                <= u64::MAX,
    ensures
        rows.len() == points.len(),
        forall|i: int, j: int|
            0 <= i < j < rows.len() ==> (#[trigger] rows[i]).funding_time <= (
            #[trigger] rows[j]).funding_time,
        forall|i: int| 0 <= i < points.len() ==> told_among(#[trigger] points[i], rows),
{
    let s = choose|s: Seq<FundingPoint>| #[trigger]
        stable_sort_of(points, s) && s.len() == rows.len() && forall|i: int|
            0 <= i < s.len() ==> row_of(s[i], local_ts, #[trigger] rows[i]);
    broadcast use vstd::seq_lib::group_to_multiset_ensures;

    assert(s.to_multiset().len() == s.len());
    assert(points.to_multiset().len() == points.len());
    assert forall|i: int| 0 <= i < s.len() implies points.contains(#[trigger] s[i]) by {
        assert(s.to_multiset().count(s[i]) > 0);
    }
    assert forall|i: int, j: int| 0 <= i < j < rows.len() implies (
    #[trigger] rows[i]).funding_time <= (#[trigger] rows[j]).funding_time by {
        let a = s[i];
        let b = s[j];
        assert(points.contains(a) && points.contains(b));
        assert(!crate::timed::key_lt((b.funding_time_ms, b.symbol@), (a.funding_time_ms, a.symbol@)))
            by {
            assert(crate::order::ranked(s));
        }
        assert(row_of(a, local_ts, rows[i]) && row_of(b, local_ts, rows[j]));
    }
    assert forall|i: int| 0 <= i < points.len() implies told_among(#[trigger] points[i], rows) by {
        assert(points.to_multiset().count(points[i]) > 0);
        assert(s.contains(points[i]));
        let j = choose|j: int| 0 <= j < s.len() && s[j] == points[i];
        assert(row_of(s[j], local_ts, rows[j]));
    }
}

/// A settlement reads back from its row: time, rate and symbol; when it was
/// fetched is told apart from when it settled, and no interval is claimed.
pub proof fn law_settlement_row_reads_back(
    p: FundingPoint,
    local_ts: Nanos,
    r: FundingRealizedRow,
)
    requires
        p.funding_time_ms * 1_000_000 <= u64::MAX,
        row_of(p, local_ts, r),
    ensures
        r.funding_time / 1_000_000 == p.funding_time_ms,
        r.funding_time % 1_000_000 == 0,
        r.key.venue_ts == Some(r.funding_time),
        r.key.local_ts == local_ts,
        r.key.instrument@ == lowercase(p.symbol@),
        r.rate == p.rate,
        r.interval_ns is None,
{
}

/// A bar reads back from its row: every figure from its own column.
pub proof fn law_bar_reads_back(r: KlineRow, symbol: Seq<char>, local_ts: Nanos, k: Kline)
    requires
        k.open_time_ms * 1_000_000 <= u64::MAX,
        tells_bar(r, symbol, local_ts, k),
    ensures
        r.key.venue_ts matches Some(t) && t / 1_000_000 == k.open_time_ms && t % 1_000_000 == 0,
        r.close_time / 1_000_000 == k.close_time_ms && r.close_time % 1_000_000 == 0,
        r.key.local_ts == local_ts && r.key.instrument@ == lowercase(symbol),
        (r.open, r.high, r.low, r.close) == (k.open, k.high, k.low, k.close),
        (r.volume, r.quote_volume) == (k.volume, k.quote_volume),
        (r.taker_buy_volume, r.taker_buy_quote_volume) == (
            k.taker_buy_volume,
            k.taker_buy_quote_volume,
        ),
        r.trades == k.trades,
{
}

/// An observation reads back from its row.
pub proof fn law_observation_reads_back(
    r: OpenInterestRow,
    symbol: Seq<char>,
    local_ts: Nanos,
    p: OiPoint,
)
    requires
        p.ts_ms * 1_000_000 <= u64::MAX,
        tells_observation(r, symbol, local_ts, p),
    ensures
        r.key.venue_ts matches Some(t) && t / 1_000_000 == p.ts_ms && t % 1_000_000 == 0,
        r.key.local_ts == local_ts && r.key.instrument@ == lowercase(symbol),
        r.open_interest == p.sum_open_interest,
        r.open_interest_value == Some(p.sum_open_interest_value),
{
}

// ---------------------------------------------------------------------------
// Perpetuals
// ---------------------------------------------------------------------------

/// Of a symbol's entries the last that has an interval counts, in hours.
pub proof fn law_last_interval_counts(entries: Seq<FundingInfoEntry>, i: int)
    requires
        0 <= i < entries.len(),
        entries[i].funding_interval_hours is Some,
        entries[i].funding_interval_hours->0 * 3_600_000_000_000 <= u64::MAX,
        forall|j: int|
            i < j < entries.len() && (#[trigger] entries[j]).symbol@ == entries[i].symbol@
                ==> entries[j].funding_interval_hours is None,
    ensures
        interval_map(entries).dom().contains(entries[i].symbol@),
        interval_map(entries)[entries[i].symbol@] == entries[i].funding_interval_hours->0
            * 3_600_000_000_000,
    decreases entries.len(),
{
    if i < entries.len() - 1 {
        let front = entries.drop_last();
        assert(front[i] == entries[i]);
        assert forall|j: int|
            i < j < front.len() && (#[trigger] front[j]).symbol@ == front[i].symbol@ implies
            front[j].funding_interval_hours is None by {
            assert(front[j] == entries[j]);
        }
        law_last_interval_counts(front, i);
        assert(entries.last() == entries[entries.len() - 1]);
    }
}

/// A symbol without an entry that has an interval has none.
pub proof fn law_unlisted_interval_is_unknown(entries: Seq<FundingInfoEntry>, symbol: Seq<char>)
    requires
        forall|j: int|
            0 <= j < entries.len() && (#[trigger] entries[j]).symbol@ == symbol
                ==> entries[j].funding_interval_hours is None,
    ensures
        !interval_map(entries).dom().contains(symbol),
    decreases entries.len(),
{
    if entries.len() > 0 {
        let front = entries.drop_last();
        assert forall|j: int| 0 <= j < front.len() && (#[trigger] front[j]).symbol@ == symbol implies
            front[j].funding_interval_hours is None by {
            assert(front[j] == entries[j]);
        }
        law_unlisted_interval_is_unknown(front, symbol);
        assert(entries.last() == entries[entries.len() - 1]);
    }
}

/// The perpetuals are the listed symbols whose contract is perpetual: all of
/// them and no other.
pub proof fn law_perpetuals_are_all_listed(symbols: Seq<SymbolInfo>, s: SymbolInfo)
    ensures
        perpetuals(symbols).contains(s) <==> symbols.contains(s) && s.contract_type@
            == "PERPETUAL"@,
    decreases symbols.len(),
{
    reveal(Seq::filter);
    if symbols.len() > 0 {
        let front = symbols.drop_last();
        let last = symbols.last();
        law_perpetuals_are_all_listed(front, s);
        assert(symbols =~= front.push(last));
        lemma_push_contains(front, last, s);
        lemma_push_contains(perpetuals(front), last, s);
        if last.contract_type@ == "PERPETUAL"@ {
            assert(perpetuals(symbols) =~= perpetuals(front).push(last));
        } else {
            assert(perpetuals(symbols) =~= perpetuals(front));
        }
    } else {
        assert(perpetuals(symbols).len() == 0);
    }
}

/// The same of the other venue's linear perpetuals.
pub proof fn law_linear_perpetuals_are_all_listed(rows: Seq<InstrumentRow>, s: InstrumentRow)
    ensures
        super::bybit::perpetuals(rows).contains(s) <==> rows.contains(s) && s.contract_type@
            == "LinearPerpetual"@,
    decreases rows.len(),
{
    reveal(Seq::filter);
    if rows.len() > 0 {
        let front = rows.drop_last();
        let last = rows.last();
        law_linear_perpetuals_are_all_listed(front, s);
        assert(rows =~= front.push(last));
        lemma_push_contains(front, last, s);
        lemma_push_contains(super::bybit::perpetuals(front), last, s);
        if last.contract_type@ == "LinearPerpetual"@ {
            assert(super::bybit::perpetuals(rows) =~= super::bybit::perpetuals(front).push(last));
        } else {
            assert(super::bybit::perpetuals(rows) =~= super::bybit::perpetuals(front));
        }
    } else {
        assert(super::bybit::perpetuals(rows).len() == 0);
    }
}

proof fn lemma_push_contains<T>(s: Seq<T>, y: T, x: T)
    ensures
        s.push(y).contains(x) <==> s.contains(x) || x == y,
{
    if s.contains(x) {
        let i = choose|i: int| 0 <= i < s.len() && s[i] == x;
        assert(s.push(y)[i] == x);
    }
    assert(s.push(y)[s.len() as int] == y);
    if s.push(y).contains(x) && x != y {
        let i = choose|i: int| 0 <= i < s.push(y).len() && s.push(y)[i] == x;
        assert(s[i] == x);
    }
}

/// A perpetual tells the listing: its symbol, when it was listed, and its
/// interval where one is known.
pub proof fn law_perpetual_tells_the_listing(
    s: SymbolInfo,
    intervals: Map<Seq<char>, u64>,
    p: PerpMeta,
)
    requires
        perp_of(s, intervals, p),
    ensures
        p.symbol@ == s.symbol@,
        p.onboard_ms == s.onboard_date,
        p.funding_interval_ns is Some <==> intervals.dom().contains(s.symbol@),
        p.funding_interval_ns matches Some(v) ==> v == intervals[s.symbol@],
{
}

/// So does one of the other venue, whose intervals are minutes and whose launch
/// times are texts.
pub proof fn law_linear_perpetual_tells_the_listing(row: InstrumentRow, p: PerpMeta)
    requires
        super::bybit::perp_of(row, p),
        row.funding_interval matches Some(m) ==> m * 60_000_000_000 <= u64::MAX,
    ensures
        p.symbol@ == row.symbol@,
        p.funding_interval_ns is Some <==> row.funding_interval is Some,
        p.funding_interval_ns matches Some(v) ==> v % 60_000_000_000 == 0 && v / 60_000_000_000
            == row.funding_interval->0,
        p.onboard_ms is Some <==> row.launch_time is Some && parse_uint(
            row.launch_time->0@,
            u64::MAX as nat,
        ) is Some,
        p.onboard_ms matches Some(t) ==> parse_uint(row.launch_time->0@, u64::MAX as nat) == Some(
            t as nat,
        ),
{
    if row.launch_time is Some {
        lemma_parsed_is_bounded(row.launch_time->0@);
    }
}

proof fn lemma_parsed_is_bounded(s: Seq<char>)
    ensures
        parse_uint(s, u64::MAX as nat) matches Some(v) ==> v <= u64::MAX,
{
}

// ---------------------------------------------------------------------------
// Windows and pages
// ---------------------------------------------------------------------------

/// Windows that meet share no settlement and miss none: an instant at the seam
/// belongs to the later one.
pub proof fn law_windows_tile(p: FundingPoint, a: u64, b: u64, c: u64)
    requires
        a <= b <= c,
    ensures
        in_window(p, a, c) <==> in_window(p, a, b) || in_window(p, b, c),
        !(in_window(p, a, b) && in_window(p, b, c)),
        a < c && p.funding_time_ms == a ==> in_window(p, a, c),
        p.funding_time_ms == c ==> !in_window(p, a, c),
{
}

/// The same of a row whose time is a text; one whose time is no number lies in
/// no window.
pub proof fn law_row_windows_tile(r: FundingRow, a: u64, b: u64, c: u64)
    requires
        a <= b <= c,
    ensures
        row_in_window(r, a, c) <==> row_in_window(r, a, b) || row_in_window(r, b, c),
        !(row_in_window(r, a, b) && row_in_window(r, b, c)),
        row_in_window(r, a, c) ==> parse_uint(r.funding_rate_timestamp@, u64::MAX as nat) is Some,
        parse_uint(r.funding_rate_timestamp@, u64::MAX as nat) matches Some(t) ==> (row_in_window(
            r,
            a,
            c,
        ) <==> a <= t < c),
{
}

/// Taking in a page invents nothing: what it adds are rows of the page that lie
/// in the window, each at most once.
pub proof fn law_page_adds_its_own_rows(
    out: Seq<FundingPoint>,
    rows: Seq<FundingPoint>,
    start_ms: u64,
    end_ms: u64,
    i: int,
)
    requires
        out.len() <= i < ingested(out, rows, start_ms, end_ms).len(),
    ensures
        rows.contains(ingested(out, rows, start_ms, end_ms)[i]),
        start_ms <= ingested(out, rows, start_ms, end_ms)[i].funding_time_ms < end_ms,
        forall|j: int|
            0 <= j < i ==> {
                let before = #[trigger] ingested(out, rows, start_ms, end_ms)[j];
                let added = ingested(out, rows, start_ms, end_ms)[i];
                before.funding_time_ms != added.funding_time_ms || before.symbol@ != added.symbol@
            },
    decreases rows.len(),
{
    if rows.len() > 0 {
        let front = rows.drop_last();
        let o = ingested(out, front, start_ms, end_ms);
        let all = ingested(out, rows, start_ms, end_ms);
        assert(rows =~= front.push(rows.last()));
        if i < o.len() {
            law_page_adds_its_own_rows(out, front, start_ms, end_ms, i);
            lemma_push_contains(front, rows.last(), all[i]);
            assert(all[i] == o[i]);
            assert forall|j: int| 0 <= j < i implies ({
                let before = #[trigger] all[j];
                before.funding_time_ms != all[i].funding_time_ms || before.symbol@
                    != all[i].symbol@
            }) by {
                assert(all[j] == o[j]);
            }
        } else {
            lemma_push_contains(front, rows.last(), all[i]);
            assert(all == o.push(rows.last()));
            assert(!has_settlement(o, settlement(rows.last())));
            assert forall|j: int| 0 <= j < i implies ({
                let before = #[trigger] all[j];
                before.funding_time_ms != all[i].funding_time_ms || before.symbol@
                    != all[i].symbol@
            }) by {
                assert(all[j] == o[j]);
                assert(settlement(o[j]) != settlement(rows.last()));
            }
        }
    }
}

/// A page of a thousand rows leads on to its last instant, unless that brings no
/// progress; a shorter one is the last.
pub proof fn law_thousand_rows_lead_on(
    rows: Seq<FundingPoint>,
    start: u64,
    next: u64,
    more: bool,
)
    requires
        pages_on(rows, start, next, more),
    ensures
        rows.len() < 1000 ==> !more,
        rows.len() >= 1000 ==> (more <==> rows[rows.len() - 1].funding_time_ms > start),
        more ==> next == rows[rows.len() - 1].funding_time_ms,
        !more ==> next == start,
{
}

/// The oldest time of a page is the time of one of its rows, and no row is older.
pub proof fn law_oldest_is_the_least(rows: Seq<FundingRow>)
    ensures
        oldest_of(rows) is None <==> forall|i: int|
            0 <= i < rows.len() ==> parse_uint(
                (#[trigger] rows[i]).funding_rate_timestamp@,
                u64::MAX as nat,
            ) is None,
        oldest_of(rows) matches Some(t) ==> {
            &&& exists|i: int|
                0 <= i < rows.len() && parse_uint(
                    (#[trigger] rows[i]).funding_rate_timestamp@,
                    u64::MAX as nat,
                ) == Some(t)
            &&& forall|i: int|
                0 <= i < rows.len() ==> (parse_uint(
                    (#[trigger] rows[i]).funding_rate_timestamp@,
                    u64::MAX as nat,
                ) matches Some(u) ==> t <= u)
        },
    decreases rows.len(),
{
    if rows.len() > 0 {
        let front = rows.drop_last();
        law_oldest_is_the_least(front);
        let n = rows.len() - 1;
        assert(rows.last() == rows[n]);
        assert(forall|i: int| 0 <= i < front.len() ==> #[trigger] front[i] == rows[i]);
        if oldest_of(front) is Some {
            let i = choose|i: int|
                0 <= i < front.len() && parse_uint(
                    (#[trigger] front[i]).funding_rate_timestamp@,
                    u64::MAX as nat,
                ) == oldest_of(front);
            assert(rows[i] == front[i]);
        }
        assert forall|i: int| 0 <= i < rows.len() implies i == n || rows[i] == front[i] by {}
        if oldest_of(front) is None {
            assert forall|i: int| 0 <= i < front.len() implies parse_uint(
                (#[trigger] rows[i]).funding_rate_timestamp@,
                u64::MAX as nat,
            ) is None by {
                assert(front[i] == rows[i]);
            }
        }
        if oldest_of(rows) is None {
            assert forall|i: int| 0 <= i < rows.len() implies parse_uint(
                (#[trigger] rows[i]).funding_rate_timestamp@,
                u64::MAX as nat,
            ) is None by {
                if i < n {
                    assert(front[i] == rows[i]);
                }
            }
        } else {
            let t = oldest_of(rows)->0;
            assert forall|i: int| 0 <= i < rows.len() implies (parse_uint(
                (#[trigger] rows[i]).funding_rate_timestamp@,
                u64::MAX as nat,
            ) matches Some(u) ==> t <= u) by {
                if i < n {
                    assert(front[i] == rows[i]);
                }
            }
        }
    }
}

/// A page of two hundred rows leads back to just before its oldest time, while
/// that lies behind the start of the window; a shorter one is the last.
pub proof fn law_two_hundred_rows_lead_back(
    rows: Seq<FundingRow>,
    start_ms: u64,
    end: u64,
    next: u64,
    more: bool,
)
    requires
        pages_back(rows, start_ms, end, next, more),
    ensures
        rows.len() < 200 ==> !more,
        !more ==> next == end,
        more ==> next >= start_ms,
        more ==> exists|i: int|
            0 <= i < rows.len() && parse_uint(
                (#[trigger] rows[i]).funding_rate_timestamp@,
                u64::MAX as nat,
            ) == Some((next + 1) as nat),
        more ==> forall|i: int|
            0 <= i < rows.len() ==> (parse_uint(
                (#[trigger] rows[i]).funding_rate_timestamp@,
                u64::MAX as nat,
            ) matches Some(u) ==> next < u),
        rows.len() >= 200 && !more ==> oldest_of(rows) is None || oldest_of(rows)->0 <= start_ms,
{
    law_oldest_is_the_least(rows);
    if more {
        let i = choose|i: int|
            0 <= i < rows.len() && parse_uint(
                (#[trigger] rows[i]).funding_rate_timestamp@,
                u64::MAX as nat,
            ) == oldest_of(rows);
        lemma_parsed_is_bounded(rows[i].funding_rate_timestamp@);
    }
}

/// A point tells its row: symbol, time and rate.
pub proof fn law_point_tells_its_row(r: FundingRow, p: FundingPoint)
    requires
        point_of(r, p),
    ensures
        p.symbol@ == r.symbol@,
        p.rate == r.funding_rate,
        parse_uint(r.funding_rate_timestamp@, u64::MAX as nat) == Some(p.funding_time_ms as nat),
{
}

/// Every row of a page that lies in the window has its point behind those that
/// were there, and those stay.
pub proof fn law_page_back_loses_nothing(
    old_out: Seq<FundingPoint>,
    rows: Seq<FundingRow>,
    start_ms: u64,
    end_ms: u64,
    new_out: Seq<FundingPoint>,
    i: int,
)
    requires
        extended(old_out, page_in_window(rows, start_ms, end_ms), new_out),
        0 <= i < rows.len(),
        parse_uint(rows[i].funding_rate_timestamp@, u64::MAX as nat) matches Some(t) && start_ms
            <= t < end_ms,
    ensures
        old_out.is_prefix_of(new_out),
        exists|j: int|
            old_out.len() <= j < new_out.len() && (#[trigger] new_out[j]).symbol@ == rows[i].symbol@
                && new_out[j].rate == rows[i].funding_rate && parse_uint(
                rows[i].funding_rate_timestamp@,
                u64::MAX as nat,
            ) == Some(new_out[j].funding_time_ms as nat),
{
    let page = page_in_window(rows, start_ms, end_ms);
    lemma_page_holds(rows, start_ms, end_ms, rows[i]);
    assert(rows.contains(rows[i]));
    let k = choose|k: int| 0 <= k < page.len() && page[k] == rows[i];
    assert(point_of(page[k], new_out[old_out.len() + k]));
    assert(old_out =~= new_out.take(old_out.len() as int));
}

/// Nothing else gets a point.
pub proof fn law_page_back_adds_its_own_rows(
    rows: Seq<FundingRow>,
    start_ms: u64,
    end_ms: u64,
    r: FundingRow,
)
    ensures
        page_in_window(rows, start_ms, end_ms).contains(r) <==> rows.contains(r) && (parse_uint(
            r.funding_rate_timestamp@,
            u64::MAX as nat,
        ) matches Some(t) && start_ms <= t < end_ms),
{
    lemma_page_holds(rows, start_ms, end_ms, r);
}

proof fn lemma_page_holds(rows: Seq<FundingRow>, start_ms: u64, end_ms: u64, r: FundingRow)
    ensures
        page_in_window(rows, start_ms, end_ms).contains(r) <==> rows.contains(r) && (parse_uint(
            r.funding_rate_timestamp@,
            u64::MAX as nat,
        ) matches Some(t) && start_ms <= t < end_ms),
    decreases rows.len(),
{
    reveal(Seq::filter);
    if rows.len() > 0 {
        let front = rows.drop_last();
        let last = rows.last();
        lemma_page_holds(front, start_ms, end_ms, r);
        assert(rows =~= front.push(last));
        lemma_push_contains(front, last, r);
        lemma_push_contains(page_in_window(front, start_ms, end_ms), last, r);
        if row_in_window(last, start_ms, end_ms) {
            assert(page_in_window(rows, start_ms, end_ms) =~= page_in_window(
                front,
                start_ms,
                end_ms,
            ).push(last));
        } else {
            assert(page_in_window(rows, start_ms, end_ms) =~= page_in_window(
                front,
                start_ms,
                end_ms,
            ));
        }
    } else {
        assert(page_in_window(rows, start_ms, end_ms).len() == 0);
    }
}

/// A finished history is in the order of its times and holds what was taken in.
pub proof fn law_history_is_in_order(points: Seq<FundingPoint>, r: Seq<FundingPoint>)
    requires
        stable_sort_of(by_time(points), by_time(r)),
    ensures
        r.len() == points.len(),
        forall|i: int, j: int|
            0 <= i < j < r.len() ==> (#[trigger] r[i]).funding_time_ms <= (
            #[trigger] r[j]).funding_time_ms,
        forall|i: int| 0 <= i < points.len() ==> r.contains(#[trigger] points[i]),
{
    broadcast use vstd::seq_lib::group_to_multiset_ensures;

    let a = by_time(points);
    let b = by_time(r);
    assert(a.to_multiset().len() == a.len());
    assert(b.to_multiset().len() == b.len());
    assert forall|i: int, j: int| 0 <= i < j < r.len() implies (#[trigger] r[i]).funding_time_ms
        <= (#[trigger] r[j]).funding_time_ms by {
        assert(crate::order::ranked(b));
        assert(b[i] == ByTime(r[i]) && b[j] == ByTime(r[j]));
    }
    assert forall|i: int| 0 <= i < points.len() implies r.contains(#[trigger] points[i]) by {
        assert(a[i] == ByTime(points[i]));
        assert(a.to_multiset().count(a[i]) > 0);
        assert(b.contains(a[i]));
        let j = choose|j: int| 0 <= j < b.len() && b[j] == a[i];
        assert(b[j] == ByTime(r[j]));
        assert(r[j] == points[i]);
    }
}

/// The observations of a window are those whose times lie in it, all of them.
pub proof fn law_observations_of_a_window(
    rows: Seq<OiPoint>,
    start_ms: u64,
    end_ms: u64,
    p: OiPoint,
)
    ensures
        observed_within(rows, start_ms, end_ms).contains(p) <==> rows.contains(p) && start_ms
            <= p.ts_ms < end_ms,
    decreases rows.len(),
{
    reveal(Seq::filter);
    if rows.len() > 0 {
        let front = rows.drop_last();
        let last = rows.last();
        law_observations_of_a_window(front, start_ms, end_ms, p);
        assert(rows =~= front.push(last));
        lemma_push_contains(front, last, p);
        lemma_push_contains(observed_within(front, start_ms, end_ms), last, p);
        if start_ms <= last.ts_ms < end_ms {
            assert(observed_within(rows, start_ms, end_ms) =~= observed_within(
                front,
                start_ms,
                end_ms,
            ).push(last));
        } else {
            assert(observed_within(rows, start_ms, end_ms) =~= observed_within(
                front,
                start_ms,
                end_ms,
            ));
        }
    } else {
        assert(observed_within(rows, start_ms, end_ms).len() == 0);
    }
}

/// The bars of a window are those that open in it, all of them.
pub proof fn law_bars_of_a_window(rows: Seq<Kline>, start_ms: u64, end_ms: u64, k: Kline)
    ensures
        opened_within(rows, start_ms, end_ms).contains(k) <==> rows.contains(k) && start_ms
            <= k.open_time_ms < end_ms,
    decreases rows.len(),
{
    reveal(Seq::filter);
    if rows.len() > 0 {
        let front = rows.drop_last();
        let last = rows.last();
        law_bars_of_a_window(front, start_ms, end_ms, k);
        assert(rows =~= front.push(last));
        lemma_push_contains(front, last, k);
        lemma_push_contains(opened_within(front, start_ms, end_ms), last, k);
        if start_ms <= last.open_time_ms < end_ms {
            assert(opened_within(rows, start_ms, end_ms) =~= opened_within(
                front,
                start_ms,
                end_ms,
            ).push(last));
        } else {
            assert(opened_within(rows, start_ms, end_ms) =~= opened_within(
                front,
                start_ms,
                end_ms,
            ));
        }
    } else {
        assert(opened_within(rows, start_ms, end_ms).len() == 0);
    }
}

// ---------------------------------------------------------------------------
// Replies
// ---------------------------------------------------------------------------

/// A reply is opened where its code is zero, and then it is the result; any
/// other code is an error that tells the code.
pub proof fn law_reply_is_opened_at_zero<T>(env: Envelope<T>, r: Result<T, BackfillError>)
    requires
        opens(env, r),
    ensures
        r is Ok <==> env.ret_code == 0,
        r matches Ok(v) ==> v == env.result,
        r is Err ==> r->Err_0 is Http,
{
}

/// A success has rows to read, whatever its body says. A refusal that names an
/// unknown symbol has none for either dataset; one that names the edge of what
/// is retained has none of open interest; of bars such a refusal is an error.
pub proof fn law_refusals_are_told_apart(
    ok: bool,
    body: Seq<char>,
    oi: Result<bool, BackfillError>,
    bars: Result<bool, BackfillError>,
)
    requires
        answered(ok, body, tells_of_no_interest(body), oi),
        answered(ok, body, tells_of_no_symbol(body), bars),
    ensures
        oi matches Ok(rows) ==> rows == ok,
        bars matches Ok(rows) ==> rows == ok,
        ok ==> oi is Ok && bars is Ok,
        has_text(body, "-1121"@) ==> oi is Ok && bars is Ok,
        has_text(body, "-1130"@) || has_text(body, "-4108"@) ==> oi is Ok,
        !ok && !has_text(body, "-1121"@) ==> bars is Err,
        !ok && !has_text(body, "-1121"@) && !has_text(body, "-1130"@) && !has_text(body, "-4108"@)
            ==> oi is Err,
        oi is Err ==> (oi->Err_0 matches BackfillError::Http(t) && t@ == body),
        bars is Err ==> (bars->Err_0 matches BackfillError::Http(t) && t@ == body),
{
}

// ---------------------------------------------------------------------------
// Partitions
// ---------------------------------------------------------------------------

/// The partitions of months that follow one another meet, once the first lies in
/// the past whole; none reaches into the future.
pub proof fn law_month_partitions_meet(
    p: Partition,
    q: Partition,
    m: Month,
    current: Month,
    now_ms: u64,
)
    requires
        month_partition(p, m, current, now_ms),
        month_partition(q, m.following(), current, now_ms),
    ensures
        p.end_ms <= now_ms,
        unsigned(m.following().start()) <= now_ms ==> p.end_ms == q.start_ms,
        unsigned(m.following().start()) > now_ms ==> p.end_ms == now_ms,
        p.start_ms == unsigned(m.start()),
        p.name@ == m.text(),
        p.closed <==> m.year < current.year || (m.year == current.year && m.month < current.month),
{
}

/// The months of a run follow one another from the first one on.
pub proof fn law_months_of_a_run_follow(m: Month, i: int)
    requires
        m.wf(),
        0 <= i,
        m.ordinal() + i + 1 < i32::MAX,
    ensures
        month_after(m, 0) == m,
        month_after(m, i).wf(),
        month_after(m, i).ordinal() == m.ordinal() + i,
        month_after(m, i + 1) == month_after(m, i).following(),
{
}

/// A day's partition is the day, or its part that lies in the past; today's is
/// open, the days before are closed.
pub proof fn law_day_partition_is_the_day(p: Partition, d: Date, today: Date, now_ms: u64)
    requires
        day_partition(p, d, today, now_ms),
        d.wf(),
        today.wf(),
        d.number() >= 0,
    ensures
        p.start_ms == d.number() * 86_400_000,
        p.end_ms <= now_ms,
        now_ms >= (d.number() + 1) * 86_400_000 ==> p.end_ms == (d.number() + 1) * 86_400_000,
        now_ms < (d.number() + 1) * 86_400_000 ==> p.end_ms == now_ms,
        p.name@ == d.text(),
        p.closed <==> d.number() < today.number(),
{
    let (y, m, n) = (d.year as int, d.month as int, d.day as int);
    let (y2, m2, n2) = (today.year as int, today.month as int, today.day as int);
    crate::calendar::lemma_date_in_range(y, m, n);
    if d.precedes(today) {
        law_dates_are_ordered(y, m, n, y2, m2, n2);
    } else if d != today {
        law_dates_are_ordered(y2, m2, n2, y, m, n);
    }
}

/// A run over all symbols at once asks once, without a symbol.
pub proof fn law_venue_is_asked_once(perps: Seq<PerpMeta>, end_ms: u64)
    ensures
        requests_of(perps, true, end_ms).len() == 1,
        requests_of(perps, true, end_ms)[0] is None,
{
}

/// A run by symbol asks for every perpetual that was listed before the end of
/// the partition, or whose listing is unknown, and for no other.
pub proof fn law_every_listed_perpetual_is_asked_for(
    perps: Seq<PerpMeta>,
    end_ms: u64,
    request: Option<Seq<char>>,
)
    ensures
        requests_of(perps, false, end_ms).contains(request) <==> exists|i: int|
            0 <= i < perps.len() && request == Some((#[trigger] perps[i]).symbol@) && (
            perps[i].onboard_ms matches Some(t) ==> t < end_ms),
    decreases perps.len(),
{
    reveal(Seq::filter);
    if perps.len() > 0 {
        let front = perps.drop_last();
        let last = perps.last();
        let n = perps.len() - 1;
        assert(perps[n] == last);
        assert(forall|i: int| 0 <= i < front.len() ==> #[trigger] front[i] == perps[i]);
        law_every_listed_perpetual_is_asked_for(front, end_ms, request);
        lemma_push_contains(requests_of(front, false, end_ms), Some(last.symbol@), request);
        if listed_before(last, end_ms) {
            assert(requests_of(perps, false, end_ms) =~= requests_of(front, false, end_ms).push(
                Some(last.symbol@),
            ));
        } else {
            assert(requests_of(perps, false, end_ms) =~= requests_of(front, false, end_ms));
        }
        if exists|i: int|
            0 <= i < perps.len() && request == Some((#[trigger] perps[i]).symbol@) && (
            perps[i].onboard_ms matches Some(t) ==> t < end_ms) {
            let i = choose|i: int|
                0 <= i < perps.len() && request == Some((#[trigger] perps[i]).symbol@) && (
                perps[i].onboard_ms matches Some(t) ==> t < end_ms);
            if i < n {
                assert(front[i] == perps[i]);
            }
        }
        if requests_of(front, false, end_ms).contains(request) {
            let i = choose|i: int|
                0 <= i < front.len() && request == Some((#[trigger] front[i]).symbol@) && (
                front[i].onboard_ms matches Some(t) ==> t < end_ms);
            assert(perps[i] == front[i]);
        }
    } else {
        assert(requests_of(perps, false, end_ms).len() == 0);
    }
}

/// The rows of a partition are those of its answers together: an answer adds its
/// rows, the last one leads to the writing of all of them, and only a partition
/// without any is left unwritten.
pub proof fn law_answers_add_up(
    s: Standing,
    parts: Seq<Partition>,
    requests: nat,
    done: usize,
    rows: usize,
    fetched: usize,
)
    requires
        s.stage == (Stage::Fetching { done, rows }),
        done < requests <= usize::MAX,
        rows + fetched <= usize::MAX,
        s.at < parts.len(),
    ensures
        ({
            let after = after_fetch(s, parts, requests, fetched);
            &&& done + 1 < requests ==> after.at == s.at && after.visits == s.visits && (
            after.stage matches Stage::Fetching { done: d, rows: n } && d == done + 1 && n == rows
                + fetched)
            &&& done + 1 == requests && rows + fetched > 0 ==> after.at == s.at && after.visits
                == s.visits && (after.stage matches Stage::Writing { rows: n } && n == rows
                + fetched)
            &&& done + 1 == requests && rows + fetched == 0 ==> after.at == s.at + 1
                && after.visits == s.visits.push(Visit { skipped: false, rows: 0 })
        }),
{
}

/// A partition that is done with leaves its visit behind those before it, and
/// the run enters the next or is over.
pub proof fn law_run_moves_on(s: Standing, count: nat, visit: Visit)
    requires
        s.at < count,
    ensures
        closed_with(s, count, visit).at == s.at + 1,
        closed_with(s, count, visit).visits == s.visits.push(visit),
        closed_with(s, count, visit).stage is Over <==> s.at + 1 == count,
        closed_with(s, count, visit).stage is Entering <==> s.at + 1 < count,
{
}

/// Only a closed partition whose file is there is skipped; where there is
/// nothing to ask for it is empty; else it is asked for from the first request.
pub proof fn law_marker_decides(
    s: Standing,
    parts: Seq<Partition>,
    requests: nat,
    exists_already: bool,
)
    requires
        s.at < parts.len(),
    ensures
        ({
            let after = after_probe(s, parts, requests, exists_already);
            let skips = parts[s.at as int].closed && exists_already;
            &&& skips ==> after.visits == s.visits.push(Visit { skipped: true, rows: 0 })
            &&& !skips && requests == 0 ==> after.visits == s.visits.push(
                Visit { skipped: false, rows: 0 },
            )
            &&& !skips && requests > 0 ==> after.at == s.at && after.visits == s.visits
                && after.stage == (Stage::Fetching { done: 0, rows: 0 })
        }),
{
}

/// What a run asks to be done: the file that is looked for is the one a closed
/// partition is published as; that one replaces the partial file; the open
/// partition is published as the partial file and replaces nothing.
pub proof fn law_run_asks_for_its_files(run: PartitionRun, r: Action)
    requires
        run.wf(),
        run.calls_for(r),
    ensures
        ({
            let p = run.parts@[run.at as int];
            &&& run.stage is Entering ==> (r matches Action::Probe { file } && file@ == p.name@
                + ".parquet"@)
            &&& run.stage is Writing && p.closed ==> (r matches Action::Publish {
                file,
                supersedes: Some(old_file),
            } && file@ == p.name@ + ".parquet"@ && old_file@ == p.name@ + ".partial.parquet"@)
            &&& run.stage is Writing && !p.closed ==> (r matches Action::Publish {
                file,
                supersedes: None,
            } && file@ == p.name@ + ".partial.parquet"@)
            &&& run.stage is Fetching ==> (r matches Action::Fetch { symbol, start_ms, end_ms }
                && start_ms == p.start_ms && end_ms == p.end_ms)
            &&& run.stage is Fetching && run.venue_wide ==> (r matches Action::Fetch {
                symbol: None,
                ..
            })
            &&& (r is Done <==> run.at == run.parts@.len())
        }),
{
    if run.stage is Fetching && run.venue_wide {
        assert(requests_of(run.perps@, true, run.parts@[run.at as int].end_ms) =~= seq![None]);
    }
}

} // verus!
