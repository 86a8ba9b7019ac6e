//! What the pollers are for: what their events tell back, and that they tell every
//! settlement once.
use super::funding::FundingMeta;
use super::laws::stems_from;
use super::messages::Envelope;
use super::pollers::{
    entry_at, entry_fits, health_after, horizon, index_told, info_stale,
    law_health_tells_the_history, leads_on, lookback, pace_of, pruned, realized, settlement,
    taken_in, tells_interest, total_events, trailing_failures, failures_counted,
    FundingRateEntry, Health, OpenInterestResp, PremiumIndexEntry, SeenView,
};
use super::polling::{failure, page_after, settlements_told, success, OpenInterestPoller};
use super::snapshots::{joins, tells_snapshot, DepthSnapshot, SnapshotRequest};
use crate::events::Event;
use crate::payloads::{ControlPayload, MarketPayload, Payload};
use crate::text::lowercase;
use crate::types::SourceId;
use vstd::prelude::*;

verus! {

// ---------------------------------------------------------------------------
// Premium index and open interest
// ---------------------------------------------------------------------------

/// A response makes two events of every row, and a third of every row with a
/// funding to come.
pub proof fn law_rows_make_two_or_three_events(entries: Seq<PremiumIndexEntry>)
    ensures
        total_events(entries) == 2 * entries.len() + entries.filter(
            |e: PremiumIndexEntry| e.next_funding_time != 0,
        ).len(),
    decreases entries.len(),
{
    reveal(Seq::filter);
    if entries.len() > 0 {
        law_rows_make_two_or_three_events(entries.drop_last());
    }
}

/// A row tells its mark, then its index, and then, where a funding is to come, the
/// rate to expect at that instant, with the interval and the clamps of the symbol.
/// They stand behind the events of the rows before.
pub proof fn law_index_row_reads_back(
    events: Seq<Event>,
    entries: Seq<PremiumIndexEntry>,
    env: Envelope,
    funding: Map<Seq<char>, FundingMeta>,
    i: int,
)
    requires
        index_told(events, entries, env, funding),
        0 <= i < entries.len(),
        entry_fits(entries[i]),
    ensures
        ({
            let x = entries[i];
            let before = entries.take(i);
            let at = 2 * before.len() as int + before.filter(
                |e: PremiumIndexEntry| e.next_funding_time != 0,
            ).len();
            let key = lowercase(x.symbol@);
            &&& at + 1 < events.len()
            &&& stems_from(events[at], env, x.symbol@, x.time)
            &&& stems_from(events[at + 1], env, x.symbol@, x.time)
            &&& events[at].payload matches Payload::Market(
                MarketPayload::MarkPrice { price },
            ) && price == x.mark_price
            &&& events[at + 1].payload matches Payload::Market(
                MarketPayload::IndexPrice { price },
            ) && price == x.index_price
            &&& x.next_funding_time != 0 ==> at + 2 < events.len() && stems_from(
                events[at + 2],
                env,
                x.symbol@,
                x.time,
            ) && (events[at + 2].payload matches Payload::Market(
                MarketPayload::FundingRatePrediction {
                    rate,
                    next_funding_time,
                    interval,
                    premium_index,
                    clamp_min,
                    clamp_max,
                },
            ) && rate == x.last_funding_rate && next_funding_time / 1_000_000
                == x.next_funding_time && next_funding_time % 1_000_000 == 0 && premium_index
                is None && (funding.dom().contains(key) ==> interval == Some(funding[key].interval)
                && clamp_min == funding[key].floor && clamp_max == funding[key].cap) && (
            !funding.dom().contains(key) ==> interval == Some((8 * 3_600 * 1_000_000_000) as u64)
                && clamp_min is None && clamp_max is None))
        }),
{
    law_rows_make_two_or_three_events(entries.take(i));
    assert(entry_at(events, total_events(entries.take(i)) as int, entries[i], env, funding));
}

/// A response has no event but those of its rows.
pub proof fn law_index_events_are_of_rows(
    events: Seq<Event>,
    entries: Seq<PremiumIndexEntry>,
    env: Envelope,
    funding: Map<Seq<char>, FundingMeta>,
)
    requires
        index_told(events, entries, env, funding),
    ensures
        events.len() == 2 * entries.len() + entries.filter(
            |e: PremiumIndexEntry| e.next_funding_time != 0,
        ).len(),
{
    law_rows_make_two_or_three_events(entries);
}

/// A row fits exactly where neither of its times is too late for nanoseconds.
pub proof fn law_late_rows_do_not_fit(e: PremiumIndexEntry)
    ensures
        entry_fits(e) <==> e.time <= 18_446_744_073_709 && e.next_funding_time
            <= 18_446_744_073_709,
{
}

/// Open interest tells the response back: the contracts, and no value in money.
pub proof fn law_interest_reads_back(e: Event, resp: OpenInterestResp, env: Envelope)
    requires
        tells_interest(e, resp, env),
        resp.time <= 18_446_744_073_709,
    ensures
        stems_from(e, env, resp.symbol@, resp.time),
        e.payload matches Payload::Market(
            MarketPayload::OpenInterest { open_interest, open_interest_value },
        ) && open_interest == resp.open_interest && open_interest_value is None,
{
}

/// The waits of a sweep fill its interval: as many as there are symbols take no
/// longer than the interval, and with a nanosecond more each they would.
pub proof fn law_sweep_fills_its_interval(every_ns: u64, symbols: usize)
    requires
        0 < symbols < 0x1_0000_0000,
    ensures
        pace_of(every_ns, symbols) * symbols <= every_ns,
        (pace_of(every_ns, symbols) + 1) * symbols > every_ns,
        pace_of(every_ns, 0) == every_ns,
{
    let p = pace_of(every_ns, symbols);
    let n = symbols as int;
    assert(p == every_ns as int / n);
    assert(p * n <= every_ns && (p + 1) * n > every_ns) by (nonlinear_arith)
        requires
            p == every_ns as int / n,
            n > 0,
    ;
}

/// Sweeps are an interval apart where they keep up; one that took longer is
/// followed at once, and the time it lost is not made up for.
pub proof fn law_sweeps_are_an_interval_apart(
    p: OpenInterestPoller,
    every_ns: u64,
    now_ns: u64,
    q: OpenInterestPoller,
    next: u64,
)
    requires
        p.sweep_start + every_ns <= u64::MAX,
        p.sweeps_on(every_ns, now_ns, q, next),
    ensures
        next - p.sweep_start == every_ns,
        q.sweep_start >= next && q.sweep_start >= now_ns,
        q.sweep_start == next || q.sweep_start == now_ns,
        q.health == p.health,
{
}

// ---------------------------------------------------------------------------
// Snapshots
// ---------------------------------------------------------------------------

/// A snapshot tells the response back: every level on its side and in its place,
/// the version of the book, and the venue's time to the millisecond.
pub proof fn law_snapshot_reads_back(
    e: Event,
    venue: Seq<char>,
    symbol: Seq<char>,
    resp: DepthSnapshot,
    now: u64,
)
    requires
        tells_snapshot(e, venue, symbol, resp, now),
        resp.transaction_time <= 18_446_744_073_709,
    ensures
        e.venue.value@ == venue,
        e.instrument is Some && e.instrument->0.value@ == symbol,
        e.local_ts == now,
        e.source == SourceId(0),
        e.venue_ts matches Some(t) && t / 1_000_000 == resp.transaction_time && t % 1_000_000 == 0,
        e.payload matches Payload::Market(MarketPayload::BookSnapshot { bids, asks, last_update_id })
            && {
            &&& bids@.len() == resp.bids@.len()
            &&& asks@.len() == resp.asks@.len()
            &&& forall|i: int| 0 <= i < resp.bids@.len() ==> bids@[i] == #[trigger] resp.bids@[i]
            &&& forall|i: int| 0 <= i < resp.asks@.len() ==> asks@[i] == #[trigger] resp.asks@[i]
            &&& last_update_id == resp.last_update_id
        },
{
}

/// A symbol that joins the queue stands last and once, those before it stay; one
/// that waits already, or may not join, leaves the queue as it was.
pub proof fn law_requests_coalesce(
    o: Seq<SnapshotRequest>,
    n: Seq<SnapshotRequest>,
    symbol: Seq<char>,
    retry: bool,
    may: bool,
)
    requires
        joins(o, n, symbol, retry, may),
    ensures
        forall|i: int|
            0 <= i < o.len() ==> i < n.len() && (#[trigger] o[i]).symbol@ == n[i].symbol@
                && o[i].retry == n[i].retry,
        n.len() == o.len() + (if may && (forall|i: int|
            0 <= i < o.len() ==> (#[trigger] o[i]).symbol@ != symbol) {
            1int
        } else {
            0
        }),
        n.len() > o.len() ==> n.last().symbol@ == symbol && n.last().retry == retry,
{
    let a = crate::binance::snapshots::waiting(o);
    let b = crate::binance::snapshots::waiting(n);
    assert(a.len() == o.len() && b.len() == n.len());
    assert forall|i: int| 0 <= i < o.len() implies i < n.len() && (#[trigger] o[i]).symbol@
        == n[i].symbol@ && o[i].retry == n[i].retry by {
        assert(a[i] == (o[i].symbol@, o[i].retry));
        assert(b[i] == (n[i].symbol@, n[i].retry));
        assert(a[i] == b[i]);
    }
    if n.len() > o.len() {
        assert(b[n.len() - 1] == (n.last().symbol@, n.last().retry));
        assert(b.last() == (symbol, retry));
    }
}

// ---------------------------------------------------------------------------
// Realized funding
// ---------------------------------------------------------------------------

/// The event of a settlement tells the row back: its rate, its instant to the
/// millisecond, and the interval listed for the symbol, or eight hours.
pub proof fn law_settlement_reads_back(
    e: Event,
    row: FundingRateEntry,
    env: Envelope,
    funding: Map<Seq<char>, FundingMeta>,
)
    requires
        realized(e, row, env, funding),
        row.funding_time <= 18_446_744_073_709,
    ensures
        stems_from(e, env, row.symbol@, row.funding_time),
        e.payload matches Payload::Market(
            MarketPayload::FundingRateRealized { rate, funding_time, interval },
        ) && rate == row.funding_rate && funding_time / 1_000_000 == row.funding_time
            && funding_time % 1_000_000 == 0 && interval == Some(
            if funding.dom().contains(lowercase(row.symbol@)) {
                funding[lowercase(row.symbol@)].interval
            } else {
                (8 * 3_600 * 1_000_000_000) as u64
            },
        ),
{
}

/// Two rows report the same settlement exactly where they name the same symbol,
/// whatever its case, and the same instant.
pub proof fn law_settlements_are_told_apart(a: FundingRateEntry, b: FundingRateEntry)
    ensures
        settlement(a) == settlement(b) <==> lowercase(a.symbol@) == lowercase(b.symbol@)
            && a.funding_time == b.funding_time,
{
}

/// The row at `i` is the first to report its settlement, which was not seen before.
pub open spec fn is_news(rows: Seq<FundingRateEntry>, s: SeenView, i: int) -> bool {
    let at = |r: FundingRateEntry| (r.funding_time, lowercase(r.symbol@));
    &&& !s.seen.contains(at(rows[i]))
    &&& forall|j: int| 0 <= j < i ==> at(#[trigger] rows[j]) != at(rows[i])
}

/// Every settlement that is news is told, once and in the order of the rows, and
/// nothing else is: there are as many events as news, and the one of a row stands
/// behind those of the news before it. What was seen, and what is news, is seen
/// afterwards, and nothing else; the latest instant is the latest of all of it.
pub proof fn law_news_is_told(rows: Seq<FundingRateEntry>, s: SeenView)
    ensures
        forall|i: int|
            0 <= i < rows.len() && #[trigger] is_news(rows, s, i) ==> {
                let at = taken_in(rows.take(i), s).0.len() as int;
                at < taken_in(rows, s).0.len() && taken_in(rows, s).0[at] == rows[i]
            },
        forall|i: int|
            0 <= i < rows.len() ==> taken_in(rows.take(i + 1), s).0.len() == taken_in(
                rows.take(i),
                s,
            ).0.len() + (if #[trigger] is_news(rows, s, i) {
                1int
            } else {
                0
            }),
        taken_in(rows.take(0), s).0.len() == 0,
        forall|k: (u64, Seq<char>)| #[trigger]
            taken_in(rows, s).1.seen.contains(k) <==> s.seen.contains(k) || exists|i: int|
                0 <= i < rows.len() && (#[trigger] rows[i]).funding_time == k.0 && lowercase(
                    rows[i].symbol@,
                ) == k.1,
        taken_in(rows, s).1.max_seen_ms >= s.max_seen_ms,
        forall|i: int|
            0 <= i < rows.len() && #[trigger] is_news(rows, s, i) ==> taken_in(
                rows,
                s,
            ).1.max_seen_ms >= rows[i].funding_time,
        taken_in(rows, s).1.max_seen_ms == s.max_seen_ms || exists|i: int|
            0 <= i < rows.len() && (#[trigger] rows[i]).funding_time == taken_in(
                rows,
                s,
            ).1.max_seen_ms,
    decreases rows.len(),
{
    assert(rows.take(0) =~= Seq::<FundingRateEntry>::empty());
    if rows.len() > 0 {
        let p = rows.drop_last();
        let n = rows.len() - 1;
        law_news_is_told(p, s);
        assert(forall|i: int| 0 <= i < n ==> p[i] == #[trigger] rows[i]);
        assert(rows[n] == rows.last());
        assert(rows.take(n) =~= p);
        assert(rows.take(n + 1) =~= rows);
        let key = (rows[n].funding_time, lowercase(rows[n].symbol@));
        assert forall|i: int| 0 <= i < n implies #[trigger] is_news(rows, s, i) == is_news(
            p,
            s,
            i,
        ) by {
            if is_news(p, s, i) {
                assert forall|j: int| 0 <= j < i implies ((#[trigger] rows[j]).funding_time,
                    lowercase(rows[j].symbol@),
                ) != (rows[i].funding_time, lowercase(rows[i].symbol@)) by {
                    assert(p[j] == rows[j]);
                }
            }
            if is_news(rows, s, i) {
                assert forall|j: int| 0 <= j < i implies ((#[trigger] p[j]).funding_time, lowercase(
                    p[j].symbol@,
                )) != (p[i].funding_time, lowercase(p[i].symbol@)) by {
                    assert(p[j] == rows[j]);
                }
            }
        }
        assert(is_news(rows, s, n) <==> !taken_in(p, s).1.seen.contains(key)) by {
            if taken_in(p, s).1.seen.contains(key) && !s.seen.contains(key) {
                let j = choose|j: int|
                    0 <= j < p.len() && (#[trigger] p[j]).funding_time == key.0 && lowercase(
                        p[j].symbol@,
                    ) == key.1;
                assert(rows[j] == p[j]);
            }
            if !is_news(rows, s, n) && !s.seen.contains(key) {
                let j = choose|j: int|
                    0 <= j < n && ((#[trigger] rows[j]).funding_time, lowercase(rows[j].symbol@))
                        == key;
                assert(p[j] == rows[j]);
            }
        }
        assert forall|i: int| 0 <= i < rows.len() && #[trigger] is_news(rows, s, i) implies ({
            let at = taken_in(rows.take(i), s).0.len() as int;
            at < taken_in(rows, s).0.len() && taken_in(rows, s).0[at] == rows[i]
        }) by {
            if i < n {
                assert(is_news(p, s, i));
                assert(p.take(i) =~= rows.take(i));
            }
        }
        assert forall|i: int| 0 <= i < rows.len() implies taken_in(rows.take(i + 1), s).0.len()
            == taken_in(rows.take(i), s).0.len() + (if #[trigger] is_news(rows, s, i) {
            1int
        } else {
            0
        }) by {
            if i < n {
                assert(is_news(p, s, i) == is_news(rows, s, i));
                assert(p.take(i) =~= rows.take(i));
                assert(p.take(i + 1) =~= rows.take(i + 1));
            }
        }
        assert forall|k: (u64, Seq<char>)| #[trigger]
            taken_in(rows, s).1.seen.contains(k) <==> s.seen.contains(k) || exists|i: int|
                0 <= i < rows.len() && (#[trigger] rows[i]).funding_time == k.0 && lowercase(
                    rows[i].symbol@,
                ) == k.1 by {
            assert(taken_in(p, s).1.seen.contains(k) <==> s.seen.contains(k) || exists|i: int|
                0 <= i < p.len() && (#[trigger] p[i]).funding_time == k.0 && lowercase(p[i].symbol@)
                    == k.1);
            if exists|i: int|
                0 <= i < p.len() && (#[trigger] p[i]).funding_time == k.0 && lowercase(p[i].symbol@)
                    == k.1 {
                let i = choose|i: int|
                    0 <= i < p.len() && (#[trigger] p[i]).funding_time == k.0 && lowercase(
                        p[i].symbol@,
                    ) == k.1;
                assert(rows[i].funding_time == k.0);
            }
            if k == key {
                assert(rows[n].funding_time == k.0);
            }
            if exists|i: int|
                0 <= i < rows.len() && (#[trigger] rows[i]).funding_time == k.0 && lowercase(
                    rows[i].symbol@,
                ) == k.1 {
                let i = choose|i: int|
                    0 <= i < rows.len() && (#[trigger] rows[i]).funding_time == k.0 && lowercase(
                        rows[i].symbol@,
                    ) == k.1;
                if i < n {
                    assert(p[i].funding_time == k.0);
                }
            }
        }
        assert forall|i: int| 0 <= i < rows.len() && #[trigger] is_news(rows, s, i) implies
            taken_in(rows, s).1.max_seen_ms >= rows[i].funding_time by {
            if i < n {
                assert(is_news(p, s, i));
            }
        }
        if taken_in(rows, s).1.max_seen_ms != s.max_seen_ms {
            if taken_in(rows, s).1.max_seen_ms == taken_in(p, s).1.max_seen_ms {
                let i = choose|i: int|
                    0 <= i < p.len() && (#[trigger] p[i]).funding_time == taken_in(
                        p,
                        s,
                    ).1.max_seen_ms;
                assert(rows[i].funding_time == taken_in(rows, s).1.max_seen_ms);
            } else {
                assert(rows[n].funding_time == taken_in(rows, s).1.max_seen_ms);
            }
        }
    }
}

/// The events of rows are those of their news, one for each.
pub proof fn law_events_are_of_news(
    events: Seq<Event>,
    rows: Seq<FundingRateEntry>,
    s: SeenView,
    env: Envelope,
    funding: Map<Seq<char>, FundingMeta>,
    i: int,
)
    requires
        settlements_told(events, rows, s, env, funding),
        0 <= i < rows.len(),
        is_news(rows, s, i),
    ensures
        events.len() == taken_in(rows, s).0.len(),
        ({
            let at = taken_in(rows.take(i), s).0.len() as int;
            at < events.len() && realized(events[at], rows[i], env, funding)
        }),
{
    law_news_is_told(rows, s);
}

/// Two hours are remembered: what lies further back than that from the latest
/// instant is forgotten, and nothing else. A cycle looks one hour back, and a
/// start two.
pub proof fn law_two_hours_are_remembered(s: SeenView, k: (u64, Seq<char>))
    ensures
        pruned(s).seen.contains(k) <==> s.seen.contains(k) && k.0 + 2 * 3_600_000 >= s.max_seen_ms,
        pruned(s).max_seen_ms == s.max_seen_ms,
        lookback(s.max_seen_ms) == (if s.max_seen_ms < 3_600_000 {
            0
        } else {
            s.max_seen_ms - 3_600_000
        }),
        horizon(s.max_seen_ms) == (if s.max_seen_ms < 7_200_000 {
            0
        } else {
            s.max_seen_ms - 7_200_000
        }),
{
}

/// A page leads on exactly where it has a thousand rows and its last instant lies
/// behind its start; and then to that instant.
pub proof fn law_full_pages_lead_on(
    rows: Seq<FundingRateEntry>,
    start_ms: u64,
    page_len: usize,
    last: Option<u64>,
    r: Option<u64>,
)
    ensures
        page_after(rows, start_ms) is Some <==> rows.len() >= 1000 && rows.last().funding_time
            > start_ms,
        page_after(rows, start_ms) is Some ==> page_after(rows, start_ms)->0
            == rows.last().funding_time,
        leads_on(page_len, last, start_ms, r) ==> (r is Some <==> page_len >= 1000 && last is Some
            && last->0 > start_ms) && (r is Some ==> r == last),
{
}

/// Funding metadata is fetched again after a day.
pub proof fn law_metadata_lasts_a_day(age_ns: u64)
    ensures
        info_stale(age_ns) <==> age_ns >= 24 * 3_600 * 1_000_000_000,
{
}

// ---------------------------------------------------------------------------
// Health
// ---------------------------------------------------------------------------

/// A poller is known to be down exactly while its last three polls, or more, have
/// failed, and up exactly while it is not and some poll has succeeded.
pub proof fn law_three_failures_make_an_outage(history: Seq<bool>)
    requires
        failures_counted(history),
    ensures
        health_after(history).announced == Some(false) <==> history.len() >= 3
            && !history[history.len() - 1] && !history[history.len() - 2]
            && !history[history.len() - 3],
        health_after(history).announced == Some(true) <==> !(history.len() >= 3
            && !history[history.len() - 1] && !history[history.len() - 2]
            && !history[history.len() - 3]) && exists|i: int|
            0 <= i < history.len() && #[trigger] history[i],
{
    law_health_tells_the_history(history);
    let p = history.drop_last();
    let q = p.drop_last();
    let r = q.drop_last();
    if history.len() >= 1 && !history.last() {
        assert(trailing_failures(history) == trailing_failures(p) + 1);
        if p.len() >= 1 && !p.last() {
            assert(trailing_failures(p) == trailing_failures(q) + 1);
            if q.len() >= 1 && !q.last() {
                assert(trailing_failures(q) == trailing_failures(r) + 1);
            }
        }
    }
    if history.contains(true) {
        let i = history.index_of(true);
        assert(history[i]);
    }
    if exists|i: int| 0 <= i < history.len() && #[trigger] history[i] {
        let i = choose|i: int| 0 <= i < history.len() && #[trigger] history[i];
        assert(history[i] == true);
        assert(history.contains(true));
    }
}

/// A poll is announced exactly where it changes what is known: a success of a
/// poller that was not known to be up, as a connection up; the third failure in a
/// row of one that was not known to be down, as a connection down with the reason.
/// Both under the poller's name.
pub proof fn law_changes_of_health_are_told(
    o: Health,
    n: Health,
    label: Seq<char>,
    reason: Seq<char>,
    control: Option<ControlPayload>,
)
    ensures
        success(o, n, label, control) ==> n.fails == 0 && n.announced == Some(true) && (control
            is Some <==> o.announced != Some(true)) && (control matches Some(c) ==> (
        c matches ControlPayload::ConnUp { label: l } && l@ == label)),
        failure(o, n, label, reason, control) && o.fails < u32::MAX ==> n.fails == o.fails + 1 && (
        control is Some <==> o.fails == 2 && o.announced != Some(false)) && (
        control matches Some(c) ==> (c matches ControlPayload::ConnDown { label: l, reason: w }
            && l@ == label && w@ == reason)) && n.announced == (if o.fails == 2 {
            Some(false)
        } else {
            o.announced
        }),
{
}

} // verus!
