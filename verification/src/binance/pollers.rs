//! REST pollers: premium index, open interest, realized funding. All their
//! observations carry the REST source; the control timeline tells them apart by
//! label.
use super::funding::{funding_for, meta_for, FundingMap, FundingMeta};
use super::messages::{about, in_nanos, prediction, symbol_event, Envelope};
use super::session::{conn_down, conn_up};
use crate::decimal::Decimal;
use crate::events::Event;
use crate::payloads::{ControlPayload, MarketPayload, Payload};
use crate::text::{contains_text, dec, has_text, lowercase, push_u64, to_lower, to_upper, uppercase};
use crate::timed::TimedMap;
use crate::types::{ms_to_nanos, Nanos, SourceId, VenueId};
use vstd::prelude::*;
use vstd::string::*;

verus! {

/// Cadences in seconds.
#[derive(Debug, Clone, Copy, PartialEq, Eq, Structural)]
pub struct PollerCfg {
    pub premium_index: u64,
    pub open_interest: u64,
    pub funding_realized: u64,
}

impl Default for PollerCfg {
    fn default() -> (r: PollerCfg)
        ensures
            r == (PollerCfg { premium_index: 30, open_interest: 300, funding_realized: 300 }),
    {
        PollerCfg { premium_index: 30, open_interest: 300, funding_realized: 300 }
    }
}

/// Failed polls in a row that make an outage: one blip is routine.
pub const FAIL_THRESHOLD: u32 = 3;

/// How far back every cycle looks for late rows.
pub const FUNDING_LOOKBACK_MS: u64 = 3_600_000;

/// How far back a restart looks; what is older is forgotten.
pub const FUNDING_CATCHUP_MS: u64 = 7_200_000;

pub const FUNDING_PAGE_LIMIT: usize = 1000;

/// How old funding metadata may get.
pub const FUNDING_INFO_REFRESH_NS: u64 = 86_400_000_000_000;

// ---------------------------------------------------------------------------
// Health
// ---------------------------------------------------------------------------

/// What was last announced of a poller, and how often it has failed in a row
/// since. The first success announces that it is up, the third failure in a row
/// that it is down, a recovery that it is up again.
#[derive(Debug, Clone, Copy, PartialEq, Eq, Structural)]
pub struct Health {
    pub announced: Option<bool>,
    pub fails: u32,
}

impl Health {
    /// The state after one more poll.
    pub open spec fn after(self, succeeded: bool) -> Health {
        if succeeded {
            Health { announced: Some(true), fails: 0 }
        } else {
            Health {
                announced: if self.fails + 1 == FAIL_THRESHOLD {
                    Some(false)
                } else {
                    self.announced
                },
                fails: (self.fails + 1) as u32,
            }
        }
    }

    pub fn new() -> (r: Health)
        ensures
            r == (Health { announced: None, fails: 0 }),
    {
        Health { announced: None, fails: 0 }
    }

    /// A poll succeeded; whether that is to be announced.
    pub fn ok(&mut self) -> (r: bool)
        ensures
            *final(self) == old(self).after(true),
            r == (old(self).announced != Some(true)),
    {
        self.fails = 0;
        let news: bool = match self.announced {
            Some(true) => false,
            _ => true,
        };
        self.announced = Some(true);
        news
    }

    /// A poll failed; whether that is to be announced.
    pub fn fail(&mut self) -> (r: bool)
        requires
            old(self).fails < u32::MAX,
        ensures
            r == (old(self).fails + 1 == FAIL_THRESHOLD && old(self).announced != Some(false)),
            *final(self) == old(self).after(false),
    {
        self.fails = self.fails + 1;
        let down: bool = match self.announced {
            Some(false) => true,
            _ => false,
        };
        if self.fails == FAIL_THRESHOLD && !down {
            self.announced = Some(false);
            true
        } else {
            false
        }
    }
}

/// A poller's history: which polls succeeded.
pub open spec fn health_after(history: Seq<bool>) -> Health
    decreases history.len(),
{
    if history.len() == 0 {
        Health { announced: None, fails: 0 }
    } else {
        health_after(history.drop_last()).after(history.last())
    }
}

/// How many polls failed since the last success.
pub open spec fn trailing_failures(history: Seq<bool>) -> nat
    decreases history.len(),
{
    if history.len() == 0 || history.last() {
        0
    } else {
        trailing_failures(history.drop_last()) + 1
    }
}

/// At no time have more polls failed in a row than a counter holds.
pub open spec fn failures_counted(history: Seq<bool>) -> bool {
    forall|n: int|
        0 <= n <= history.len() ==> trailing_failures(#[trigger] history.take(n)) <= u32::MAX
}

/// What stands announced is what the history says: down exactly when three or
/// more polls have failed in a row, up exactly when a success came since, nothing
/// before the first of either.
pub proof fn law_health_tells_the_history(history: Seq<bool>)
    requires
        failures_counted(history),
    ensures
        health_after(history).fails == trailing_failures(history),
        trailing_failures(history) <= history.len(),
        health_after(history).announced == Some(false) <==> trailing_failures(history)
            >= FAIL_THRESHOLD,
        health_after(history).announced == Some(true) <==> trailing_failures(history)
            < FAIL_THRESHOLD && history.contains(true),
    decreases history.len(),
{
    if history.len() > 0 {
        let d = history.drop_last();
        assert forall|n: int| 0 <= n <= d.len() implies trailing_failures(#[trigger] d.take(n))
            <= u32::MAX by {
            assert(d.take(n) =~= history.take(n));
        }
        law_health_tells_the_history(d);
        assert(history.take(history.len() as int) =~= history);
        if history.last() {
            assert(history[history.len() - 1]);
        }
        if d.contains(true) {
            let i = d.index_of(true);
            assert(history[i]);
        }
        if history.contains(true) && !history.last() {
            let i = history.index_of(true);
            assert(d[i]);
        }
        if !d.contains(true) && !history.last() {
            lemma_all_failed(d);
        }
    }
}

proof fn lemma_all_failed(history: Seq<bool>)
    requires
        !history.contains(true),
    ensures
        trailing_failures(history) == history.len(),
    decreases history.len(),
{
    if history.len() > 0 {
        let d = history.drop_last();
        assert(!d.contains(true)) by {
            if d.contains(true) {
                let i = d.index_of(true);
                assert(history[i]);
            }
        }
        lemma_all_failed(d);
        assert(!history.last()) by {
            if history.last() {
                assert(history[history.len() - 1]);
            }
        }
    }
}

/// The control event of a success, if it is news.
pub fn report_ok(health: &mut Health, label: &str) -> (r: Option<ControlPayload>)
    ensures
        *final(health) == old(health).after(true),
        if old(health).announced != Some(true) {
            r matches Some(c) && conn_up(c, label@)
        } else {
            r is None
        },
{
    if health.ok() {
        Some(ControlPayload::ConnUp { label: label.to_owned() })
    } else {
        None
    }
}

/// The control event of a failure, if it is news.
pub fn report_fail(health: &mut Health, label: &str, reason: &str) -> (r: Option<ControlPayload>)
    requires
        old(health).fails < u32::MAX,
    ensures
        *final(health) == old(health).after(false),
        if old(health).fails + 1 == FAIL_THRESHOLD && old(health).announced != Some(false) {
            r matches Some(c) && conn_down(c, label@, reason@)
        } else {
            r is None
        },
{
    if health.fail() {
        Some(ControlPayload::ConnDown { label: label.to_owned(), reason: reason.to_owned() })
    } else {
        None
    }
}

/// Funding metadata of the age is too old.
pub open spec fn info_stale(age_ns: u64) -> bool {
    age_ns >= FUNDING_INFO_REFRESH_NS
}

/// Whether funding metadata of the age is to be fetched again.
pub fn funding_info_stale(age_ns: u64) -> (r: bool)
    ensures
        r == (age_ns >= FUNDING_INFO_REFRESH_NS),
        r == info_stale(age_ns),
{
    age_ns >= FUNDING_INFO_REFRESH_NS
}

// ---------------------------------------------------------------------------
// Premium index
// ---------------------------------------------------------------------------

/// One row of the premium index; times in milliseconds.
#[derive(Debug)]
pub struct PremiumIndexEntry {
    pub symbol: String,
    pub mark_price: Decimal,
    pub index_price: Decimal,
    pub last_funding_rate: Decimal,
    /// Zero for symbols without an upcoming funding.
    pub next_funding_time: u64,
    /// The endpoint's event time; it has no transaction time.
    pub time: u64,
}

pub open spec fn entry_fits(e: PremiumIndexEntry) -> bool {
    in_nanos(e.time) && in_nanos(e.next_funding_time)
}

/// How many events a row makes.
pub open spec fn entry_events(e: PremiumIndexEntry) -> nat {
    if e.next_funding_time > 0 {
        3
    } else {
        2
    }
}

/// How many events rows make.
pub open spec fn total_events(entries: Seq<PremiumIndexEntry>) -> nat
    decreases entries.len(),
{
    if entries.len() == 0 {
        0
    } else {
        total_events(entries.drop_last()) + entry_events(entries.last())
    }
}

/// The events from `at` on are those of the row: mark, index, and the funding
/// prediction where a funding is coming.
pub open spec fn entry_at(
    events: Seq<Event>,
    at: int,
    e: PremiumIndexEntry,
    env: Envelope,
    funding: Map<Seq<char>, FundingMeta>,
) -> bool {
    &&& at + entry_events(e) <= events.len()
    &&& about(events[at], env, e.symbol@, e.time)
    &&& events[at].payload == Payload::Market(MarketPayload::MarkPrice { price: e.mark_price })
    &&& about(events[at + 1], env, e.symbol@, e.time)
    &&& events[at + 1].payload == Payload::Market(
        MarketPayload::IndexPrice { price: e.index_price },
    )
    &&& e.next_funding_time > 0 ==> about(events[at + 2], env, e.symbol@, e.time)
        && events[at + 2].payload == prediction(
        e.last_funding_rate,
        e.next_funding_time,
        meta_for(funding, lowercase(e.symbol@)),
    )
}

/// The events of a response, row after row.
pub open spec fn index_told(
    events: Seq<Event>,
    entries: Seq<PremiumIndexEntry>,
    env: Envelope,
    funding: Map<Seq<char>, FundingMeta>,
) -> bool {
    &&& events.len() == total_events(entries)
    &&& forall|i: int|
        0 <= i < entries.len() ==> entry_at(
            events,
            total_events(entries.take(i)) as int,
            #[trigger] entries[i],
            env,
            funding,
        )
}

proof fn lemma_entry_stays(
    o: Seq<Event>,
    n: Seq<Event>,
    at: int,
    e: PremiumIndexEntry,
    env: Envelope,
    funding: Map<Seq<char>, FundingMeta>,
)
    requires
        0 <= at,
        o.is_prefix_of(n),
        entry_at(o, at, e, env, funding),
    ensures
        entry_at(n, at, e, env, funding),
{
    assert(n[at] == o[at] && n[at + 1] == o[at + 1]);
    if e.next_funding_time > 0 {
        assert(n[at + 2] == o[at + 2]);
    }
}

/// The events of one more row come after those told before.
proof fn lemma_told_next(
    o: Seq<Event>,
    n: Seq<Event>,
    entries: Seq<PremiumIndexEntry>,
    env: Envelope,
    funding: Map<Seq<char>, FundingMeta>,
)
    requires
        entries.len() > 0,
        index_told(o, entries.drop_last(), env, funding),
        o.is_prefix_of(n),
        n.len() == o.len() + entry_events(entries.last()),
        entry_at(n, o.len() as int, entries.last(), env, funding),
    ensures
        index_told(n, entries, env, funding),
{
    let d = entries.drop_last();
    assert forall|i: int| 0 <= i < entries.len() implies entry_at(
        n,
        total_events(entries.take(i)) as int,
        #[trigger] entries[i],
        env,
        funding,
    ) by {
        if i < d.len() {
            assert(d[i] == entries[i]);
            assert(d.take(i) =~= entries.take(i));
            lemma_entry_stays(o, n, total_events(d.take(i)) as int, d[i], env, funding);
        } else {
            assert(entries.take(i) =~= d);
        }
    }
}

/// Append the events of a row.
fn push_entry(
    e: &PremiumIndexEntry,
    venue: &VenueId,
    funding: &FundingMap,
    local_ts: Nanos,
    out: &mut Vec<Event>,
)
    requires
        funding.wf(),
        entry_fits(*e),
    ensures
        old(out)@.is_prefix_of(final(out)@),
        final(out)@.len() == old(out)@.len() + entry_events(*e),
        entry_at(
            final(out)@,
            old(out)@.len() as int,
            *e,
            (Envelope { venue: venue.value@, source: SourceId(0), now: local_ts }),
            funding.as_map(),
        ),
{
    let source: SourceId = SourceId::rest();
    out.push(
        symbol_event(
            venue,
            e.symbol.as_str(),
            e.time,
            local_ts,
            source,
            Payload::Market(MarketPayload::MarkPrice { price: e.mark_price }),
        ),
    );
    out.push(
        symbol_event(
            venue,
            e.symbol.as_str(),
            e.time,
            local_ts,
            source,
            Payload::Market(MarketPayload::IndexPrice { price: e.index_price }),
        ),
    );
    if e.next_funding_time > 0 {
        let meta: FundingMeta = funding_for(funding, to_lower(e.symbol.as_str()).as_str());
        out.push(
            symbol_event(
                venue,
                e.symbol.as_str(),
                e.time,
                local_ts,
                source,
                Payload::Market(
                    MarketPayload::FundingRatePrediction {
                        rate: e.last_funding_rate,
                        next_funding_time: ms_to_nanos(e.next_funding_time),
                        interval: Some(meta.interval),
                        premium_index: None,
                        clamp_min: meta.floor,
                        clamp_max: meta.cap,
                    },
                ),
            ),
        );
    }
}

/// The events of a response, row after row.
pub fn premium_index_events(
    entries: &Vec<PremiumIndexEntry>,
    venue: &VenueId,
    funding: &FundingMap,
    local_ts: Nanos,
) -> (r: Vec<Event>)
    requires
        funding.wf(),
        forall|i: int| 0 <= i < entries@.len() ==> entry_fits(#[trigger] entries@[i]),
    ensures
        index_told(
            r@,
            entries@,
            (Envelope { venue: venue.value@, source: SourceId(0), now: local_ts }),
            funding.as_map(),
        ),
{
    let ghost env = Envelope { venue: venue.value@, source: SourceId(0), now: local_ts };
    let n: usize = entries.len();
    let mut out: Vec<Event> = Vec::new();
    let mut i: usize = 0;
    while i < n
        invariant
            i <= n,
            n == entries@.len(),
            env == (Envelope { venue: venue.value@, source: SourceId(0), now: local_ts }),
            funding.wf(),
            forall|j: int| 0 <= j < entries@.len() ==> entry_fits(#[trigger] entries@[j]),
            index_told(out@, entries@.take(i as int), env, funding.as_map()),
        decreases n - i,
    {
        let ghost o = out@;
        push_entry(&entries[i], venue, funding, local_ts, &mut out);
        proof {
            let t = entries@.take(i + 1);
            assert(t.drop_last() =~= entries@.take(i as int));
            assert(t.last() == entries@[i as int]);
            lemma_told_next(o, out@, t, env, funding.as_map());
        }
        i = i + 1;
    }
    assert(entries@.take(n as int) =~= entries@);
    out
}

// ---------------------------------------------------------------------------
// Open interest
// ---------------------------------------------------------------------------

/// A symbol's open interest; the endpoint carries no notional value.
#[derive(Debug)]
pub struct OpenInterestResp {
    pub symbol: String,
    pub open_interest: Decimal,
    /// Milliseconds.
    pub time: u64,
}

/// The event tells the open interest.
pub open spec fn tells_interest(e: Event, resp: OpenInterestResp, env: Envelope) -> bool {
    &&& about(e, env, resp.symbol@, resp.time)
    &&& e.payload == Payload::Market(
        MarketPayload::OpenInterest {
            open_interest: resp.open_interest,
            open_interest_value: None,
        },
    )
}

pub fn open_interest_event(resp: &OpenInterestResp, venue: &VenueId, local_ts: Nanos) -> (r: Event)
    requires
        in_nanos(resp.time),
    ensures
        about(
            r,
            (Envelope { venue: venue.value@, source: SourceId(0), now: local_ts }),
            resp.symbol@,
            resp.time,
        ),
        r.payload == Payload::Market(
            MarketPayload::OpenInterest {
                open_interest: resp.open_interest,
                open_interest_value: None,
            },
        ),
        tells_interest(
            r,
            *resp,
            (Envelope { venue: venue.value@, source: SourceId(0), now: local_ts }),
        ),
{
    symbol_event(
        venue,
        resp.symbol.as_str(),
        resp.time,
        local_ts,
        SourceId::rest(),
        Payload::Market(
            MarketPayload::OpenInterest {
                open_interest: resp.open_interest,
                open_interest_value: None,
            },
        ),
    )
}

/// The request for a symbol's open interest.
pub fn open_interest_url(symbol: &str) -> (r: String)
    ensures
        r@ == "https://fapi.binance.com/fapi/v1/openInterest?symbol="@ + uppercase(symbol@),
{
    "https://fapi.binance.com/fapi/v1/openInterest?symbol=".to_owned().concat(
        to_upper(symbol).as_str(),
    )
}

/// Whether a failed request counts against the poller: symbols settle and delist
/// within a sweep, and the venue then refuses them.
pub fn counts_as_failure(error: &str) -> (r: bool)
    ensures
        r == !has_text(error@, "400"@),
{
    !contains_text(error, "400")
}

/// The wait between the symbols of a sweep: it spreads over the whole interval,
/// so that the load is flat.
pub open spec fn pace_of(every_ns: u64, symbols: usize) -> int {
    let n = (if symbols == 0 {
        1int
    } else {
        symbols as int
    }) % 0x1_0000_0000;
    if n == 0 {
        every_ns as int
    } else {
        every_ns as int / n
    }
}

pub fn pace(every_ns: u64, symbols: usize) -> (r: u64)
    ensures
        r == pace_of(every_ns, symbols),
{
    let count: u64 = if symbols == 0 {
        1
    } else {
        symbols as u64
    };
    let n: u64 = count % 0x1_0000_0000;
    if n == 0 {
        every_ns
    } else {
        every_ns / n
    }
}

// ---------------------------------------------------------------------------
// Realized funding
// ---------------------------------------------------------------------------

/// One settlement as the venue reports it; the time is in milliseconds.
#[derive(Debug)]
pub struct FundingRateEntry {
    pub symbol: String,
    pub funding_time: u64,
    pub funding_rate: Decimal,
}

/// The settlement a row reports.
pub open spec fn settlement(e: FundingRateEntry) -> (u64, Seq<char>) {
    (e.funding_time, lowercase(e.symbol@))
}

/// Which settlements were seen, over overlapping windows. What lies behind the
/// catch-up horizon is forgotten, so that memory stays bounded.
pub struct FundingSeen {
    pub seen: TimedMap<()>,
    pub max_seen_ms: u64,
}

/// Settlements seen, as a mathematical value.
pub struct SeenView {
    pub seen: Set<(u64, Seq<char>)>,
    pub max_seen_ms: u64,
}

/// The rows that are new, in order, and what is seen after them.
pub open spec fn taken_in(rows: Seq<FundingRateEntry>, s: SeenView) -> (
    Seq<FundingRateEntry>,
    SeenView,
)
    decreases rows.len(),
{
    if rows.len() == 0 {
        (Seq::empty(), s)
    } else {
        let (fresh, t) = taken_in(rows.drop_last(), s);
        let row = rows.last();
        if t.seen.contains(settlement(row)) {
            (fresh, t)
        } else {
            (
                fresh.push(row),
                SeenView {
                    seen: t.seen.insert(settlement(row)),
                    max_seen_ms: if t.max_seen_ms >= row.funding_time {
                        t.max_seen_ms
                    } else {
                        row.funding_time
                    },
                },
            )
        }
    }
}

/// What lies behind the horizon is forgotten.
pub open spec fn horizon(max_seen_ms: u64) -> int {
    if max_seen_ms >= FUNDING_CATCHUP_MS {
        max_seen_ms - FUNDING_CATCHUP_MS
    } else {
        0
    }
}

/// Where a cycle begins to look: a while before the last settlement seen.
pub open spec fn lookback(max_seen_ms: u64) -> int {
    if max_seen_ms >= FUNDING_LOOKBACK_MS {
        max_seen_ms - FUNDING_LOOKBACK_MS
    } else {
        0
    }
}

pub open spec fn pruned(s: SeenView) -> SeenView {
    SeenView {
        seen: s.seen.filter(|k: (u64, Seq<char>)| k.0 >= horizon(s.max_seen_ms)),
        max_seen_ms: s.max_seen_ms,
    }
}

/// The event of a settlement.
pub open spec fn realized(
    e: Event,
    row: FundingRateEntry,
    env: Envelope,
    funding: Map<Seq<char>, FundingMeta>,
) -> bool {
    &&& about(e, env, row.symbol@, row.funding_time)
    &&& e.payload == Payload::Market(
        MarketPayload::FundingRateRealized {
            rate: row.funding_rate,
            funding_time: (row.funding_time * 1_000_000) as u64,
            interval: Some(meta_for(funding, lowercase(row.symbol@)).interval),
        },
    )
}

impl FundingSeen {
    pub open spec fn wf(self) -> bool {
        self.seen.wf()
    }

    pub open spec fn as_seen(self) -> SeenView {
        SeenView { seen: self.seen.as_map().dom(), max_seen_ms: self.max_seen_ms }
    }

    pub fn new(start_ms: u64) -> (r: FundingSeen)
        ensures
            r.wf(),
            r.as_seen() == (SeenView { seen: Set::empty(), max_seen_ms: start_ms }),
    {
        let r: FundingSeen = FundingSeen { seen: TimedMap::new(), max_seen_ms: start_ms };
        assert(r.as_seen().seen =~= Set::<(u64, Seq<char>)>::empty());
        r
    }

    /// A poller that starts at `now_ms` catches up from a while before.
    pub fn catching_up(now_ms: u64) -> (r: FundingSeen)
        ensures
            r.wf(),
            r.as_seen() == (SeenView { seen: Set::empty(), max_seen_ms: horizon(now_ms) as u64 }),
    {
        FundingSeen::new(
            if now_ms >= FUNDING_CATCHUP_MS {
                now_ms - FUNDING_CATCHUP_MS
            } else {
                0
            },
        )
    }

    fn prune(&mut self)
        requires
            old(self).wf(),
        ensures
            final(self).wf(),
            final(self).as_seen() == pruned(old(self).as_seen()),
    {
        let horizon_ms: u64 = if self.max_seen_ms >= FUNDING_CATCHUP_MS {
            self.max_seen_ms - FUNDING_CATCHUP_MS
        } else {
            0
        };
        self.seen.drop_before(horizon_ms);
        assert(self.as_seen().seen =~= pruned(old(self).as_seen()).seen);
    }

    /// Where a cycle begins to look.
    pub fn cycle_start(&self) -> (r: u64)
        ensures
            r == lookback(self.max_seen_ms),
    {
        if self.max_seen_ms >= FUNDING_LOOKBACK_MS {
            self.max_seen_ms - FUNDING_LOOKBACK_MS
        } else {
            0
        }
    }
}

/// The events of the rows that are new.
pub fn funding_realized_events(
    rows: &Vec<FundingRateEntry>,
    state: &mut FundingSeen,
    venue: &VenueId,
    funding: &FundingMap,
    local_ts: Nanos,
) -> (r: Vec<Event>)
    requires
        old(state).wf(),
        funding.wf(),
        forall|i: int| 0 <= i < rows@.len() ==> in_nanos((#[trigger] rows@[i]).funding_time),
    ensures
        final(state).wf(),
        final(state).as_seen() == pruned(taken_in(rows@, old(state).as_seen()).1),
        r@.len() == taken_in(rows@, old(state).as_seen()).0.len(),
        forall|i: int|
            0 <= i < r@.len() ==> realized(
                #[trigger] r@[i],
                taken_in(rows@, old(state).as_seen()).0[i],
                (Envelope { venue: venue.value@, source: SourceId(0), now: local_ts }),
                funding.as_map(),
            ),
{
    let ghost env = Envelope { venue: venue.value@, source: SourceId(0), now: local_ts };
    let ghost s0 = state.as_seen();
    let mut out: Vec<Event> = Vec::new();
    let mut i: usize = 0;
    while i < rows.len()
        invariant
            i <= rows@.len(),
            env == (Envelope { venue: venue.value@, source: SourceId(0), now: local_ts }),
            state.wf(),
            funding.wf(),
            forall|j: int| 0 <= j < rows@.len() ==> in_nanos((#[trigger] rows@[j]).funding_time),
            state.as_seen() == taken_in(rows@.take(i as int), s0).1,
            out@.len() == taken_in(rows@.take(i as int), s0).0.len(),
            forall|j: int|
                0 <= j < out@.len() ==> realized(
                    #[trigger] out@[j],
                    taken_in(rows@.take(i as int), s0).0[j],
                    env,
                    funding.as_map(),
                ),
        decreases rows@.len() - i,
    {
        proof {
            let t = rows@.take(i + 1);
            assert(t.drop_last() =~= rows@.take(i as int));
            assert(t.last() == rows@[i as int]);
        }
        let row: &FundingRateEntry = &rows[i];
        let ghost before = state.as_seen();
        let symbol: String = to_lower(row.symbol.as_str());
        if !state.seen.contains(row.funding_time, symbol.as_str()) {
            let interval: Nanos = funding_for(funding, symbol.as_str()).interval;
            state.seen.put(row.funding_time, symbol, ());
            if state.max_seen_ms < row.funding_time {
                state.max_seen_ms = row.funding_time;
            }
            out.push(
                symbol_event(
                    venue,
                    row.symbol.as_str(),
                    row.funding_time,
                    local_ts,
                    SourceId::rest(),
                    Payload::Market(
                        MarketPayload::FundingRateRealized {
                            rate: row.funding_rate,
                            funding_time: ms_to_nanos(row.funding_time),
                            interval: Some(interval),
                        },
                    ),
                ),
            );
            assert(state.as_seen().seen =~= before.seen.insert(settlement(*row)));
        }
        i = i + 1;
    }
    assert(rows@.take(rows@.len() as int) =~= rows@);
    state.prune();
    out
}

/// No settlement is told twice while it is remembered: a row makes an event only
/// if it was not seen, and afterwards it is.
pub proof fn law_settlements_are_told_once(rows: Seq<FundingRateEntry>, s: SeenView)
    ensures
        s.seen.subset_of(taken_in(rows, s).1.seen),
        s.max_seen_ms <= taken_in(rows, s).1.max_seen_ms,
        forall|i: int|
            0 <= i < rows.len() ==> taken_in(rows, s).1.seen.contains(
                settlement(#[trigger] rows[i]),
            ),
        forall|i: int|
            0 <= i < taken_in(rows, s).0.len() ==> !s.seen.contains(
                settlement(#[trigger] taken_in(rows, s).0[i]),
            ) && taken_in(rows, s).1.seen.contains(settlement(taken_in(rows, s).0[i])),
        forall|i: int, j: int|
            0 <= i < j < taken_in(rows, s).0.len() ==> settlement(
                #[trigger] taken_in(rows, s).0[i],
            ) != settlement(#[trigger] taken_in(rows, s).0[j]),
    decreases rows.len(),
{
    if rows.len() > 0 {
        let d = rows.drop_last();
        law_settlements_are_told_once(d, s);
        let (f, t) = taken_in(d, s);
        let (n, u) = taken_in(rows, s);
        assert forall|i: int| 0 <= i < rows.len() implies u.seen.contains(
            settlement(#[trigger] rows[i]),
        ) by {
            if i < d.len() {
                assert(d[i] == rows[i]);
            }
        }
        assert forall|i: int| 0 <= i < n.len() implies !s.seen.contains(
            settlement(#[trigger] n[i]),
        ) && u.seen.contains(settlement(n[i])) by {
            if i < f.len() {
                assert(n[i] == f[i]);
            }
        }
        assert forall|i: int, j: int| 0 <= i < j < n.len() implies settlement(#[trigger] n[i])
            != settlement(#[trigger] n[j]) by {
            assert(n[i] == f[i]);
            if j < f.len() {
                assert(n[j] == f[j]);
            }
        }
    }
}

/// Fetching a window again tells nothing new of what lies within the horizon.
pub proof fn law_overlap_is_silent(rows: Seq<FundingRateEntry>, s: SeenView)
    requires
        forall|i: int|
            0 <= i < rows.len() ==> s.seen.contains(settlement(#[trigger] rows[i])),
    ensures
        taken_in(rows, s) == (Seq::<FundingRateEntry>::empty(), s),
    decreases rows.len(),
{
    if rows.len() > 0 {
        let d = rows.drop_last();
        assert forall|i: int| 0 <= i < d.len() implies s.seen.contains(
            settlement(#[trigger] d[i]),
        ) by {
            assert(d[i] == rows[i]);
        }
        law_overlap_is_silent(d, s);
        assert(s.seen.contains(settlement(rows[rows.len() - 1])));
    }
}

/// The request for one page of a cycle.
pub fn funding_page_url(start_ms: u64) -> (r: String)
    ensures
        r@ == "https://fapi.binance.com/fapi/v1/fundingRate?startTime="@ + dec(start_ms as nat)
            + "&limit=1000"@,
{
    let mut s: String = "https://fapi.binance.com/fapi/v1/fundingRate?startTime=".to_owned();
    push_u64(&mut s, start_ms);
    s.append("&limit=1000");
    s
}

/// Where a page leads on to.
pub open spec fn leads_on(
    page_len: usize,
    page_last_ms: Option<u64>,
    start_ms: u64,
    r: Option<u64>,
) -> bool {
    r == (match page_last_ms {
        Some(last) => if page_len >= FUNDING_PAGE_LIMIT && last > start_ms {
            Some(last)
        } else {
            None
        },
        None => None,
    })
}

/// Where the next page begins, if there is one: a full page goes on at its last
/// instant, because it can split an instant's rows.
pub fn next_page(page_len: usize, page_last_ms: Option<u64>, start_ms: u64) -> (r: Option<u64>)
    ensures
        r == (match page_last_ms {
            Some(last) => if page_len >= FUNDING_PAGE_LIMIT && last > start_ms {
                Some(last)
            } else {
                None
            },
            None => None,
        }),
        leads_on(page_len, page_last_ms, start_ms, r),
{
    if page_len < FUNDING_PAGE_LIMIT {
        return None;
    }
    match page_last_ms {
        Some(last) => if last > start_ms {
            Some(last)
        } else {
            None
        },
        None => None,
    }
}

} // verus!
