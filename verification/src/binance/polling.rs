//! The pollers' decisions: what a reply makes a poller record and announce, and
//! when it asks again.
use super::funding::{FundingMap, FundingMeta};
use super::messages::{about, in_nanos, Envelope};
use super::pollers::{
    counts_as_failure, entry_fits, funding_realized_events, index_told,
    law_settlements_are_told_once, next_page, open_interest_event, premium_index_events, pruned, realized, report_fail, report_ok,
    settlement, taken_in, FundingRateEntry, FundingSeen, Health, OpenInterestResp, PremiumIndexEntry,
    SeenView, FAIL_THRESHOLD, FUNDING_PAGE_LIMIT,
};
use super::session::{conn_down, conn_up};
use crate::events::Event;
use crate::payloads::{ControlPayload, MarketPayload, Payload};
use crate::text::has_text;
use crate::types::{Nanos, SourceId, VenueId};
use vstd::prelude::*;
use vstd::string::*;

verus! {

/// The pollers' names in the control timeline.
pub const PREMIUM_INDEX: &'static str = "poller-premium-index";

pub const OPEN_INTEREST: &'static str = "poller-open-interest";

pub const FUNDING_REALIZED: &'static str = "poller-funding-realized";

/// What came of a request.
#[derive(Debug)]
pub enum Reply<T> {
    /// The request failed; why.
    Failed(String),
    /// The body could not be read.
    Garbled,
    Read(T),
}

/// What a poller has to tell: events to record, then a change of its own state.
pub struct Told {
    pub events: Vec<Event>,
    pub control: Option<ControlPayload>,
}

/// A success was taken in: it is announced unless the poller is known to be up.
pub open spec fn success(
    o: Health,
    n: Health,
    label: Seq<char>,
    control: Option<ControlPayload>,
) -> bool {
    &&& n == o.after(true)
    &&& if o.announced != Some(true) {
        control matches Some(c) && conn_up(c, label)
    } else {
        control is None
    }
}

/// A failure was taken in: the third in a row is announced unless the poller is
/// known to be down.
pub open spec fn failure(
    o: Health,
    n: Health,
    label: Seq<char>,
    reason: Seq<char>,
    control: Option<ControlPayload>,
) -> bool {
    &&& n == o.after(false)
    &&& if o.fails + 1 == FAIL_THRESHOLD && o.announced != Some(false) {
        control matches Some(c) && conn_down(c, label, reason)
    } else {
        control is None
    }
}

/// The envelope of what a poller records.
pub open spec fn rest_envelope(venue: VenueId, now: Nanos) -> Envelope {
    Envelope { venue: venue.value@, source: SourceId(0), now }
}

/// The last word of a poller that is told to stop.
pub fn farewell(label: &str) -> (r: ControlPayload)
    ensures
        conn_down(r, label@, "shutdown"@),
{
    ControlPayload::ConnDown { label: label.to_owned(), reason: "shutdown".to_owned() }
}

fn failed(health: &mut Health, label: &str, reason: &str) -> (r: Told)
    requires
        old(health).fails < u32::MAX,
    ensures
        r.events@.len() == 0,
        failure(*old(health), *final(health), label@, reason@, r.control),
{
    let control: Option<ControlPayload> = report_fail(health, label, reason);
    Told { events: Vec::new(), control }
}

// ---------------------------------------------------------------------------
// Premium index
// ---------------------------------------------------------------------------

pub struct PremiumIndexPoller {
    pub health: Health,
}

impl PremiumIndexPoller {
    pub fn new() -> (r: PremiumIndexPoller)
        ensures
            r.health == (Health { announced: None, fails: 0 }),
    {
        PremiumIndexPoller { health: Health::new() }
    }

    /// Take in the reply to a poll.
    pub fn polled(
        &mut self,
        reply: &Reply<Vec<PremiumIndexEntry>>,
        venue: &VenueId,
        funding: &FundingMap,
        now: Nanos,
    ) -> (r: Told)
        requires
            old(self).health.fails < u32::MAX,
            funding.wf(),
            reply matches Reply::Read(entries) ==> forall|i: int|
                0 <= i < entries@.len() ==> entry_fits(#[trigger] entries@[i]),
        ensures
            match reply {
                Reply::Read(entries) => index_told(
                    r.events@,
                    entries@,
                    rest_envelope(*venue, now),
                    funding.as_map(),
                ) && success(old(self).health, final(self).health, PREMIUM_INDEX@, r.control),
                Reply::Garbled => r.events@.len() == 0 && failure(
                    old(self).health,
                    final(self).health,
                    PREMIUM_INDEX@,
                    "parse error"@,
                    r.control,
                ),
                Reply::Failed(_) => r.events@.len() == 0 && failure(
                    old(self).health,
                    final(self).health,
                    PREMIUM_INDEX@,
                    "fetch error"@,
                    r.control,
                ),
            },
    {
        match reply {
            Reply::Read(entries) => {
                let events: Vec<Event> = premium_index_events(entries, venue, funding, now);
                let control: Option<ControlPayload> = report_ok(&mut self.health, PREMIUM_INDEX);
                Told { events, control }
            },
            Reply::Garbled => failed(&mut self.health, PREMIUM_INDEX, "parse error"),
            Reply::Failed(_) => failed(&mut self.health, PREMIUM_INDEX, "fetch error"),
        }
    }
}

// ---------------------------------------------------------------------------
// Open interest
// ---------------------------------------------------------------------------

pub struct OpenInterestPoller {
    pub health: Health,
    /// When the sweep at hand began, in nanoseconds of a steady clock.
    pub sweep_start: u64,
}

impl OpenInterestPoller {
    pub fn new(now_ns: u64) -> (r: OpenInterestPoller)
        ensures
            r.health == (Health { announced: None, fails: 0 }),
            r.sweep_start == now_ns,
    {
        OpenInterestPoller { health: Health::new(), sweep_start: now_ns }
    }

    /// Take in the reply for one symbol. A refusal is not held against the
    /// poller: the listing catches up on its next refresh.
    pub fn polled(&mut self, reply: &Reply<OpenInterestResp>, venue: &VenueId, now: Nanos) -> (r:
        Told)
        requires
            old(self).health.fails < u32::MAX,
            reply matches Reply::Read(resp) ==> in_nanos(resp.time),
        ensures
            final(self).sweep_start == old(self).sweep_start,
            match reply {
                Reply::Read(resp) => r.events@.len() == 1 && about(
                    r.events@[0],
                    rest_envelope(*venue, now),
                    resp.symbol@,
                    resp.time,
                ) && r.events@[0].payload == Payload::Market(
                    MarketPayload::OpenInterest {
                        open_interest: resp.open_interest,
                        open_interest_value: None,
                    },
                ) && success(old(self).health, final(self).health, OPEN_INTEREST@, r.control),
                Reply::Garbled => r.events@.len() == 0 && failure(
                    old(self).health,
                    final(self).health,
                    OPEN_INTEREST@,
                    "parse error"@,
                    r.control,
                ),
                Reply::Failed(e) => r.events@.len() == 0 && if has_text(e@, "400"@) {
                    final(self).health == old(self).health && r.control is None
                } else {
                    failure(
                        old(self).health,
                        final(self).health,
                        OPEN_INTEREST@,
                        "fetch error"@,
                        r.control,
                    )
                },
            },
    {
        match reply {
            Reply::Read(resp) => {
                let mut events: Vec<Event> = Vec::new();
                events.push(open_interest_event(resp, venue, now));
                let control: Option<ControlPayload> = report_ok(&mut self.health, OPEN_INTEREST);
                Told { events, control }
            },
            Reply::Garbled => failed(&mut self.health, OPEN_INTEREST, "parse error"),
            Reply::Failed(e) => if counts_as_failure(e.as_str()) {
                failed(&mut self.health, OPEN_INTEREST, "fetch error")
            } else {
                Told { events: Vec::new(), control: None }
            },
        }
    }

    /// When the next sweep begins, and as of when the one behind it is counted.
    pub open spec fn sweeps_on(
        self,
        every_ns: u64,
        now_ns: u64,
        after: OpenInterestPoller,
        next: u64,
    ) -> bool {
        &&& after.health == self.health
        &&& next == self.sweep_start + every_ns
        &&& after.sweep_start == (if now_ns >= next {
            now_ns
        } else {
            next
        })
    }

    /// The sweep is through; when the next one begins. Sweeps begin at least an
    /// interval apart, so that an empty one does not spin.
    pub fn swept(&mut self, every_ns: u64, now_ns: u64) -> (r: u64)
        requires
            old(self).sweep_start + every_ns <= u64::MAX,
        ensures
            final(self).health == old(self).health,
            r == old(self).sweep_start + every_ns,
            final(self).sweep_start == (if now_ns >= r {
                now_ns
            } else {
                r
            }),
            final(self).sweep_start >= old(self).sweep_start + every_ns,
            old(self).sweeps_on(every_ns, now_ns, *final(self), r),
    {
        let next: u64 = self.sweep_start + every_ns;
        self.sweep_start = if now_ns >= next {
            now_ns
        } else {
            next
        };
        next
    }
}

// ---------------------------------------------------------------------------
// Realized funding
// ---------------------------------------------------------------------------

/// The events of the rows that are new.
pub open spec fn settlements_told(
    events: Seq<Event>,
    rows: Seq<FundingRateEntry>,
    seen: SeenView,
    env: Envelope,
    funding: Map<Seq<char>, FundingMeta>,
) -> bool {
    let fresh = taken_in(rows, seen).0;
    &&& events.len() == fresh.len()
    &&& forall|i: int|
        0 <= i < events.len() ==> realized(#[trigger] events[i], fresh[i], env, funding)
}

/// Where a cycle goes on after a page: a full page at its last instant, because
/// it can split an instant's rows; a page that leads no further ends the cycle.
pub open spec fn page_after(rows: Seq<FundingRateEntry>, start_ms: u64) -> Option<u64> {
    if rows.len() >= FUNDING_PAGE_LIMIT && rows.last().funding_time > start_ms {
        Some(rows.last().funding_time)
    } else {
        None
    }
}

pub struct FundingRealizedPoller {
    pub health: Health,
    pub seen: FundingSeen,
    /// The page that the cycle at hand asks for next; none between cycles.
    pub page: Option<u64>,
}

impl FundingRealizedPoller {
    pub open spec fn wf(self) -> bool {
        self.seen.wf()
    }

    /// A poller that starts at `now_ms` catches up from a while before.
    pub fn new(now_ms: u64) -> (r: FundingRealizedPoller)
        ensures
            r.wf(),
            r.health == (Health { announced: None, fails: 0 }),
            r.seen.as_seen() == (SeenView {
                seen: Set::empty(),
                max_seen_ms: super::pollers::horizon(now_ms) as u64,
            }),
            r.page is None,
    {
        FundingRealizedPoller {
            health: Health::new(),
            seen: FundingSeen::catching_up(now_ms),
            page: None,
        }
    }

    /// Begin a cycle.
    pub fn begin(&mut self)
        requires
            old(self).wf(),
        ensures
            final(self).wf(),
            final(self).health == old(self).health,
            final(self).seen == old(self).seen,
            final(self).page == Some(super::pollers::lookback(old(self).seen.max_seen_ms) as u64),
    {
        let start: u64 = self.seen.cycle_start();
        self.page = Some(start);
    }

    /// Take in the reply to the page asked for. A failure ends the cycle and
    /// forgets nothing: the next one resumes from what was seen.
    pub fn paged(
        &mut self,
        reply: &Reply<Vec<FundingRateEntry>>,
        venue: &VenueId,
        funding: &FundingMap,
        now: Nanos,
    ) -> (r: Told)
        requires
            old(self).wf(),
            old(self).page is Some,
            old(self).health.fails < u32::MAX,
            funding.wf(),
            reply matches Reply::Read(rows) ==> forall|i: int|
                0 <= i < rows@.len() ==> in_nanos((#[trigger] rows@[i]).funding_time),
        ensures
            final(self).wf(),
            match reply {
                Reply::Read(rows) => {
                    &&& settlements_told(
                        r.events@,
                        rows@,
                        old(self).seen.as_seen(),
                        rest_envelope(*venue, now),
                        funding.as_map(),
                    )
                    &&& final(self).seen.as_seen() == pruned(
                        taken_in(rows@, old(self).seen.as_seen()).1,
                    )
                    &&& final(self).page == page_after(rows@, old(self).page->0)
                    &&& success(old(self).health, final(self).health, FUNDING_REALIZED@, r.control)
                },
                Reply::Garbled => r.events@.len() == 0 && final(self).seen == old(self).seen
                    && final(self).page is None && failure(
                    old(self).health,
                    final(self).health,
                    FUNDING_REALIZED@,
                    "parse error"@,
                    r.control,
                ),
                Reply::Failed(_) => r.events@.len() == 0 && final(self).seen == old(self).seen
                    && final(self).page is None && failure(
                    old(self).health,
                    final(self).health,
                    FUNDING_REALIZED@,
                    "fetch error"@,
                    r.control,
                ),
            },
    {
        let start: u64 = match self.page {
            Some(s) => s,
            None => 0,
        };
        self.page = None;
        match reply {
            Reply::Read(rows) => {
                let n: usize = rows.len();
                let last: Option<u64> = if n > 0 {
                    Some(rows[n - 1].funding_time)
                } else {
                    None
                };
                let events: Vec<Event> = funding_realized_events(
                    rows,
                    &mut self.seen,
                    venue,
                    funding,
                    now,
                );
                self.page = next_page(n, last, start);
                let control: Option<ControlPayload> = report_ok(&mut self.health, FUNDING_REALIZED);
                Told { events, control }
            },
            Reply::Garbled => failed(&mut self.health, FUNDING_REALIZED, "parse error"),
            Reply::Failed(_) => failed(&mut self.health, FUNDING_REALIZED, "fetch error"),
        }
    }
}

/// A row reports the settlement.
pub open spec fn reported(rows: Seq<FundingRateEntry>, k: (u64, Seq<char>)) -> bool {
    exists|i: int| 0 <= i < rows.len() && settlement(#[trigger] rows[i]) == k
}

/// An honest page of an ascending history: what it leaves out of the part it was
/// asked for comes at its last instant or later, and then the page is full.
pub open spec fn honest_page(
    history: Set<(u64, Seq<char>)>,
    rows: Seq<FundingRateEntry>,
    start_ms: u64,
) -> bool {
    forall|k: (u64, Seq<char>)| #[trigger]
        history.contains(k) && k.0 >= start_ms ==> reported(rows, k) || (rows.len()
            >= FUNDING_PAGE_LIMIT && k.0 >= rows.last().funding_time)
}

/// A cycle moves on and skips nothing: the next page begins later than the page,
/// and every settlement between the two starts has been told by then; without a
/// next page a page that is not full leaves nothing untold.
pub proof fn law_cycle_skips_nothing(
    history: Set<(u64, Seq<char>)>,
    rows: Seq<FundingRateEntry>,
    seen: SeenView,
    start_ms: u64,
)
    requires
        honest_page(history, rows, start_ms),
    ensures
        match page_after(rows, start_ms) {
            Some(next) => next > start_ms && forall|k: (u64, Seq<char>)| #[trigger]
                history.contains(k) && start_ms <= k.0 < next ==> taken_in(
                    rows,
                    seen,
                ).1.seen.contains(k),
            None => rows.len() < FUNDING_PAGE_LIMIT ==> forall|k: (u64, Seq<char>)| #[trigger]
                history.contains(k) && start_ms <= k.0 ==> taken_in(rows, seen).1.seen.contains(k),
        },
{
    law_settlements_are_told_once(rows, seen);
    assert forall|k: (u64, Seq<char>)| reported(rows, k) implies #[trigger] taken_in(
        rows,
        seen,
    ).1.seen.contains(k) by {
        let i = choose|i: int| 0 <= i < rows.len() && settlement(#[trigger] rows[i]) == k;
        assert(taken_in(rows, seen).1.seen.contains(settlement(rows[i])));
    }
}

} // verus!
