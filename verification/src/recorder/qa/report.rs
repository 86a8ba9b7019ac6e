//! The daily quality report.
use crate::events::Event;
use crate::order::NameMap;
use crate::recorder::qa::accumulator::{
    tells, tells_all, tells_control, Accumulator, ControlCounts, InstState,
    Parts,
};
use crate::recorder::qa::histogram::{summary_of, Histogram, HistogramSummary};
use crate::recorder::qa::history::{
    acks, chain_breaks, closable, conn_downs, conn_ups, dropped_total, fated, first_seen, gaps,
    kept_timeline, last_seen, latencies, lemma_counts_bounded, lemma_kinds_bounded, load,
    max_local, mentioned, overlap_count, queueing, seen, seen_of_kind, snapshots,
    ticker_regressions, timeline, trade_regressions, updates, waits_end, Fate, SnapState,
    PENDING_AT_EOF_NS,
};
use crate::recorder::qa::counting::law_fates_add_up;
use crate::recorder::stats::{
    kind_at, kind_count, kind_index, kind_name, law_kinds_are_indexed,
    law_kinds_have_names_of_their_own, EventKind, KINDS,
};
use crate::text::{dec, push_u64, views};
use crate::types::Nanos;
use crate::wire::frame::WireError;
use vstd::prelude::*;
use vstd::string::*;

verus! {

/// Why a file could not be examined at all.
#[derive(Debug)]
pub enum QaError {
    Io(String),
}

impl QaError {
    /// The message an operator sees.
    pub open spec fn text(self) -> Seq<char> {
        match self {
            QaError::Io(m) => "QA read failed: "@ + m@,
        }
    }

    pub fn message(&self) -> (r: String)
        ensures
            r@ == self.text(),
    {
        match self {
            QaError::Io(m) => "QA read failed: ".to_owned().concat(m.as_str()),
        }
    }
}

#[derive(Debug, Clone, Copy, PartialEq, Eq, Structural)]
pub enum QaStatus {
    Pass,
    Fail,
}

#[derive(Debug)]
pub struct ConversionStatus {
    pub ok: bool,
    pub error: Option<String>,
}

#[derive(Debug, Clone, Copy, PartialEq, Eq, Structural)]
pub struct FrameStats {
    pub frames_ok: u64,
    pub skipped_bytes: u64,
    pub resyncs: u64,
    pub undecodable_frames: u64,
    pub truncated_tail: bool,
}

pub struct EventTotals {
    pub total: u64,
    /// Count by kind name; kinds that did not occur are left out.
    pub by_kind: NameMap<u64>,
}

pub struct InstrumentCoverage {
    pub events: u64,
    pub first_local_ts: Nanos,
    pub last_local_ts: Nanos,
    pub by_kind: NameMap<u64>,
}

#[derive(Debug, Clone, Copy, PartialEq, Eq, Structural)]
pub struct DepthQa {
    pub updates: u64,
    pub snapshots: u64,
    pub chain_breaks_explained: u64,
    pub chain_breaks_unexplained: u64,
    pub book_update_overlap: u64,
    pub unspliced_snapshots: u64,
    pub snapshots_pending_at_eof: u64,
    pub snapshots_abandoned_by_reconnect: u64,
    pub missing_snapshot: bool,
}

#[derive(Debug, Clone, Copy, PartialEq, Eq, Structural)]
pub struct DupStats {
    pub trade_id_regressions_explained: u64,
    pub trade_id_regressions_unexplained: u64,
    pub book_ticker_update_id_regressions: u64,
}

pub struct LatencyStats {
    /// Depth event time minus transaction time: venue-side queueing.
    pub depth_e_minus_t: Option<HistogramSummary>,
    /// Local minus venue time by kind name: capture latency and clock offset.
    pub local_minus_venue: NameMap<HistogramSummary>,
}

pub struct QaReport {
    pub schema_version: u32,
    pub venue: String,
    pub date: String,
    pub wal_file: String,
    pub wal_bytes: u64,
    pub generated_at: String,
    pub status: QaStatus,
    pub failures: Vec<String>,
    pub conversion: ConversionStatus,
    pub frames: FrameStats,
    pub events: EventTotals,
    pub instruments: NameMap<InstrumentCoverage>,
    pub depth: NameMap<DepthQa>,
    pub dups: NameMap<DupStats>,
    pub control: ControlCounts,
    pub latency_us: LatencyStats,
}

// ---------------------------------------------------------------------------
// What the report has to say
// ---------------------------------------------------------------------------

/// The non-zero values of a count by kind, under the kinds' names.
pub open spec fn named_counts(f: spec_fn(EventKind) -> nat, n: int) -> Map<Seq<char>, u64>
    decreases n,
{
    if n <= 0 {
        Map::empty()
    } else {
        let p = named_counts(f, n - 1);
        let k = kind_at(n - 1);
        if f(k) > 0 {
            p.insert(kind_name(k), f(k) as u64)
        } else {
            p
        }
    }
}

/// The latency summaries of the kinds that have samples, under their names.
pub open spec fn named_latencies(h: Seq<Event>, n: int) -> Map<Seq<char>, HistogramSummary>
    decreases n,
{
    if n <= 0 {
        Map::empty()
    } else {
        let p = named_latencies(h, n - 1);
        let k = kind_at(n - 1);
        match summary_of(latencies(h, k)) {
            Some(s) => p.insert(kind_name(k), s),
            None => p,
        }
    }
}

/// The instrument has a depth section.
pub open spec fn has_depth(h: Seq<Event>, name: Seq<char>) -> bool {
    updates(h, name) > 0 || snapshots(h, name).len() > 0
}

/// Depth updates came, and no snapshot ever.
pub open spec fn missing_snapshot(h: Seq<Event>, name: Seq<char>) -> bool {
    updates(h, name) > 0 && snapshots(h, name).len() == 0
}

pub open spec fn depth_of(h: Seq<Event>, name: Seq<char>) -> DepthQa {
    let s = snapshots(h, name);
    let m = max_local(h);
    DepthQa {
        updates: updates(h, name) as u64,
        snapshots: s.len() as u64,
        chain_breaks_explained: chain_breaks(h, name, true) as u64,
        chain_breaks_unexplained: chain_breaks(h, name, false) as u64,
        book_update_overlap: overlap_count(h, name) as u64,
        unspliced_snapshots: fated(s, m, Fate::Unspliced) as u64,
        snapshots_pending_at_eof: fated(s, m, Fate::PendingAtEof) as u64,
        snapshots_abandoned_by_reconnect: fated(s, m, Fate::Abandoned) as u64,
        missing_snapshot: missing_snapshot(h, name),
    }
}

/// The instrument has regressions to report.
pub open spec fn has_dups(h: Seq<Event>, name: Seq<char>) -> bool {
    trade_regressions(h, name, true) + trade_regressions(h, name, false) + ticker_regressions(
        h,
        name,
    ) > 0
}

pub open spec fn dups_of(h: Seq<Event>, name: Seq<char>) -> DupStats {
    DupStats {
        trade_id_regressions_explained: trade_regressions(h, name, true) as u64,
        trade_id_regressions_unexplained: trade_regressions(h, name, false) as u64,
        book_ticker_update_id_regressions: ticker_regressions(h, name) as u64,
    }
}

pub open spec fn covers(c: InstrumentCoverage, h: Seq<Event>, name: Seq<char>) -> bool {
    &&& c.events == seen(h, name)
    &&& c.first_local_ts == first_seen(h, name)
    &&& c.last_local_ts == last_seen(h, name)
    &&& c.by_kind.wf()
    &&& c.by_kind.as_map() == named_counts(
        |k: EventKind| seen_of_kind(h, name, k),
        KINDS as int,
    )
}

/// What is wrong with one instrument.
pub open spec fn faults(h: Seq<Event>, name: Seq<char>) -> Seq<Seq<char>> {
    let breaks = chain_breaks(h, name, false);
    let lost = fated(snapshots(h, name), max_local(h), Fate::Unspliced);
    (if breaks > 0 {
        seq![name + ": "@ + dec(breaks) + " unexplained depth chain break(s)"@]
    } else {
        Seq::empty()
    }) + (if lost > 0 {
        seq![
            name + ": "@ + dec(lost) + " snapshot(s) never spliceable against the update stream"@,
        ]
    } else {
        Seq::empty()
    }) + (if missing_snapshot(h, name) {
        seq![name + ": depth updates but no REST snapshot all file"@]
    } else {
        Seq::empty()
    })
}

/// What is wrong with the first `n` instruments.
pub open spec fn faults_of(h: Seq<Event>, names: Seq<Seq<char>>, n: int) -> Seq<Seq<char>>
    decreases n,
{
    if n <= 0 {
        Seq::empty()
    } else {
        faults_of(h, names, n - 1) + faults(h, names[n - 1])
    }
}

/// More than one byte in a hundred was unreadable.
pub open spec fn corrupt(skipped: u64, bytes: u64) -> bool {
    skipped * 100 > (if bytes == 0 {
        1
    } else {
        bytes as int
    })
}

/// What is wrong with the file as a whole.
pub open spec fn file_faults(
    h: Seq<Event>,
    skipped: u64,
    bytes: u64,
    ratio: Seq<char>,
) -> Seq<Seq<char>> {
    (if corrupt(skipped, bytes) {
        seq!["corrupt bytes ratio "@ + ratio + " exceeds 0.01"@]
    } else {
        Seq::empty()
    }) + (if h.len() == 0 {
        seq!["file contains zero decodable events"@]
    } else {
        Seq::empty()
    })
}

/// The name is among the first `n`.
pub open spec fn listed(names: Seq<Seq<char>>, n: int, name: Seq<char>) -> bool {
    exists|j: int| 0 <= j < n && #[trigger] names[j] == name
}

/// The report says what the events say.
pub open spec fn reports(r: QaReport, h: Seq<Event>) -> bool {
    &&& r.events.total == h.len()
    &&& r.events.by_kind.wf()
    &&& r.events.by_kind.as_map() == named_counts(|k: EventKind| kind_count(h, k), KINDS as int)
    &&& r.instruments.wf()
    &&& forall|name: Seq<char>| #[trigger]
        r.instruments.as_map().dom().contains(name) == mentioned(h, name)
    &&& forall|i: int|
        0 <= i < r.instruments.names@.len() ==> covers(
            #[trigger] r.instruments.values@[i],
            h,
            r.instruments.names@[i]@,
        )
    &&& r.depth.wf()
    &&& r.depth.as_map() == Map::new(
        |name: Seq<char>| mentioned(h, name) && has_depth(h, name),
        |name: Seq<char>| depth_of(h, name),
    )
    &&& r.dups.wf()
    &&& r.dups.as_map() == Map::new(
        |name: Seq<char>| mentioned(h, name) && has_dups(h, name),
        |name: Seq<char>| dups_of(h, name),
    )
    &&& tells_control(r.control, h)
    &&& r.latency_us.depth_e_minus_t == summary_of(queueing(h))
    &&& r.latency_us.local_minus_venue.wf()
    &&& r.latency_us.local_minus_venue.as_map() == named_latencies(h, KINDS as int)
}

/// The verdict of the report, on top of the failures that the reading found.
pub open spec fn concludes(
    r: QaReport,
    h: Seq<Event>,
    found: Seq<Seq<char>>,
    skipped: u64,
    bytes: u64,
    ratio: Seq<char>,
) -> bool {
    &&& views(r.failures@) == found + faults_of(
        h,
        views(r.instruments.names@),
        r.instruments.names@.len() as int,
    ) + file_faults(h, skipped, bytes, ratio)
    &&& r.status == (if r.failures@.len() == 0 {
        QaStatus::Pass
    } else {
        QaStatus::Fail
    })
}

/// The failure of a file whose reading stopped on an error.
pub open spec fn fatal_text(events: nat, e: WireError) -> Seq<char> {
    "fatal decode error after "@ + dec(events) + " events: "@ + e.text()
}

/// The failure of a file whose reading stopped on an error after `events`
/// events: the report carries it and goes on with what was read.
pub fn fatal_failure(events: u64, e: &WireError) -> (r: String)
    ensures
        r@ == fatal_text(events as nat, *e),
{
    let mut s: String = "fatal decode error after ".to_owned();
    push_u64(&mut s, events);
    s.append(" events: ");
    s.append(e.message().as_str());
    s
}

impl QaReport {
    /// Fold a conversion outcome into the report: a refused conversion fails
    /// the day.
    pub fn set_conversion_error(&mut self, error: String)
        ensures
            views(final(self).failures@) == views(old(self).failures@).push(
                "conversion failed: "@ + error@,
            ),
            !final(self).conversion.ok,
            final(self).conversion.error == Some(error),
            final(self).status == QaStatus::Fail,
            *final(self) == (QaReport {
                failures: final(self).failures,
                conversion: final(self).conversion,
                status: final(self).status,
                ..*old(self)
            }),
    {
        self.failures.push("conversion failed: ".to_owned().concat(error.as_str()));
        assert(views(self.failures@) =~= views(old(self).failures@).push(
            "conversion failed: "@ + error@,
        ));
        self.conversion = ConversionStatus { ok: false, error: Some(error) };
        self.status = QaStatus::Fail;
    }
}

// ---------------------------------------------------------------------------
// Making it
// ---------------------------------------------------------------------------

fn count_table(counts: &Vec<u64>, Ghost(f): Ghost<spec_fn(EventKind) -> nat>) -> (r: NameMap<u64>)
    requires
        counts@.len() == KINDS,
        forall|i: int| 0 <= i < KINDS ==> #[trigger] counts@[i] == f(kind_at(i)),
    ensures
        r.wf(),
        r.as_map() == named_counts(f, KINDS as int),
{
    let kinds: Vec<EventKind> = EventKind::all();
    let mut r: NameMap<u64> = NameMap::new();
    let mut i: usize = 0;
    while i < KINDS
        invariant
            i <= KINDS,
            counts@.len() == KINDS,
            kinds@.len() == KINDS,
            forall|j: int| 0 <= j < KINDS ==> #[trigger] kinds@[j] == kind_at(j),
            forall|j: int| 0 <= j < KINDS ==> #[trigger] counts@[j] == f(kind_at(j)),
            r.wf(),
            r.as_map() == named_counts(f, i as int),
        decreases KINDS - i,
    {
        assert(kinds@[i as int] == kind_at(i as int));
        let c: u64 = counts[i];
        if c > 0 {
            r.put(kinds[i].name().to_owned(), c);
        }
        i = i + 1;
    }
    r
}

fn latency_table(lat: &Vec<Histogram>, Ghost(h): Ghost<Seq<Event>>) -> (r: NameMap<
    HistogramSummary,
>)
    requires
        crate::recorder::qa::accumulator::tells_latency(lat@, h),
    ensures
        r.wf(),
        r.as_map() == named_latencies(h, KINDS as int),
{
    let kinds: Vec<EventKind> = EventKind::all();
    let mut r: NameMap<HistogramSummary> = NameMap::new();
    let mut i: usize = 0;
    while i < KINDS
        invariant
            i <= KINDS,
            crate::recorder::qa::accumulator::tells_latency(lat@, h),
            kinds@.len() == KINDS,
            forall|j: int| 0 <= j < KINDS ==> #[trigger] kinds@[j] == kind_at(j),
            r.wf(),
            r.as_map() == named_latencies(h, i as int),
        decreases KINDS - i,
    {
        assert(kinds@[i as int] == kind_at(i as int));
        assert(lat@[i as int].wf());
        if let Some(s) = lat[i].summary() {
            r.put(kinds[i].name().to_owned(), s);
        }
        i = i + 1;
    }
    r
}

proof fn lemma_fated_bound(s: Seq<SnapState>, m: u64)
    ensures
        fated(s, m, Fate::Abandoned) <= s.len(),
        fated(s, m, Fate::PendingAtEof) <= s.len(),
        fated(s, m, Fate::Unspliced) <= s.len(),
    decreases s.len(),
{
    if s.len() > 0 {
        lemma_fated_bound(s.drop_last(), m);
    }
}

/// Abandoned, pending and lost snapshots.
fn count_fates(snaps: &Vec<SnapState>, max_ts: u64) -> (r: (u64, u64, u64))
    requires
        snaps@.len() <= u64::MAX,
        waits_end(snaps@),
    ensures
        r.0 == fated(snaps@, max_ts, Fate::Abandoned),
        r.1 == fated(snaps@, max_ts, Fate::PendingAtEof),
        r.2 == fated(snaps@, max_ts, Fate::Unspliced),
{
    let mut abandoned: u64 = 0;
    let mut pending: u64 = 0;
    let mut lost: u64 = 0;
    let mut i: usize = 0;
    assert(snaps@.take(0) =~= Seq::<SnapState>::empty());
    while i < snaps.len()
        invariant
            i <= snaps@.len() <= u64::MAX,
            waits_end(snaps@),
            abandoned == fated(snaps@.take(i as int), max_ts, Fate::Abandoned),
            pending == fated(snaps@.take(i as int), max_ts, Fate::PendingAtEof),
            lost == fated(snaps@.take(i as int), max_ts, Fate::Unspliced),
        decreases snaps@.len() - i,
    {
        let snap: SnapState = snaps[i];
        proof {
            assert(snap == snaps@[i as int]);
            lemma_fated_bound(snaps@.take(i as int), max_ts);
            assert(snaps@.take(i + 1).drop_last() =~= snaps@.take(i as int));
        }
        if !snap.spliced {
            if snap.abandoned_by_reconnect {
                abandoned = abandoned + 1;
            } else if snap.local_ts + PENDING_AT_EOF_NS >= max_ts {
                pending = pending + 1;
            } else {
                lost = lost + 1;
            }
        }
        i = i + 1;
    }
    assert(snaps@.take(i as int) =~= snaps@);
    (abandoned, pending, lost)
}

/// The depth section of one instrument.
fn depth_section(
    st: &InstState,
    max_ts: u64,
    Ghost(h): Ghost<Seq<Event>>,
    Ghost(name): Ghost<Seq<char>>,
) -> (r: DepthQa)
    requires
        tells(*st, h, name),
        max_ts == max_local(h),
        load(h) <= u64::MAX,
        waits_end(st.snapshots@),
    ensures
        r == depth_of(h, name),
        r.chain_breaks_unexplained == chain_breaks(h, name, false),
        r.unspliced_snapshots == fated(snapshots(h, name), max_local(h), Fate::Unspliced),
{
    proof {
        lemma_counts_bounded(h, name);
    }
    let (abandoned, pending, lost): (u64, u64, u64) = count_fates(&st.snapshots, max_ts);
    DepthQa {
        updates: st.updates,
        snapshots: st.snapshots.len() as u64,
        chain_breaks_explained: st.chain_breaks_explained,
        chain_breaks_unexplained: st.chain_breaks_unexplained,
        book_update_overlap: st.book_update_overlap,
        unspliced_snapshots: lost,
        snapshots_pending_at_eof: pending,
        snapshots_abandoned_by_reconnect: abandoned,
        missing_snapshot: st.updates > 0 && st.snapshots.len() == 0,
    }
}

/// Append what is wrong with one instrument.
fn push_faults(
    failures: &mut Vec<String>,
    name: &String,
    d: &DepthQa,
    Ghost(h): Ghost<Seq<Event>>,
)
    requires
        *d == depth_of(h, name@),
        d.chain_breaks_unexplained == chain_breaks(h, name@, false),
        d.unspliced_snapshots == fated(snapshots(h, name@), max_local(h), Fate::Unspliced),
    ensures
        views(final(failures)@) == views(old(failures)@) + faults(h, name@),
{
    let ghost v = views(failures@);
    let ghost e = Seq::<Seq<char>>::empty();
    let ghost mut a = e;
    let ghost mut b = e;
    let ghost mut c = e;
    if d.chain_breaks_unexplained > 0 {
        let mut s: String = name.clone().concat(": ");
        push_u64(&mut s, d.chain_breaks_unexplained);
        s.append(" unexplained depth chain break(s)");
        proof {
            a = seq![s@];
        }
        failures.push(s);
    }
    assert(views(failures@) =~= v + a);
    if d.unspliced_snapshots > 0 {
        let mut s: String = name.clone().concat(": ");
        push_u64(&mut s, d.unspliced_snapshots);
        s.append(" snapshot(s) never spliceable against the update stream");
        proof {
            b = seq![s@];
        }
        failures.push(s);
    }
    assert(views(failures@) =~= v + (a + b));
    if d.missing_snapshot {
        let s: String = name.clone().concat(": depth updates but no REST snapshot all file");
        proof {
            c = seq![s@];
        }
        failures.push(s);
    }
    assert(views(failures@) =~= v + (a + b + c));
    assert(a + b + c == faults(h, name@));
}

/// A section whose entries are those of the first `n` names that belong in it.
pub open spec fn section<V>(
    m: NameMap<V>,
    names: Seq<Seq<char>>,
    n: int,
    belongs: spec_fn(Seq<char>) -> bool,
    value: spec_fn(Seq<char>) -> V,
) -> bool {
    m.wf() && m.as_map() == Map::new(
        |name: Seq<char>| listed(names, n, name) && belongs(name),
        value,
    )
}

proof fn lemma_listed_next(names: Seq<Seq<char>>, n: int)
    requires
        0 <= n < names.len(),
    ensures
        forall|x: Seq<char>|
            #[trigger] listed(names, n + 1, x) == (listed(names, n, x) || x == names[n]),
{
    assert forall|x: Seq<char>| #[trigger]
        listed(names, n + 1, x) == (listed(names, n, x) || x == names[n]) by {
        if listed(names, n + 1, x) {
            let j = choose|j: int| 0 <= j < n + 1 && #[trigger] names[j] == x;
            if j < n {
                assert(names[j] == x);
            }
        }
        if listed(names, n, x) {
            let j = choose|j: int| 0 <= j < n && #[trigger] names[j] == x;
            assert(names[j] == x);
        }
        if x == names[n] {
            assert(names[n] == x);
        }
    }
}

proof fn lemma_section_next<V>(
    o: Map<Seq<char>, V>,
    m: NameMap<V>,
    names: Seq<Seq<char>>,
    n: int,
    belongs: spec_fn(Seq<char>) -> bool,
    value: spec_fn(Seq<char>) -> V,
)
    requires
        0 <= n < names.len(),
        o == Map::new(|name: Seq<char>| listed(names, n, name) && belongs(name), value),
        m.wf(),
        m.as_map() == (if belongs(names[n]) {
            o.insert(names[n], value(names[n]))
        } else {
            o
        }),
    ensures
        section(m, names, n + 1, belongs, value),
{
    lemma_listed_next(names, n);
    assert(m.as_map() =~= Map::new(
        |name: Seq<char>| listed(names, n + 1, name) && belongs(name),
        value,
    ));
}

impl Accumulator {
    /// Close the books on a file. `failures` is what the reading already found
    /// wrong, `ratio` the share of unreadable bytes as the message shows it.
    #[verifier::rlimit(60)]
    pub fn finish(
        self,
        venue: &str,
        date: &str,
        wal_file: &str,
        wal_bytes: u64,
        generated_at: &str,
        frames: FrameStats,
        ratio: &str,
        failures: Vec<String>,
    ) -> (r: QaReport)
        requires
            self.wf(),
            closable(self@),
        ensures
            reports(r, self@),
            r.schema_version == 1,
            r.venue@ == venue@,
            r.date@ == date@,
            r.wal_file@ == wal_file@,
            r.wal_bytes == wal_bytes,
            r.generated_at@ == generated_at@,
            r.frames == frames,
            r.conversion.ok && r.conversion.error is None,
            views(r.failures@) == views(failures@) + faults_of(
                self@,
                views(r.instruments.names@),
                r.instruments.names@.len() as int,
            ) + file_faults(self@, frames.skipped_bytes, wal_bytes, ratio@),
            r.status == (if r.failures@.len() == 0 {
                QaStatus::Pass
            } else {
                QaStatus::Fail
            }),
            concludes(r, self@, views(failures@), frames.skipped_bytes, wal_bytes, ratio@),
    {
        let ghost h = self@;
        let mut failures: Vec<String> = failures;
        let ghost given = views(failures@);
        proof {
            self.lemma_contents();
        }
        let parts: Parts = self.into_parts();
        let ghost m = parts.instruments;
        let ghost names = views(m.names@);
        let ghost db = |name: Seq<char>| has_depth(h, name);
        let ghost dv = |name: Seq<char>| depth_of(h, name);
        let ghost ub = |name: Seq<char>| has_dups(h, name);
        let ghost uv = |name: Seq<char>| dups_of(h, name);
        let mut coverage: Vec<InstrumentCoverage> = Vec::new();
        let mut depth: NameMap<DepthQa> = NameMap::new();
        let mut dups: NameMap<DupStats> = NameMap::new();
        let mut i: usize = 0;
        proof {
            assert(depth.as_map() =~= Map::new(
                |name: Seq<char>| listed(names, 0, name) && db(name),
                dv,
            ));
            assert(dups.as_map() =~= Map::new(
                |name: Seq<char>| listed(names, 0, name) && ub(name),
                uv,
            ));
            assert(given + faults_of(h, names, 0) =~= given);
        }
        while i < parts.instruments.names.len()
            invariant
                i <= m.names@.len(),
                parts.instruments == m,
                names == views(m.names@),
                tells_all(m, h),
                closable(h),
                load(h) <= u64::MAX,
                parts.max_local_ts == max_local(h),
                db == (|name: Seq<char>| has_depth(h, name)),
                dv == (|name: Seq<char>| depth_of(h, name)),
                ub == (|name: Seq<char>| has_dups(h, name)),
                uv == (|name: Seq<char>| dups_of(h, name)),
                coverage@.len() == i,
                forall|j: int|
                    0 <= j < i ==> covers(#[trigger] coverage@[j], h, m.names@[j]@),
                section(depth, names, i as int, db, dv),
                section(dups, names, i as int, ub, uv),
                views(failures@) == given + faults_of(h, names, i as int),
            decreases m.names@.len() - i,
        {
            let name: &String = &parts.instruments.names[i];
            let st: &InstState = &parts.instruments.values[i];
            let ghost d0 = depth.as_map();
            let ghost u0 = dups.as_map();
            proof {
                assert(tells(m.values@[i as int], h, name@));
                assert(names[i as int] == name@);
                lemma_counts_bounded(h, name@);
                m.lemma_entry(i as int);
                assert(m.as_map().dom().contains(name@));
                assert(mentioned(h, name@));
            }
            if st.updates > 0 || st.snapshots.len() > 0 {
                let d: DepthQa = depth_section(st, parts.max_local_ts, Ghost(h), Ghost(name@));
                push_faults(&mut failures, name, &d, Ghost(h));
                depth.put(name.clone(), d);
            } else {
                proof {
                    lemma_quiet(h, name@);
                    assert(faults(h, name@) =~= Seq::<Seq<char>>::empty());
                }
            }
            if st.trade_regr_explained + st.trade_regr_unexplained + st.ticker_regressions > 0 {
                dups.put(
                    name.clone(),
                    DupStats {
                        trade_id_regressions_explained: st.trade_regr_explained,
                        trade_id_regressions_unexplained: st.trade_regr_unexplained,
                        book_ticker_update_id_regressions: st.ticker_regressions,
                    },
                );
            }
            let c: InstrumentCoverage = InstrumentCoverage {
                events: st.events,
                first_local_ts: st.first_local_ts,
                last_local_ts: st.last_local_ts,
                by_kind: count_table(
                    &st.by_kind,
                    Ghost(|k: EventKind| seen_of_kind(h, name@, k)),
                ),
            };
            coverage.push(c);
            proof {
                lemma_section_next(d0, depth, names, i as int, db, dv);
                lemma_section_next(u0, dups, names, i as int, ub, uv);
                assert(views(failures@) =~= given + faults_of(h, names, i + 1));
            }
            i = i + 1;
        }
        let ghost n = names.len() as int;
        let ghost inner = given + faults_of(h, names, n);
        let ghost mut a = Seq::<Seq<char>>::empty();
        let ghost mut b = Seq::<Seq<char>>::empty();
        let bytes: u64 = if wal_bytes == 0 {
            1
        } else {
            wal_bytes
        };
        if frames.skipped_bytes as u128 * 100 > bytes as u128 {
            let s: String = "corrupt bytes ratio ".to_owned().concat(ratio).concat(" exceeds 0.01");
            proof {
                a = seq![s@];
            }
            failures.push(s);
        }
        assert(views(failures@) =~= inner + a);
        if parts.total == 0 {
            let s: String = "file contains zero decodable events".to_owned();
            proof {
                b = seq![s@];
            }
            failures.push(s);
        }
        assert(views(failures@) =~= inner + (a + b));
        assert(a + b == file_faults(h, frames.skipped_bytes, wal_bytes, ratio@));
        let status: QaStatus = if failures.len() == 0 {
            QaStatus::Pass
        } else {
            QaStatus::Fail
        };
        let local_minus_venue: NameMap<HistogramSummary> = latency_table(
            &parts.local_minus_venue,
            Ghost(h),
        );
        let by_kind: NameMap<u64> = count_table(
            &parts.by_kind,
            Ghost(|k: EventKind| kind_count(h, k)),
        );
        let instruments: NameMap<InstrumentCoverage> = NameMap {
            names: parts.instruments.names,
            values: coverage,
        };
        proof {
            lemma_listed_all(m, h);
            assert(instruments.as_map().dom() =~= m.as_map().dom());
            assert(depth.as_map() =~= Map::new(
                |name: Seq<char>| mentioned(h, name) && has_depth(h, name),
                |name: Seq<char>| depth_of(h, name),
            ));
            assert(dups.as_map() =~= Map::new(
                |name: Seq<char>| mentioned(h, name) && has_dups(h, name),
                |name: Seq<char>| dups_of(h, name),
            ));
        }
        QaReport {
            schema_version: 1,
            venue: venue.to_owned(),
            date: date.to_owned(),
            wal_file: wal_file.to_owned(),
            wal_bytes,
            generated_at: generated_at.to_owned(),
            status,
            failures,
            conversion: ConversionStatus { ok: true, error: None },
            frames,
            events: EventTotals { total: parts.total, by_kind },
            instruments,
            depth,
            dups,
            control: parts.control,
            latency_us: LatencyStats {
                depth_e_minus_t: parts.e_minus_t.summary(),
                local_minus_venue,
            },
        }
    }
}


proof fn lemma_listed_all(m: NameMap<InstState>, h: Seq<Event>)
    requires
        tells_all(m, h),
    ensures
        forall|name: Seq<char>|
            #[trigger] listed(views(m.names@), m.names@.len() as int, name) == mentioned(h, name),
{
    let s = views(m.names@);
    assert forall|name: Seq<char>| #[trigger]
        listed(s, m.names@.len() as int, name) == mentioned(h, name) by {
        assert(m.as_map().dom().contains(name) == mentioned(h, name));
        if s.contains(name) {
            let j = s.index_of(name);
            assert(s[j] == name);
        }
    }
}

/// Without updates nothing breaks, and without snapshots none is lost.
proof fn lemma_quiet(h: Seq<Event>, name: Seq<char>)
    requires
        updates(h, name) == 0,
        snapshots(h, name).len() == 0,
    ensures
        chain_breaks(h, name, false) == 0,
    decreases h.len(),
{
    if h.len() > 0 {
        lemma_quiet_snapshots(h, name);
        lemma_quiet(h.drop_last(), name);
    }
}

proof fn lemma_quiet_snapshots(h: Seq<Event>, name: Seq<char>)
    requires
        h.len() > 0,
    ensures
        snapshots(h.drop_last(), name).len() <= snapshots(h, name).len(),
{
}

// ---------------------------------------------------------------------------
// Laws
// ---------------------------------------------------------------------------

/// A day without failures is clean: there were events, no more than one byte in
/// a hundred was unreadable, and no instrument lost data with its connection
/// healthy, lost a snapshot, or went without one.
pub proof fn law_pass_means_clean(
    h: Seq<Event>,
    names: Seq<Seq<char>>,
    skipped: u64,
    bytes: u64,
    ratio: Seq<char>,
)
    requires
        faults_of(h, names, names.len() as int) + file_faults(h, skipped, bytes, ratio)
            == Seq::<Seq<char>>::empty(),
    ensures
        h.len() > 0,
        !corrupt(skipped, bytes),
        forall|i: int|
            0 <= i < names.len() ==> chain_breaks(h, #[trigger] names[i], false) == 0 && fated(
                snapshots(h, names[i]),
                max_local(h),
                Fate::Unspliced,
            ) == 0 && !missing_snapshot(h, names[i]),
{
    let a = faults_of(h, names, names.len() as int);
    let b = file_faults(h, skipped, bytes, ratio);
    assert((a + b).len() == 0);
    assert(a.len() == 0 && b.len() == 0);
    assert forall|i: int| 0 <= i < names.len() implies chain_breaks(h, #[trigger] names[i], false)
        == 0 && fated(snapshots(h, names[i]), max_local(h), Fate::Unspliced) == 0
        && !missing_snapshot(h, names[i]) by {
        lemma_faultless(h, names, names.len() as int, i);
    }
}

proof fn lemma_faultless(h: Seq<Event>, names: Seq<Seq<char>>, n: int, i: int)
    requires
        faults_of(h, names, n).len() == 0,
        0 <= i < n <= names.len(),
    ensures
        faults(h, names[i]).len() == 0,
        chain_breaks(h, names[i], false) == 0,
        fated(snapshots(h, names[i]), max_local(h), Fate::Unspliced) == 0,
        !missing_snapshot(h, names[i]),
    decreases n,
{
    if i < n - 1 {
        lemma_faultless(h, names, n - 1, i);
    }
}

proof fn lemma_faults_of(h: Seq<Event>, names: Seq<Seq<char>>, n: int)
    requires
        0 <= n <= names.len(),
    ensures
        faults_of(h, names, n).len() == 0 <==> forall|i: int|
            0 <= i < n ==> faults(h, #[trigger] names[i]).len() == 0,
    decreases n,
{
    if n > 0 {
        lemma_faults_of(h, names, n - 1);
        assert(faults_of(h, names, n).len() == faults_of(h, names, n - 1).len() + faults(
            h,
            names[n - 1],
        ).len());
    }
}

/// An instrument is sound: no link of its depth chain broke but for a lost
/// connection, no snapshot was lost, and where depth updates came, a snapshot did.
pub open spec fn sound(h: Seq<Event>, name: Seq<char>) -> bool {
    &&& chain_breaks(h, name, false) == 0
    &&& fated(snapshots(h, name), max_local(h), Fate::Unspliced) == 0
    &&& (updates(h, name) > 0 ==> snapshots(h, name).len() > 0)
}

/// A file passes exactly where its reading found nothing wrong, it has events, at
/// most one byte in a hundred was unreadable, and every instrument in it is sound.
pub proof fn law_verdict_on_a_file(
    r: QaReport,
    h: Seq<Event>,
    found: Seq<Seq<char>>,
    skipped: u64,
    bytes: u64,
    ratio: Seq<char>,
)
    requires
        reports(r, h),
        concludes(r, h, found, skipped, bytes, ratio),
    ensures
        r.status == QaStatus::Pass <==> found.len() == 0 && h.len() > 0 && (bytes > 0 ==> skipped
            * 100 <= bytes) && (bytes == 0 ==> skipped == 0) && forall|name: Seq<char>|
            #[trigger] mentioned(h, name) ==> sound(h, name),
        r.status == QaStatus::Fail <==> r.failures@.len() > 0,
{
    let names = views(r.instruments.names@);
    let n = r.instruments.names@.len() as int;
    lemma_faults_of(h, names, n);
    let a = faults_of(h, names, n);
    let b = file_faults(h, skipped, bytes, ratio);
    assert(views(r.failures@).len() == r.failures@.len());
    assert((found + a + b).len() == found.len() + a.len() + b.len());
    assert forall|name: Seq<char>| faults(h, name).len() == 0 <==> #[trigger] sound(h, name) by {}
    if a.len() == 0 {
        assert forall|name: Seq<char>| #[trigger] mentioned(h, name) implies sound(h, name) by {
            assert(r.instruments.as_map().dom().contains(name));
            let i = names.index_of(name);
            assert(names[i] == name);
            assert(faults(h, names[i]).len() == 0);
        }
    }
    if forall|name: Seq<char>| #[trigger] mentioned(h, name) ==> sound(h, name) {
        assert forall|i: int| 0 <= i < n implies faults(h, #[trigger] names[i]).len() == 0 by {
            r.instruments.lemma_entry(i);
            assert(names[i] == r.instruments.names@[i]@);
            assert(r.instruments.as_map().dom().contains(names[i]));
            assert(mentioned(h, names[i]));
            assert(sound(h, names[i]));
        }
    }
}

/// Every fault of an instrument is told in a line of its own that names it.
pub proof fn law_faults_are_told_apart(h: Seq<Event>, name: Seq<char>)
    ensures
        faults(h, name).len() == (if chain_breaks(h, name, false) > 0 {
            1int
        } else {
            0
        }) + (if fated(snapshots(h, name), max_local(h), Fate::Unspliced) > 0 {
            1int
        } else {
            0
        }) + (if updates(h, name) > 0 && snapshots(h, name).len() == 0 {
            1int
        } else {
            0
        }),
        forall|i: int|
            0 <= i < faults(h, name).len() ==> (#[trigger] faults(h, name)[i]).len() >= name.len()
                && faults(h, name)[i].take(name.len() as int) == name,
{
    assert forall|i: int| 0 <= i < faults(h, name).len() implies (#[trigger] faults(
        h,
        name,
    )[i]).len() >= name.len() && faults(h, name)[i].take(name.len() as int) == name by {
        assert(faults(h, name)[i].take(name.len() as int) =~= name);
    }
}

/// The depth section of a report has a place for every count, and each count in
/// its own: the explained breaks apart from the unexplained, and the snapshots by
/// what became of them.
pub proof fn law_depth_section_tells_the_counts(r: QaReport, h: Seq<Event>, name: Seq<char>)
    requires
        reports(r, h),
        load(h) <= u64::MAX,
    ensures
        r.depth.as_map().dom().contains(name) <==> mentioned(h, name) && (updates(h, name) > 0
            || snapshots(h, name).len() > 0),
        r.depth.as_map().dom().contains(name) ==> ({
            let d = r.depth.as_map()[name];
            let s = snapshots(h, name);
            &&& d.updates == updates(h, name)
            &&& d.snapshots == s.len()
            &&& d.chain_breaks_explained == chain_breaks(h, name, true)
            &&& d.chain_breaks_unexplained == chain_breaks(h, name, false)
            &&& d.book_update_overlap == overlap_count(h, name)
            &&& d.unspliced_snapshots == fated(s, max_local(h), Fate::Unspliced)
            &&& d.snapshots_pending_at_eof == fated(s, max_local(h), Fate::PendingAtEof)
            &&& d.snapshots_abandoned_by_reconnect == fated(s, max_local(h), Fate::Abandoned)
            &&& (d.missing_snapshot <==> d.updates > 0 && d.snapshots == 0)
        }),
{
    lemma_counts_bounded(h, name);
    law_fates_add_up(snapshots(h, name), max_local(h), Fate::Unspliced);
}

/// The section on repeated ids has an instrument exactly where one of its ids went
/// back, with each count in its own place.
pub proof fn law_repeats_section_tells_the_counts(r: QaReport, h: Seq<Event>, name: Seq<char>)
    requires
        reports(r, h),
        load(h) <= u64::MAX,
    ensures
        r.dups.as_map().dom().contains(name) <==> mentioned(h, name) && (trade_regressions(
            h,
            name,
            true,
        ) > 0 || trade_regressions(h, name, false) > 0 || ticker_regressions(h, name) > 0),
        r.dups.as_map().dom().contains(name) ==> ({
            let d = r.dups.as_map()[name];
            &&& d.trade_id_regressions_explained == trade_regressions(h, name, true)
            &&& d.trade_id_regressions_unexplained == trade_regressions(h, name, false)
            &&& d.book_ticker_update_id_regressions == ticker_regressions(h, name)
        }),
{
    lemma_counts_bounded(h, name);
}

proof fn lemma_named(f: spec_fn(EventKind) -> nat, n: int, k: EventKind)
    requires
        0 <= n <= KINDS,
        f(k) <= u64::MAX,
    ensures
        kind_index(k) < n ==> (named_counts(f, n).dom().contains(
            kind_name(k),
        ) <==> f(k) > 0) && (f(k) > 0 ==> named_counts(f, n)[kind_name(k)] == f(k)),
        kind_index(k) >= n ==> !named_counts(f, n).dom().contains(
            kind_name(k),
        ),
    decreases n,
{
    if n > 0 {
        lemma_named(f, n - 1, k);
        law_kinds_are_indexed(k, n - 1);
        if kind_at(n - 1) != k {
            law_kinds_have_names_of_their_own(kind_at(n - 1), k);
        }
    }
}

/// The totals count every event, and under the name of every kind the events of
/// that kind; what did not occur is left out. So for every instrument.
pub proof fn law_totals_tell_every_kind(r: QaReport, h: Seq<Event>, k: EventKind, i: int)
    requires
        reports(r, h),
        load(h) <= u64::MAX,
        0 <= i < r.instruments.names@.len(),
    ensures
        r.events.total == h.len(),
        r.events.by_kind.as_map().dom().contains(kind_name(k)) <==> kind_count(h, k) > 0,
        kind_count(h, k) > 0 ==> r.events.by_kind.as_map()[kind_name(k)] == kind_count(h, k),
        ({
            let name = r.instruments.names@[i]@;
            let c = r.instruments.values@[i];
            &&& c.events == seen(h, name)
            &&& c.first_local_ts == first_seen(h, name)
            &&& c.last_local_ts == last_seen(h, name)
            &&& (c.by_kind.as_map().dom().contains(kind_name(k)) <==> seen_of_kind(h, name, k) > 0)
            &&& (seen_of_kind(h, name, k) > 0 ==> c.by_kind.as_map()[kind_name(k)] == seen_of_kind(
                h,
                name,
                k,
            ))
        }),
{
    let name = r.instruments.names@[i]@;
    lemma_kinds_bounded(h, name, k);
    law_kinds_are_indexed(k, 0);
    lemma_named(|k: EventKind| kind_count(h, k), KINDS as int, k);
    assert(covers(r.instruments.values@[i], h, name));
    lemma_named(|k: EventKind| seen_of_kind(h, name, k), KINDS as int, k);
}

/// The control section tells the counts, each in its place.
pub proof fn law_control_section_tells_the_counts(r: QaReport, h: Seq<Event>)
    requires
        reports(r, h),
    ensures
        r.control.conn_up == conn_ups(h),
        r.control.conn_down == conn_downs(h),
        r.control.gap_events == gaps(h),
        r.control.gap_dropped_total == dropped_total(h),
        r.control.sub_ack_ok == acks(h, true),
        r.control.sub_ack_failed == acks(h, false),
        views(r.control.timeline@) == kept_timeline(h),
        r.control.timeline_truncated <==> timeline(h).len() > 500,
        r.latency_us.depth_e_minus_t is Some <==> queueing(h).len() > 0,
        r.latency_us.depth_e_minus_t == summary_of(queueing(h)),
{
}

proof fn lemma_named_latency(h: Seq<Event>, n: int, k: EventKind)
    requires
        0 <= n <= KINDS,
    ensures
        kind_index(k) < n ==> (named_latencies(h, n).dom().contains(kind_name(k)) <==> latencies(
            h,
            k,
        ).len() > 0) && (latencies(h, k).len() > 0 ==> Some(named_latencies(h, n)[kind_name(k)])
            == summary_of(latencies(h, k))),
        kind_index(k) >= n ==> !named_latencies(h, n).dom().contains(kind_name(k)),
    decreases n,
{
    if n > 0 {
        lemma_named_latency(h, n - 1, k);
        law_kinds_are_indexed(k, n - 1);
        if kind_at(n - 1) != k {
            law_kinds_have_names_of_their_own(kind_at(n - 1), k);
        }
    }
}

/// Under the name of every kind stands the summary of the latencies of that kind,
/// and nothing where it has none.
pub proof fn law_latencies_are_told_by_kind(r: QaReport, h: Seq<Event>, k: EventKind)
    requires
        reports(r, h),
    ensures
        r.latency_us.local_minus_venue.as_map().dom().contains(kind_name(k)) <==> latencies(
            h,
            k,
        ).len() > 0,
        latencies(h, k).len() > 0 ==> Some(
            r.latency_us.local_minus_venue.as_map()[kind_name(k)],
        ) == summary_of(latencies(h, k)),
{
    law_kinds_are_indexed(k, 0);
    lemma_named_latency(h, KINDS as int, k);
}

} // verus!
