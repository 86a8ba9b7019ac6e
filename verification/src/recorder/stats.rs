//! Capture-side observability counters.
//!
//! Counters wrap like the atomic counters a running process shares; a reader
//! takes a copy once a minute and looks at the difference.
use crate::events::Event;
use crate::payloads::{ControlPayload, MarketPayload, Payload};
use vstd::prelude::*;

verus! {

/// Event classification for counters and quality reports.
#[derive(Debug, Clone, Copy, Hash, PartialEq, Eq, Structural)]
pub enum EventKind {
    BookTicker,
    BookSnapshot,
    BookUpdate,
    Trades,
    MarkPrice,
    IndexPrice,
    FundingPrediction,
    FundingRealized,
    OpenInterest,
    Liquidation,
    Reference,
    Chain,
    Account,
    Control,
}

/// How many kinds there are.
pub const KINDS: usize = 14;

/// The kind of a payload.
pub open spec fn kind_of(p: Payload) -> EventKind {
    match p {
        Payload::Market(m) => match m {
            MarketPayload::BookTicker { .. } => EventKind::BookTicker,
            MarketPayload::BookSnapshot { .. } => EventKind::BookSnapshot,
            MarketPayload::BookUpdate { .. } => EventKind::BookUpdate,
            MarketPayload::Trades { .. } => EventKind::Trades,
            MarketPayload::MarkPrice { .. } => EventKind::MarkPrice,
            MarketPayload::IndexPrice { .. } => EventKind::IndexPrice,
            MarketPayload::FundingRatePrediction { .. } => EventKind::FundingPrediction,
            MarketPayload::FundingRateRealized { .. } => EventKind::FundingRealized,
            MarketPayload::OpenInterest { .. } => EventKind::OpenInterest,
            MarketPayload::Liquidation { .. } => EventKind::Liquidation,
        },
        Payload::Reference(_) => EventKind::Reference,
        Payload::Chain(_) => EventKind::Chain,
        Payload::Account(_) => EventKind::Account,
        Payload::Control(_) => EventKind::Control,
    }
}

/// The position of a kind in every per-kind table.
pub open spec fn kind_index(k: EventKind) -> int {
    match k {
        EventKind::BookTicker => 0,
        EventKind::BookSnapshot => 1,
        EventKind::BookUpdate => 2,
        EventKind::Trades => 3,
        EventKind::MarkPrice => 4,
        EventKind::IndexPrice => 5,
        EventKind::FundingPrediction => 6,
        EventKind::FundingRealized => 7,
        EventKind::OpenInterest => 8,
        EventKind::Liquidation => 9,
        EventKind::Reference => 10,
        EventKind::Chain => 11,
        EventKind::Account => 12,
        EventKind::Control => 13,
    }
}

/// The kind at a position.
pub open spec fn kind_at(i: int) -> EventKind {
    if i == 0 {
        EventKind::BookTicker
    } else if i == 1 {
        EventKind::BookSnapshot
    } else if i == 2 {
        EventKind::BookUpdate
    } else if i == 3 {
        EventKind::Trades
    } else if i == 4 {
        EventKind::MarkPrice
    } else if i == 5 {
        EventKind::IndexPrice
    } else if i == 6 {
        EventKind::FundingPrediction
    } else if i == 7 {
        EventKind::FundingRealized
    } else if i == 8 {
        EventKind::OpenInterest
    } else if i == 9 {
        EventKind::Liquidation
    } else if i == 10 {
        EventKind::Reference
    } else if i == 11 {
        EventKind::Chain
    } else if i == 12 {
        EventKind::Account
    } else {
        EventKind::Control
    }
}

/// The name a kind goes by in tables and reports.
pub open spec fn kind_name(k: EventKind) -> Seq<char> {
    match k {
        EventKind::BookTicker => "book_ticker"@,
        EventKind::BookSnapshot => "book_snapshot"@,
        EventKind::BookUpdate => "book_update"@,
        EventKind::Trades => "trades"@,
        EventKind::MarkPrice => "mark_price"@,
        EventKind::IndexPrice => "index_price"@,
        EventKind::FundingPrediction => "funding_prediction"@,
        EventKind::FundingRealized => "funding_realized"@,
        EventKind::OpenInterest => "open_interest"@,
        EventKind::Liquidation => "liquidation"@,
        EventKind::Reference => "reference"@,
        EventKind::Chain => "chain"@,
        EventKind::Account => "account"@,
        EventKind::Control => "control"@,
    }
}

impl EventKind {
    /// All kinds, each at its own position.
    pub fn all() -> (r: Vec<EventKind>)
        ensures
            r@.len() == KINDS,
            forall|i: int| 0 <= i < KINDS ==> #[trigger] r@[i] == kind_at(i),
    {
        vec![
            EventKind::BookTicker,
            EventKind::BookSnapshot,
            EventKind::BookUpdate,
            EventKind::Trades,
            EventKind::MarkPrice,
            EventKind::IndexPrice,
            EventKind::FundingPrediction,
            EventKind::FundingRealized,
            EventKind::OpenInterest,
            EventKind::Liquidation,
            EventKind::Reference,
            EventKind::Chain,
            EventKind::Account,
            EventKind::Control,
        ]
    }

    pub fn of(payload: &Payload) -> (r: EventKind)
        ensures
            r == kind_of(*payload),
    {
        match payload {
            Payload::Market(m) => match m {
                MarketPayload::BookTicker { .. } => EventKind::BookTicker,
                MarketPayload::BookSnapshot { .. } => EventKind::BookSnapshot,
                MarketPayload::BookUpdate { .. } => EventKind::BookUpdate,
                MarketPayload::Trades { .. } => EventKind::Trades,
                MarketPayload::MarkPrice { .. } => EventKind::MarkPrice,
                MarketPayload::IndexPrice { .. } => EventKind::IndexPrice,
                MarketPayload::FundingRatePrediction { .. } => EventKind::FundingPrediction,
                MarketPayload::FundingRateRealized { .. } => EventKind::FundingRealized,
                MarketPayload::OpenInterest { .. } => EventKind::OpenInterest,
                MarketPayload::Liquidation { .. } => EventKind::Liquidation,
            },
            Payload::Reference(_) => EventKind::Reference,
            Payload::Chain(_) => EventKind::Chain,
            Payload::Account(_) => EventKind::Account,
            Payload::Control(_) => EventKind::Control,
        }
    }

    pub fn name(self) -> (r: &'static str)
        ensures
            r@ == kind_name(self),
    {
        match self {
            EventKind::BookTicker => "book_ticker",
            EventKind::BookSnapshot => "book_snapshot",
            EventKind::BookUpdate => "book_update",
            EventKind::Trades => "trades",
            EventKind::MarkPrice => "mark_price",
            EventKind::IndexPrice => "index_price",
            EventKind::FundingPrediction => "funding_prediction",
            EventKind::FundingRealized => "funding_realized",
            EventKind::OpenInterest => "open_interest",
            EventKind::Liquidation => "liquidation",
            EventKind::Reference => "reference",
            EventKind::Chain => "chain",
            EventKind::Account => "account",
            EventKind::Control => "control",
        }
    }

    pub fn index(self) -> (r: usize)
        ensures
            r == kind_index(self),
            r < KINDS,
    {
        match self {
            EventKind::BookTicker => 0,
            EventKind::BookSnapshot => 1,
            EventKind::BookUpdate => 2,
            EventKind::Trades => 3,
            EventKind::MarkPrice => 4,
            EventKind::IndexPrice => 5,
            EventKind::FundingPrediction => 6,
            EventKind::FundingRealized => 7,
            EventKind::OpenInterest => 8,
            EventKind::Liquidation => 9,
            EventKind::Reference => 10,
            EventKind::Chain => 11,
            EventKind::Account => 12,
            EventKind::Control => 13,
        }
    }
}

/// Every kind has its own position, and every position its kind.
pub proof fn law_kinds_are_indexed(k: EventKind, i: int)
    ensures
        0 <= kind_index(k) < KINDS,
        kind_at(kind_index(k)) == k,
        0 <= i < KINDS ==> kind_index(kind_at(i)) == i,
{
}

/// No two kinds have the same name.
pub proof fn law_kinds_have_names_of_their_own(a: EventKind, b: EventKind)
    requires
        a != b,
    ensures
        kind_name(a) != kind_name(b),
{
    reveal_strlit("book_ticker");
    reveal_strlit("book_snapshot");
    reveal_strlit("book_update");
    reveal_strlit("trades");
    reveal_strlit("mark_price");
    reveal_strlit("index_price");
    reveal_strlit("funding_prediction");
    reveal_strlit("funding_realized");
    reveal_strlit("open_interest");
    reveal_strlit("liquidation");
    reveal_strlit("reference");
    reveal_strlit("chain");
    reveal_strlit("account");
    reveal_strlit("control");
    assert("book_ticker"@[5] == 't' && "liquidation"@[5] == 'd' && "book_update"@[5] == 'u');
    assert("index_price"@[5] == '_');
    assert("account"@[0] == 'a' && "control"@[0] == 'c');
    assert("book_snapshot"@[0] == 'b' && "open_interest"@[0] == 'o');
    assert("mark_price"@.len() == 10 && "trades"@.len() == 6 && "reference"@.len() == 9
        && "chain"@.len() == 5 && "funding_prediction"@.len() == 18 && "funding_realized"@.len()
        == 16);
    assert("book_ticker"@.len() == 11 && "liquidation"@.len() == 11 && "book_update"@.len() == 11
        && "index_price"@.len() == 11);
    assert("book_snapshot"@.len() == 13 && "open_interest"@.len() == 13);
    assert("account"@.len() == 7 && "control"@.len() == 7);
}

/// Counters for one log-writer thread. Queue depth comes from two totals that
/// only grow, so racing increments never push a gauge below zero.
#[derive(Debug, Clone, Copy, PartialEq, Eq, Structural)]
pub struct WriterStats {
    pub enqueued: u64,
    pub dequeued: u64,
    pub written_frames: u64,
    /// Zero until the first flush to disk.
    pub last_fsync_unix_ns: u64,
    /// Frames dropped because the channel was full (raw tee only).
    pub dropped_frames: u64,
}

/// `a + b` on a wrapping 64-bit counter.
#[verifier::opaque]
pub open spec fn wrapped(a: u64, b: int) -> u64 {
    ((a + b) % 0x1_0000_0000_0000_0000) as u64
}

fn bump(a: u64, b: u64) -> (r: u64)
    ensures
        r == wrapped(a, b as int),
{
    reveal(wrapped);
    a.wrapping_add(b)
}

/// Growing twice is growing by the sum.
pub proof fn law_wrapped_adds(a: u64, b: int, c: int)
    ensures
        wrapped(wrapped(a, b), c) == wrapped(a, b + c),
        wrapped(a, 0) == a,
{
    reveal(wrapped);
    let m = 0x1_0000_0000_0000_0000int;
    vstd::arithmetic::div_mod::lemma_add_mod_noop((a + b) % m, c, m);
    vstd::arithmetic::div_mod::lemma_add_mod_noop(a + b, c, m);
    assert((((a + b) % m) + c) % m == (a + b + c) % m);
    assert((a as int) % m == a) by {
        vstd::arithmetic::div_mod::lemma_small_mod(a as nat, m as nat);
    }
}

/// How long ago something happened; never, if its time is zero.
pub open spec fn age(at: u64, now: u64) -> Option<u64> {
    if at == 0 {
        None
    } else if now >= at {
        Some((now - at) as u64)
    } else {
        Some(0)
    }
}

fn age_of(at: u64, now: u64) -> (r: Option<u64>)
    ensures
        r == age(at, now),
{
    if at == 0 {
        None
    } else {
        Some(now.saturating_sub(at))
    }
}

impl Default for WriterStats {
    fn default() -> (r: Self)
        ensures
            r == (WriterStats {
                enqueued: 0,
                dequeued: 0,
                written_frames: 0,
                last_fsync_unix_ns: 0,
                dropped_frames: 0,
            }),
    {
        WriterStats {
            enqueued: 0,
            dequeued: 0,
            written_frames: 0,
            last_fsync_unix_ns: 0,
            dropped_frames: 0,
        }
    }
}

impl WriterStats {
    /// What was put in and not taken out yet.
    pub open spec fn depth(self) -> int {
        if self.enqueued >= self.dequeued {
            self.enqueued - self.dequeued
        } else {
            0
        }
    }

    pub fn record_enqueued(&mut self)
        ensures
            *final(self) == (WriterStats { enqueued: wrapped(old(self).enqueued, 1), ..*old(self) }),
    {
        self.enqueued = bump(self.enqueued, 1);
    }

    pub fn record_dequeued(&mut self)
        ensures
            *final(self) == (WriterStats { dequeued: wrapped(old(self).dequeued, 1), ..*old(self) }),
    {
        self.dequeued = bump(self.dequeued, 1);
    }

    pub fn record_written(&mut self)
        ensures
            *final(self) == (WriterStats {
                written_frames: wrapped(old(self).written_frames, 1),
                ..*old(self)
            }),
    {
        self.written_frames = bump(self.written_frames, 1);
    }

    /// Note a flush to disk that happened at `now_ns`.
    pub fn record_fsync(&mut self, now_ns: u64)
        ensures
            *final(self) == (WriterStats { last_fsync_unix_ns: now_ns, ..*old(self) }),
    {
        self.last_fsync_unix_ns = now_ns;
    }

    pub fn record_dropped(&mut self)
        ensures
            *final(self) == (WriterStats {
                dropped_frames: wrapped(old(self).dropped_frames, 1),
                ..*old(self)
            }),
    {
        self.dropped_frames = bump(self.dropped_frames, 1);
    }

    /// Records sitting in the channel; zero where the totals were read in an
    /// order that would make it negative.
    pub fn queue_depth(&self) -> (r: u64)
        ensures
            r == self.depth(),
    {
        self.enqueued.saturating_sub(self.dequeued)
    }

    /// Frames written to the file.
    pub fn written(&self) -> (r: u64)
        ensures
            r == self.written_frames,
    {
        self.written_frames
    }

    /// Raw-tee frames dropped on a full channel.
    pub fn dropped(&self) -> (r: u64)
        ensures
            r == self.dropped_frames,
    {
        self.dropped_frames
    }

    /// Nanoseconds from the last flush to `now_ns`; absent before the first. A
    /// growing age means that the thread is stuck.
    pub fn fsync_age(&self, now_ns: u64) -> (r: Option<u64>)
        ensures
            r == age(self.last_fsync_unix_ns, now_ns),
    {
        age_of(self.last_fsync_unix_ns, now_ns)
    }
}

/// How often a counter goes round on its way from `a` by `b`.
pub open spec fn rounds(a: u64, b: nat) -> int {
    (a + b) as int / 0x1_0000_0000_0000_0000
}

/// After `n` more records were put in the channel and `m` more taken out, the
/// depth is what it was and the difference, and zero where more was taken out
/// than put in. That is so while neither counter has gone round more often than
/// the other, and of other states only where zero is right by chance.
pub proof fn law_queue_depth_balances(s: WriterStats, n: nat, m: nat)
    ensures
        ({
            let later = WriterStats {
                enqueued: wrapped(s.enqueued, n as int),
                dequeued: wrapped(s.dequeued, m as int),
                ..s
            };
            let left = (s.enqueued + n) - (s.dequeued + m);
            let right = later.depth() == (if left >= 0 {
                left
            } else {
                0
            });
            &&& rounds(s.enqueued, n) == rounds(s.dequeued, m) ==> right
            &&& rounds(s.enqueued, n) != rounds(s.dequeued, m) ==> (right <==> left < 0
                && later.enqueued <= later.dequeued)
        }),
{
    reveal(wrapped);
    let r = 0x1_0000_0000_0000_0000int;
    let e = s.enqueued + n;
    let d = s.dequeued + m;
    vstd::arithmetic::div_mod::lemma_fundamental_div_mod(e, r);
    vstd::arithmetic::div_mod::lemma_fundamental_div_mod(d, r);
    if e / r != d / r {
        assert(r * (e / r) - r * (d / r) == r * (e / r - d / r)) by (nonlinear_arith);
        if e / r > d / r {
            assert(r * (e / r - d / r) >= r) by (nonlinear_arith)
                requires
                    e / r - d / r >= 1,
                    r >= 0,
            ;
        } else {
            assert(r * (e / r - d / r) <= -r) by (nonlinear_arith)
                requires
                    e / r - d / r <= -1,
                    r >= 0,
            ;
        }
    }
}

/// Per-kind event counters.
#[derive(Debug)]
pub struct CaptureStats {
    total: u64,
    by_kind: Vec<u64>,
    last_event_unix_ns: Vec<u64>,
    conn_down: u64,
}

/// What the counters hold.
pub struct CaptureView {
    pub total: u64,
    pub by_kind: Seq<u64>,
    pub last_event_unix_ns: Seq<u64>,
    pub conn_down: u64,
}

/// A copy of the counters, for rates against the previous copy.
#[derive(Debug)]
pub struct CaptureSnapshot {
    pub total: u64,
    pub by_kind: Vec<u64>,
    pub conn_down: u64,
}

impl View for CaptureStats {
    type V = CaptureView;

    closed spec fn view(&self) -> CaptureView {
        CaptureView {
            total: self.total,
            by_kind: self.by_kind@,
            last_event_unix_ns: self.last_event_unix_ns@,
            conn_down: self.conn_down,
        }
    }
}

/// The counters after `count` events of one kind at `now`.
pub open spec fn recorded(
    v: CaptureView,
    kind: EventKind,
    count: u64,
    now: u64,
    conn_down: u64,
) -> CaptureView {
    let i = kind_index(kind);
    CaptureView {
        total: wrapped(v.total, count as int),
        by_kind: v.by_kind.update(i, wrapped(v.by_kind[i], count as int)),
        last_event_unix_ns: v.last_event_unix_ns.update(i, now),
        conn_down: wrapped(v.conn_down, conn_down as int),
    }
}

fn zero_table() -> (r: Vec<u64>)
    ensures
        r@ == Seq::new(KINDS as nat, |i: int| 0u64),
{
    let mut r: Vec<u64> = Vec::new();
    let mut i: usize = 0;
    while i < KINDS
        invariant
            i <= KINDS,
            r@ == Seq::new(i as nat, |j: int| 0u64),
        decreases KINDS - i,
    {
        r.push(0);
        i = i + 1;
        assert(r@ =~= Seq::new(i as nat, |j: int| 0u64));
    }
    r
}

impl CaptureStats {
    /// One slot per kind.
    pub closed spec fn wf(self) -> bool {
        self.by_kind@.len() == KINDS && self.last_event_unix_ns@.len() == KINDS
    }

    pub fn new() -> (r: CaptureStats)
        ensures
            r.wf(),
            r@.total == 0,
            r@.conn_down == 0,
            r@.by_kind == Seq::new(KINDS as nat, |i: int| 0u64),
            r@.last_event_unix_ns == Seq::new(KINDS as nat, |i: int| 0u64),
    {
        CaptureStats {
            total: 0,
            by_kind: zero_table(),
            last_event_unix_ns: zero_table(),
            conn_down: 0,
        }
    }

    pub fn record(&mut self, kind: EventKind, count: u64, now_ns: u64, conn_down: u64)
        requires
            old(self).wf(),
        ensures
            final(self).wf(),
            final(self)@ == recorded(old(self)@, kind, count, now_ns, conn_down),
    {
        let i: usize = kind.index();
        self.total = bump(self.total, count);
        let k: u64 = bump(self.by_kind[i], count);
        self.by_kind.set(i, k);
        self.last_event_unix_ns.set(i, now_ns);
        self.conn_down = bump(self.conn_down, conn_down);
    }

    pub fn total(&self) -> (r: u64)
        ensures
            r == self@.total,
    {
        self.total
    }

    pub fn count(&self, kind: EventKind) -> (r: u64)
        requires
            self.wf(),
        ensures
            r == self@.by_kind[kind_index(kind)],
    {
        self.by_kind[kind.index()]
    }

    /// Lost connections seen so far.
    pub fn conn_down(&self) -> (r: u64)
        ensures
            r == self@.conn_down,
    {
        self.conn_down
    }

    /// Nanoseconds from the most recent event of this kind to `now_ns`; absent
    /// if there was none.
    pub fn staleness(&self, kind: EventKind, now_ns: u64) -> (r: Option<u64>)
        requires
            self.wf(),
        ensures
            r == age(self@.last_event_unix_ns[kind_index(kind)], now_ns),
    {
        age_of(self.last_event_unix_ns[kind.index()], now_ns)
    }

    pub fn snapshot(&self) -> (r: CaptureSnapshot)
        requires
            self.wf(),
        ensures
            r.total == self@.total,
            r.by_kind@ == self@.by_kind,
            r.conn_down == self@.conn_down,
    {
        CaptureSnapshot {
            total: self.total,
            by_kind: self.by_kind.clone(),
            conn_down: self.conn_down,
        }
    }
}

/// Counts the events an inner sink accepted. Only accepted events are counted,
/// so the numbers say what actually reached the log.
#[derive(Debug)]
pub struct StatsSink<S> {
    pub inner: S,
    pub stats: CaptureStats,
}

/// Whether an event says that a connection was lost.
pub open spec fn says_conn_down(e: Event) -> bool {
    e.payload matches Payload::Control(c) && c is ConnDown
}

/// How many of the events have this kind.
pub open spec fn kind_count(events: Seq<Event>, kind: EventKind) -> nat
    decreases events.len(),
{
    if events.len() == 0 {
        0
    } else {
        kind_count(events.drop_last(), kind) + (if kind_of(events.last().payload) == kind {
            1nat
        } else {
            0
        })
    }
}

/// What counts of an event: its kind, and whether it says that a connection was
/// lost. It outlives the event, which the inner sink takes.
#[derive(Debug, Clone, Copy, PartialEq, Eq, Structural)]
pub struct Seen {
    pub kind: EventKind,
    pub down: bool,
}

pub open spec fn seen_of(e: Event) -> Seen {
    Seen { kind: kind_of(e.payload), down: says_conn_down(e) }
}

impl Seen {
    pub fn of(event: &Event) -> (r: Seen)
        ensures
            r == seen_of(*event),
    {
        Seen { kind: EventKind::of(&event.payload), down: is_conn_down(event) }
    }
}

/// What counts of the events of a batch.
pub fn tally(events: &Vec<Event>) -> (r: Vec<Seen>)
    ensures
        r@ == events@.map_values(|e: Event| seen_of(e)),
{
    let mut r: Vec<Seen> = Vec::new();
    let mut i: usize = 0;
    while i < events.len()
        invariant
            i <= events@.len(),
            r@ == events@.take(i as int).map_values(|e: Event| seen_of(e)),
        decreases events@.len() - i,
    {
        r.push(Seen::of(&events[i]));
        i = i + 1;
        assert(r@ =~= events@.take(i as int).map_values(|e: Event| seen_of(e)));
    }
    assert(events@.take(i as int) =~= events@);
    r
}

/// How many of a batch have this kind.
pub open spec fn seen_count(seen: Seq<Seen>, kind: EventKind) -> nat
    decreases seen.len(),
{
    if seen.len() == 0 {
        0
    } else {
        seen_count(seen.drop_last(), kind) + (if seen.last().kind == kind {
            1nat
        } else {
            0
        })
    }
}

/// How many of a batch say that a connection was lost.
pub open spec fn down_count(seen: Seq<Seen>) -> nat
    decreases seen.len(),
{
    if seen.len() == 0 {
        0
    } else {
        down_count(seen.drop_last()) + (if seen.last().down {
            1nat
        } else {
            0
        })
    }
}

/// A tally has of every kind as many as the batch.
pub proof fn law_tally_keeps_kinds(events: Seq<Event>, kind: EventKind)
    ensures
        seen_count(events.map_values(|e: Event| seen_of(e)), kind) == kind_count(events, kind),
    decreases events.len(),
{
    if events.len() > 0 {
        let q = events.drop_last();
        law_tally_keeps_kinds(q, kind);
        assert(events.map_values(|e: Event| seen_of(e)).drop_last() =~= q.map_values(
            |e: Event| seen_of(e),
        ));
    }
}

pub fn is_conn_down(event: &Event) -> (r: bool)
    ensures
        r == says_conn_down(*event),
{
    match &event.payload {
        Payload::Control(c) => match c {
            ControlPayload::ConnDown { .. } => true,
            _ => false,
        },
        _ => false,
    }
}

/// One slot after a batch.
pub open spec fn slot_recorded(
    v: CaptureView,
    n: CaptureView,
    seen: Seq<Seen>,
    now: u64,
    i: int,
) -> bool {
    let c = seen_count(seen, kind_at(i));
    &&& n.by_kind[i] == wrapped(v.by_kind[i], c as int)
    &&& n.last_event_unix_ns[i] == (if c > 0 {
        now
    } else {
        v.last_event_unix_ns[i]
    })
}

/// The counters after a batch: every kind grows by its share of the batch, and
/// the kinds that occur are stamped with `now`.
pub open spec fn batch_recorded(
    v: CaptureView,
    n: CaptureView,
    seen: Seq<Seen>,
    now: u64,
) -> bool {
    &&& n.total == wrapped(v.total, seen.len() as int)
    &&& n.by_kind.len() == KINDS
    &&& n.last_event_unix_ns.len() == KINDS
    &&& forall|i: int| 0 <= i < KINDS ==> #[trigger] slot_recorded(v, n, seen, now, i)
    &&& n.conn_down == wrapped(v.conn_down, down_count(seen) as int)
}

proof fn lemma_batch_step(
    v: CaptureView,
    p: CaptureView,
    n: CaptureView,
    seen: Seq<Seen>,
    now: u64,
)
    requires
        seen.len() > 0,
        v.by_kind.len() == KINDS,
        v.last_event_unix_ns.len() == KINDS,
        batch_recorded(v, p, seen.drop_last(), now),
        n == recorded(
            p,
            seen.last().kind,
            1,
            now,
            if seen.last().down {
                1
            } else {
                0
            },
        ),
    ensures
        batch_recorded(v, n, seen, now),
{
    let q = seen.drop_last();
    let k = seen.last().kind;
    law_wrapped_adds(v.total, q.len() as int, 1);
    law_wrapped_adds(v.conn_down, down_count(q) as int, 1);
    law_wrapped_adds(v.conn_down, down_count(q) as int, 0);
    law_wrapped_adds(p.conn_down, 0, 0);
    assert forall|j: int| 0 <= j < KINDS implies #[trigger] slot_recorded(
        v,
        n,
        seen,
        now,
        j,
    ) by {
        law_kinds_are_indexed(k, j);
        let d = seen_count(q, kind_at(j));
        assert(slot_recorded(v, p, q, now, j));
        law_wrapped_adds(v.by_kind[j], d as int, 1);
    }
    assert(n.total == wrapped(v.total, seen.len() as int));
    assert(n.conn_down == wrapped(v.conn_down, down_count(seen) as int));
}

impl<S> StatsSink<S> {
    pub open spec fn wf(self) -> bool {
        self.stats.wf()
    }

    /// What the counters hold.
    pub open spec fn counters(self) -> CaptureView {
        self.stats@
    }

    pub fn new(inner: S) -> (r: StatsSink<S>)
        ensures
            r.wf(),
            r.inner == inner,
            r.counters().total == 0,
            r.counters().conn_down == 0,
            r.counters().by_kind == Seq::new(KINDS as nat, |i: int| 0u64),
            r.counters().last_event_unix_ns == Seq::new(KINDS as nat, |i: int| 0u64),
    {
        StatsSink { inner, stats: CaptureStats::new() }
    }

    pub fn stats(&self) -> (r: &CaptureStats)
        ensures
            r@ == self.counters(),
            self.wf() ==> r.wf(),
    {
        &self.stats
    }

    /// The inner sink was offered a batch and answered at `now_ns`. Only what it
    /// accepted is counted.
    pub fn answered(&mut self, seen: &Vec<Seen>, accepted: bool, now_ns: u64)
        requires
            old(self).wf(),
        ensures
            final(self).wf(),
            final(self).inner == old(self).inner,
            if accepted {
                batch_recorded(old(self).counters(), final(self).counters(), seen@, now_ns)
            } else {
                final(self).counters() == old(self).counters()
            },
    {
        if !accepted {
            return;
        }
        let ghost v = self.stats@;
        let mut i: usize = 0;
        proof {
            assert(seen@.take(0) =~= Seq::<Seen>::empty());
            law_wrapped_adds(v.total, 0, 0);
            law_wrapped_adds(v.conn_down, 0, 0);
            assert forall|j: int| 0 <= j < KINDS implies wrapped(#[trigger] v.by_kind[j], 0)
                == v.by_kind[j] by {
                law_wrapped_adds(v.by_kind[j], 0, 0);
            }
        }
        while i < seen.len()
            invariant
                i <= seen@.len(),
                self.stats.wf(),
                self.inner == old(self).inner,
                v.by_kind.len() == KINDS,
                v.last_event_unix_ns.len() == KINDS,
                batch_recorded(v, self.stats@, seen@.take(i as int), now_ns),
            decreases seen@.len() - i,
        {
            let ghost p = seen@.take(i as int);
            let ghost n = seen@.take(i + 1);
            let ghost before = self.stats@;
            let one: Seen = seen[i];
            let down: u64 = if one.down {
                1
            } else {
                0
            };
            self.stats.record(one.kind, 1, now_ns, down);
            i = i + 1;
            proof {
                assert(n.drop_last() =~= p);
                assert(n.last() == one);
                lemma_batch_step(v, before, self.stats@, n, now_ns);
            }
        }
        assert(seen@.take(i as int) =~= seen@);
    }
}

} // verus!
