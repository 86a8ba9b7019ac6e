//! Streaming accumulation of the quality report: constant work per event and
//! instrument, bounded memory.
use crate::events::Event;
use crate::order::NameMap;
use crate::payloads::{ControlPayload, MarketPayload, Payload};
use crate::recorder::qa::histogram::Histogram;
use crate::recorder::qa::history::{
    about, acks, admissible, after_loss, after_update, chain_breaks, closable, conn_downs,
    conn_ups, delta,
    depth_excused, depth_source, described, dropped_total, first_seen, fits, gaps, id_after,
    is_i64, kept_timeline, last_final, last_seen, last_ticker, last_trade_id, latencies,
    lemma_counts_bounded, lemma_kinds_bounded, load, loses_connection, max_local, mentioned,
    overlap_count, queueing, seen, seen_of_kind, snapshot_in, snapshots, steps_back, ticker_in,
    ticker_regressions, timeline, timeline_line, trade_regressions, trade_source,
    trades_excused, trades_in, update_in, updates, updates_follow, waits_end, weight, SnapState,
    PENDING_AT_EOF_NS, TIMELINE_CAP,
};
use crate::recorder::stats::{kind_at, kind_count, law_kinds_are_indexed, EventKind, KINDS};
use crate::text::{parse_bounded, push_u64, views};
use crate::types::{to_signed, Nanos, SourceId, Trade};
use vstd::prelude::*;
use vstd::string::*;

verus! {

// ---------------------------------------------------------------------------
// One instrument
// ---------------------------------------------------------------------------

#[derive(Debug)]
pub struct InstState {
    pub events: u64,
    pub first_local_ts: Nanos,
    pub last_local_ts: Nanos,
    pub by_kind: Vec<u64>,
    pub updates: u64,
    pub last_final: Option<u64>,
    pub last_update_source: Option<SourceId>,
    pub depth_reconnect_pending: bool,
    pub chain_breaks_explained: u64,
    pub chain_breaks_unexplained: u64,
    pub book_update_overlap: u64,
    pub snapshots: Vec<SnapState>,
    pub last_trade_id: Option<u64>,
    pub last_trade_source: Option<SourceId>,
    pub trade_reconnect_pending: bool,
    pub trade_regr_explained: u64,
    pub trade_regr_unexplained: u64,
    pub last_ticker_update_id: Option<u64>,
    pub ticker_regressions: u64,
}

/// The state holds what the events say about the instrument `name`.
pub open spec fn tells(st: InstState, h: Seq<Event>, name: Seq<char>) -> bool {
    &&& tells_coverage(st, h, name)
    &&& tells_depth(st, h, name)
    &&& tells_ids(st, h, name)
}

pub open spec fn tells_coverage(st: InstState, h: Seq<Event>, name: Seq<char>) -> bool {
    &&& st.events == seen(h, name)
    &&& st.first_local_ts == first_seen(h, name)
    &&& st.last_local_ts == last_seen(h, name)
    &&& st.by_kind@.len() == KINDS
    &&& forall|i: int|
        0 <= i < KINDS ==> #[trigger] st.by_kind@[i] == seen_of_kind(h, name, kind_at(i))
}

pub open spec fn tells_depth(st: InstState, h: Seq<Event>, name: Seq<char>) -> bool {
    &&& st.updates == updates(h, name)
    &&& st.last_final == last_final(h, name)
    &&& st.last_update_source == depth_source(h, name)
    &&& st.depth_reconnect_pending == depth_excused(h, name)
    &&& st.chain_breaks_explained == chain_breaks(h, name, true)
    &&& st.chain_breaks_unexplained == chain_breaks(h, name, false)
    &&& st.book_update_overlap == overlap_count(h, name)
    &&& st.snapshots@ == snapshots(h, name)
}

pub open spec fn tells_ids(st: InstState, h: Seq<Event>, name: Seq<char>) -> bool {
    &&& st.last_trade_id == last_trade_id(h, name)
    &&& st.last_trade_source == trade_source(h, name)
    &&& st.trade_reconnect_pending == trades_excused(h, name)
    &&& st.trade_regr_explained == trade_regressions(h, name, true)
    &&& st.trade_regr_unexplained == trade_regressions(h, name, false)
    &&& st.last_ticker_update_id == last_ticker(h, name)
    &&& st.ticker_regressions == ticker_regressions(h, name)
}

/// Nothing is known about an instrument that was not mentioned.
proof fn lemma_unmentioned(h: Seq<Event>, name: Seq<char>)
    requires
        !mentioned(h, name),
    ensures
        seen(h, name) == 0,
        first_seen(h, name) == 0,
        last_seen(h, name) == 0,
        forall|k: EventKind| #[trigger] seen_of_kind(h, name, k) == 0,
        updates(h, name) == 0,
        last_final(h, name) is None,
        depth_source(h, name) is None,
        !depth_excused(h, name),
        chain_breaks(h, name, true) == 0,
        chain_breaks(h, name, false) == 0,
        overlap_count(h, name) == 0,
        snapshots(h, name) == Seq::<SnapState>::empty(),
        last_trade_id(h, name) is None,
        trade_source(h, name) is None,
        !trades_excused(h, name),
        trade_regressions(h, name, true) == 0,
        trade_regressions(h, name, false) == 0,
        last_ticker(h, name) is None,
        ticker_regressions(h, name) == 0,
    decreases h.len(),
{
    if h.len() > 0 {
        lemma_unmentioned(h.drop_last(), name);
        assert forall|k: EventKind| #[trigger] seen_of_kind(h, name, k) == 0 by {
            assert(seen_of_kind(h.drop_last(), name, k) == 0);
        }
    }
}

/// An event about something else that loses no connection changes nothing.
proof fn lemma_untouched(st: InstState, h: Seq<Event>, e: Event, name: Seq<char>)
    requires
        tells(st, h, name),
        !about(e, name),
        !loses_connection(e),
    ensures
        tells(st, h.push(e), name),
        mentioned(h.push(e), name) == mentioned(h, name),
{
    assert(h.push(e).drop_last() =~= h);
}

impl InstState {
    fn new() -> (r: InstState)
        ensures
            forall|h: Seq<Event>, name: Seq<char>|
                !mentioned(h, name) ==> #[trigger] tells(r, h, name),
    {
        let mut by_kind: Vec<u64> = Vec::new();
        let mut i: usize = 0;
        while i < KINDS
            invariant
                i <= KINDS,
                by_kind@.len() == i,
                forall|j: int| 0 <= j < i ==> #[trigger] by_kind@[j] == 0,
            decreases KINDS - i,
        {
            by_kind.push(0);
            i = i + 1;
        }
        let r: InstState = InstState {
            events: 0,
            first_local_ts: 0,
            last_local_ts: 0,
            by_kind,
            updates: 0,
            last_final: None,
            last_update_source: None,
            depth_reconnect_pending: false,
            chain_breaks_explained: 0,
            chain_breaks_unexplained: 0,
            book_update_overlap: 0,
            snapshots: Vec::new(),
            last_trade_id: None,
            last_trade_source: None,
            trade_reconnect_pending: false,
            trade_regr_explained: 0,
            trade_regr_unexplained: 0,
            last_ticker_update_id: None,
            ticker_regressions: 0,
        };
        proof {
            assert forall|h: Seq<Event>, name: Seq<char>|
                !mentioned(h, name) implies #[trigger] tells(r, h, name) by {
                lemma_unmentioned(h, name);
            }
        }
        r
    }

    /// Coverage counters of an event about this instrument.
    fn cover(&mut self, event: &Event, Ghost(h): Ghost<Seq<Event>>, Ghost(name): Ghost<Seq<char>>)
        requires
            tells_coverage(*old(self), h, name),
            about(*event, name),
            load(h.push(*event)) <= u64::MAX,
        ensures
            tells_coverage(*final(self), h.push(*event), name),
            *final(self) == (InstState {
                events: final(self).events,
                first_local_ts: final(self).first_local_ts,
                last_local_ts: final(self).last_local_ts,
                by_kind: final(self).by_kind,
                ..*old(self)
            }),
    {
        let kind: EventKind = EventKind::of(&event.payload);
        let k: usize = kind.index();
        let ghost n = h.push(*event);
        proof {
            assert(n.drop_last() =~= h);
            lemma_counts_bounded(n, name);
            lemma_kinds_bounded(n, name, kind);
            law_kinds_are_indexed(kind, 0);
            assert(self.by_kind@[k as int] == seen_of_kind(h, name, kind_at(k as int)));
        }
        self.events = self.events + 1;
        let c: u64 = self.by_kind[k];
        self.by_kind.set(k, c + 1);
        if self.first_local_ts == 0 {
            self.first_local_ts = event.local_ts;
        }
        self.last_local_ts = event.local_ts;
        proof {
            assert forall|i: int| 0 <= i < KINDS implies #[trigger] self.by_kind@[i]
                == seen_of_kind(n, name, kind_at(i)) by {
                law_kinds_are_indexed(kind, i);
                assert(old(self).by_kind@[i] == seen_of_kind(h, name, kind_at(i)));
            }
        }
    }

    /// A depth update: chain, overlap, splices.
    fn update(
        &mut self,
        event: &Event,
        first: u64,
        last: u64,
        prev: Option<u64>,
        Ghost(h): Ghost<Seq<Event>>,
        Ghost(name): Ghost<Seq<char>>,
    )
        requires
            tells_depth(*old(self), h, name),
            tells_ids(*old(self), h, name),
            about(*event, name),
            update_in(*event) matches Some(u) && u.first == first && u.last == last && u.prev
                == prev,
            load(h.push(*event)) <= u64::MAX,
            updates_follow(old(self).snapshots@),
        ensures
            tells_depth(*final(self), h.push(*event), name),
            tells_ids(*final(self), h.push(*event), name),
            *final(self) == (InstState {
                updates: final(self).updates,
                last_final: final(self).last_final,
                last_update_source: final(self).last_update_source,
                depth_reconnect_pending: final(self).depth_reconnect_pending,
                chain_breaks_explained: final(self).chain_breaks_explained,
                chain_breaks_unexplained: final(self).chain_breaks_unexplained,
                book_update_overlap: final(self).book_update_overlap,
                snapshots: final(self).snapshots,
                ..*old(self)
            }),
    {
        let ghost n = h.push(*event);
        let ghost u = update_in(*event)->0;
        proof {
            assert(n.drop_last() =~= h);
            lemma_counts_bounded(n, name);
        }
        self.updates = self.updates + 1;
        if let (Some(pu), Some(prev_u)) = (prev, self.last_final) {
            if pu != prev_u {
                if self.depth_reconnect_pending {
                    self.chain_breaks_explained = self.chain_breaks_explained + 1;
                } else {
                    self.chain_breaks_unexplained = self.chain_breaks_unexplained + 1;
                }
            } else if first <= prev_u {
                self.book_update_overlap = self.book_update_overlap + 1;
            }
        }
        self.last_final = Some(last);
        self.last_update_source = Some(event.source);
        self.depth_reconnect_pending = false;
        let ghost before = self.snapshots@;
        let ghost held = *self;
        let mut i: usize = 0;
        while i < self.snapshots.len()
            invariant
                i <= self.snapshots@.len(),
                self.snapshots@.len() == before.len(),
                u.first == first,
                u.last == last,
                updates_follow(before),
                forall|j: int|
                    0 <= j < i ==> #[trigger] self.snapshots@[j] == after_update(before[j], u),
                forall|j: int|
                    i <= j < before.len() ==> #[trigger] self.snapshots@[j] == before[j],
                *self == (InstState { snapshots: self.snapshots, ..held }),
            decreases self.snapshots@.len() - i,
        {
            let mut snap: SnapState = self.snapshots[i];
            assert(snap == before[i as int]);
            if !snap.spliced {
                let next_needed: u64 = snap.last_update_id + 1;
                if first <= next_needed && next_needed <= last {
                    snap.spliced = true;
                }
            }
            self.snapshots.set(i, snap);
            i = i + 1;
        }
        assert(self.snapshots@ =~= before.map_values(|s: SnapState| after_update(s, u)));
    }

    /// A REST snapshot.
    fn snapshot(
        &mut self,
        event: &Event,
        last_update_id: u64,
        Ghost(h): Ghost<Seq<Event>>,
        Ghost(name): Ghost<Seq<char>>,
    )
        requires
            tells_depth(*old(self), h, name),
            tells_ids(*old(self), h, name),
            about(*event, name),
            snapshot_in(*event) == Some(last_update_id),
        ensures
            tells_depth(*final(self), h.push(*event), name),
            tells_ids(*final(self), h.push(*event), name),
            *final(self) == (InstState { snapshots: final(self).snapshots, ..*old(self) }),
    {
        assert(h.push(*event).drop_last() =~= h);
        self.snapshots.push(
            SnapState {
                last_update_id,
                local_ts: event.local_ts,
                spliced: false,
                abandoned_by_reconnect: false,
            },
        );
    }

    /// Trades: ids that are numbers have to grow.
    fn trades(
        &mut self,
        event: &Event,
        trades: &Vec<Trade>,
        Ghost(h): Ghost<Seq<Event>>,
        Ghost(name): Ghost<Seq<char>>,
    )
        requires
            tells_depth(*old(self), h, name),
            tells_ids(*old(self), h, name),
            about(*event, name),
            trades_in(*event) == Some(trades@),
            load(h.push(*event)) <= u64::MAX,
        ensures
            tells_depth(*final(self), h.push(*event), name),
            tells_ids(*final(self), h.push(*event), name),
            *final(self) == (InstState {
                last_trade_id: final(self).last_trade_id,
                last_trade_source: final(self).last_trade_source,
                trade_reconnect_pending: final(self).trade_reconnect_pending,
                trade_regr_explained: final(self).trade_regr_explained,
                trade_regr_unexplained: final(self).trade_regr_unexplained,
                ..*old(self)
            }),
    {
        let ghost n = h.push(*event);
        let ghost t = trades@;
        let ghost before = self.last_trade_id;
        proof {
            assert(n.drop_last() =~= h);
            lemma_counts_bounded(h, name);
            assert(load(n) == load(h) + 1 + t.len());
        }
        let excused: bool = self.trade_reconnect_pending;
        let ghost held = *self;
        let mut i: usize = 0;
        while i < trades.len()
            invariant
                i <= trades@.len(),
                t == trades@,
                held.trade_regr_explained + held.trade_regr_unexplained + t.len() <= u64::MAX,
                steps_back(t, i as int, before) <= i,
                self.last_trade_id == id_after(t, i as int, before),
                self.trade_regr_explained == held.trade_regr_explained + (if excused {
                    steps_back(t, i as int, before)
                } else {
                    0
                }),
                self.trade_regr_unexplained == held.trade_regr_unexplained + (if excused {
                    0
                } else {
                    steps_back(t, i as int, before)
                }),
                *self == (InstState {
                    last_trade_id: self.last_trade_id,
                    trade_regr_explained: self.trade_regr_explained,
                    trade_regr_unexplained: self.trade_regr_unexplained,
                    ..held
                }),
            decreases trades@.len() - i,
        {
            if let Some(id) = parse_bounded(trades[i].id.as_str(), u64::MAX) {
                if let Some(last) = self.last_trade_id {
                    if id <= last {
                        if excused {
                            self.trade_regr_explained = self.trade_regr_explained + 1;
                        } else {
                            self.trade_regr_unexplained = self.trade_regr_unexplained + 1;
                        }
                    }
                }
                self.last_trade_id = Some(id);
            }
            i = i + 1;
        }
        self.last_trade_source = Some(event.source);
        self.trade_reconnect_pending = false;
    }

    /// A book ticker: its update id has to grow.
    fn ticker(
        &mut self,
        event: &Event,
        update_id: u64,
        Ghost(h): Ghost<Seq<Event>>,
        Ghost(name): Ghost<Seq<char>>,
    )
        requires
            tells_depth(*old(self), h, name),
            tells_ids(*old(self), h, name),
            about(*event, name),
            ticker_in(*event) == Some(update_id),
            load(h.push(*event)) <= u64::MAX,
        ensures
            tells_depth(*final(self), h.push(*event), name),
            tells_ids(*final(self), h.push(*event), name),
            *final(self) == (InstState {
                last_ticker_update_id: final(self).last_ticker_update_id,
                ticker_regressions: final(self).ticker_regressions,
                ..*old(self)
            }),
    {
        let ghost n = h.push(*event);
        proof {
            assert(n.drop_last() =~= h);
            lemma_counts_bounded(n, name);
        }
        if let Some(last) = self.last_ticker_update_id {
            if update_id <= last {
                self.ticker_regressions = self.ticker_regressions + 1;
            }
        }
        self.last_ticker_update_id = Some(update_id);
    }

    /// An event about this instrument.
    fn observe(&mut self, event: &Event, Ghost(h): Ghost<Seq<Event>>, Ghost(name): Ghost<Seq<char>>)
        requires
            tells(*old(self), h, name),
            about(*event, name),
            load(h.push(*event)) <= u64::MAX,
            update_in(*event) is Some ==> updates_follow(old(self).snapshots@),
        ensures
            tells(*final(self), h.push(*event), name),
    {
        self.cover(event, Ghost(h), Ghost(name));
        assert(h.push(*event).drop_last() =~= h);
        match &event.payload {
            Payload::Market(m) => match m {
                MarketPayload::BookUpdate {
                    first_update_id,
                    final_update_id,
                    prev_final_update_id,
                    ..
                } => {
                    self.update(
                        event,
                        *first_update_id,
                        *final_update_id,
                        *prev_final_update_id,
                        Ghost(h),
                        Ghost(name),
                    );
                },
                MarketPayload::BookSnapshot { last_update_id, .. } => {
                    self.snapshot(event, *last_update_id, Ghost(h), Ghost(name));
                },
                MarketPayload::Trades { trades } => {
                    self.trades(event, trades, Ghost(h), Ghost(name));
                },
                MarketPayload::BookTicker { update_id, .. } => {
                    self.ticker(event, *update_id, Ghost(h), Ghost(name));
                },
                _ => {},
            },
            _ => {},
        }
    }

    /// A connection was lost: what it fed is excused from here on.
    fn lose(&mut self, event: &Event, Ghost(h): Ghost<Seq<Event>>, Ghost(name): Ghost<Seq<char>>)
        requires
            tells(*old(self), h, name),
            loses_connection(*event),
        ensures
            tells(*final(self), h.push(*event), name),
    {
        let ghost n = h.push(*event);
        assert(n.drop_last() =~= h);
        let fed_depth: bool = match self.last_update_source {
            Some(s) => s == event.source,
            None => false,
        };
        let ghost before = self.snapshots@;
        if fed_depth {
            self.depth_reconnect_pending = true;
            let ghost held = *self;
            let mut i: usize = 0;
            while i < self.snapshots.len()
                invariant
                    i <= self.snapshots@.len(),
                    self.snapshots@.len() == before.len(),
                    forall|j: int|
                        0 <= j < i ==> #[trigger] self.snapshots@[j] == after_loss(before[j]),
                    forall|j: int|
                        i <= j < before.len() ==> #[trigger] self.snapshots@[j] == before[j],
                    *self == (InstState { snapshots: self.snapshots, ..held }),
                decreases self.snapshots@.len() - i,
            {
                let mut snap: SnapState = self.snapshots[i];
                if !snap.spliced {
                    snap.abandoned_by_reconnect = true;
                }
                self.snapshots.set(i, snap);
                i = i + 1;
            }
            assert(self.snapshots@ =~= before.map_values(|s: SnapState| after_loss(s)));
        }
        let fed_trades: bool = match self.last_trade_source {
            Some(s) => s == event.source,
            None => false,
        };
        if fed_trades {
            self.trade_reconnect_pending = true;
        }
    }
}

// ---------------------------------------------------------------------------
// The whole file
// ---------------------------------------------------------------------------

#[derive(Debug)]
pub struct ControlCounts {
    pub conn_up: u64,
    pub conn_down: u64,
    pub gap_events: u64,
    pub gap_dropped_total: u64,
    pub sub_ack_ok: u64,
    pub sub_ack_failed: u64,
    pub timeline: Vec<String>,
    pub timeline_truncated: bool,
}

/// The counts hold what the control events say.
pub open spec fn tells_control(c: ControlCounts, h: Seq<Event>) -> bool {
    &&& c.conn_up == conn_ups(h)
    &&& c.conn_down == conn_downs(h)
    &&& c.gap_events == gaps(h)
    &&& c.gap_dropped_total == dropped_total(h)
    &&& c.sub_ack_ok == acks(h, true)
    &&& c.sub_ack_failed == acks(h, false)
    &&& views(c.timeline@) == kept_timeline(h)
    &&& c.timeline_truncated == (timeline(h).len() > TIMELINE_CAP)
}

fn describe(c: &ControlPayload) -> (r: String)
    ensures
        r@ == described(*c),
{
    match c {
        ControlPayload::ConnUp { label } => "ConnUp ".to_owned().concat(label.as_str()),
        ControlPayload::ConnDown { label, reason } => "ConnDown ".to_owned().concat(
            label.as_str(),
        ).concat(": ").concat(reason.as_str()),
        ControlPayload::Gap { reason, dropped } => {
            let mut s: String = "Gap ".to_owned().concat(reason.as_str()).concat(": ");
            push_u64(&mut s, *dropped);
            s
        },
        ControlPayload::SnapshotBegin => "SnapshotBegin".to_owned(),
        ControlPayload::SnapshotEnd => "SnapshotEnd".to_owned(),
        ControlPayload::SubAck { request_id, ok, .. } => {
            let mut s: String = "SubAck id=".to_owned();
            push_u64(&mut s, *request_id);
            s.append(" ok=");
            s.append(
                if *ok {
                    "true"
                } else {
                    "false"
                },
            );
            s
        },
        ControlPayload::Reorg { from_block } => {
            let mut s: String = "Reorg { from_block: ".to_owned();
            push_u64(&mut s, *from_block);
            s.append(" }");
            s
        },
    }
}

/// Streaming accumulator. Its view is the events it has seen.
pub struct Accumulator {
    total: u64,
    by_kind: Vec<u64>,
    instruments: NameMap<InstState>,
    control: ControlCounts,
    e_minus_t: Histogram,
    local_minus_venue: Vec<Histogram>,
    max_local_ts: Nanos,
    /// What the events add to the counters at most.
    load: u64,
    history: Ghost<Seq<Event>>,
}

/// What an accumulator is made of.
pub(crate) struct Parts {
    pub(crate) total: u64,
    pub(crate) by_kind: Vec<u64>,
    pub(crate) instruments: NameMap<InstState>,
    pub(crate) control: ControlCounts,
    pub(crate) e_minus_t: Histogram,
    pub(crate) local_minus_venue: Vec<Histogram>,
    pub(crate) max_local_ts: Nanos,
}

impl View for Accumulator {
    type V = Seq<Event>;

    closed spec fn view(&self) -> Seq<Event> {
        self.history@
    }
}

/// The instrument states hold what the events say, for exactly the instruments
/// that were mentioned.
pub open spec fn tells_all(m: NameMap<InstState>, h: Seq<Event>) -> bool {
    &&& m.wf()
    &&& forall|name: Seq<char>| #[trigger] m.as_map().dom().contains(name) == mentioned(h, name)
    &&& forall|i: int|
        0 <= i < m.names@.len() ==> tells(#[trigger] m.values@[i], h, m.names@[i]@)
}

/// The per-kind tables hold what the events say.
pub open spec fn tells_kinds(by_kind: Seq<u64>, h: Seq<Event>) -> bool {
    &&& by_kind.len() == KINDS
    &&& forall|i: int| 0 <= i < KINDS ==> #[trigger] by_kind[i] == kind_count(h, kind_at(i))
}

/// The latency histograms hold what the events say.
pub open spec fn tells_latency(lat: Seq<Histogram>, h: Seq<Event>) -> bool {
    &&& lat.len() == KINDS
    &&& forall|i: int|
        0 <= i < KINDS ==> (#[trigger] lat[i]).wf() && lat[i]@ == latencies(h, kind_at(i))
}

fn weight_of(event: &Event) -> (r: u128)
    ensures
        r == weight(*event),
        r <= u64::MAX + 1,
{
    match &event.payload {
        Payload::Market(MarketPayload::Trades { trades }) => {
            let n: usize = trades.len();
            1 + n as u128
        },
        _ => 1,
    }
}

fn difference_fits(a: u64, b: u64) -> (r: bool)
    ensures
        r == is_i64(delta(a, b)),
{
    let d: i128 = to_signed(a) as i128 - to_signed(b) as i128;
    i64::MIN as i128 <= d && d <= i64::MAX as i128
}

fn event_fits(event: &Event) -> (r: bool)
    ensures
        r == fits(*event),
{
    if let Some(venue_ts) = event.venue_ts {
        if !difference_fits(event.local_ts, venue_ts) {
            return false;
        }
    }
    match &event.payload {
        Payload::Market(MarketPayload::BookUpdate { event_time, .. }) => match (
            event_time,
            event.venue_ts,
        ) {
            (Some(t), Some(venue_ts)) => event.instrument.is_none() || difference_fits(
                *t,
                venue_ts,
            ),
            _ => true,
        },
        _ => true,
    }
}

/// Whether every snapshot that still waits has an id behind it.
fn all_follow(snaps: &Vec<SnapState>) -> (r: bool)
    ensures
        r == updates_follow(snaps@),
{
    let mut i: usize = 0;
    while i < snaps.len()
        invariant
            i <= snaps@.len(),
            forall|j: int|
                0 <= j < i && !(#[trigger] snaps@[j]).spliced ==> snaps@[j].last_update_id
                    < u64::MAX,
        decreases snaps@.len() - i,
    {
        if !snaps[i].spliced && snaps[i].last_update_id == u64::MAX {
            assert(!snaps@[i as int].spliced);
            return false;
        }
        i = i + 1;
    }
    true
}

/// Whether the wait of every snapshot has an end.
fn all_end(snaps: &Vec<SnapState>) -> (r: bool)
    ensures
        r == waits_end(snaps@),
{
    let mut i: usize = 0;
    while i < snaps.len()
        invariant
            i <= snaps@.len(),
            forall|j: int|
                0 <= j < i && !(#[trigger] snaps@[j]).spliced && !snaps@[j].abandoned_by_reconnect
                    ==> snaps@[j].local_ts + PENDING_AT_EOF_NS <= u64::MAX,
        decreases snaps@.len() - i,
    {
        if !snaps[i].spliced && !snaps[i].abandoned_by_reconnect && snaps[i].local_ts > u64::MAX
            - PENDING_AT_EOF_NS {
            assert(!snaps@[i as int].spliced);
            return false;
        }
        i = i + 1;
    }
    true
}

impl Accumulator {
    pub closed spec fn wf(self) -> bool {
        let h = self.history@;
        &&& self.load == load(h)
        &&& self.total == h.len()
        &&& self.max_local_ts == max_local(h)
        &&& tells_kinds(self.by_kind@, h)
        &&& tells_control(self.control, h)
        &&& tells_latency(self.local_minus_venue@, h)
        &&& self.e_minus_t.wf()
        &&& self.e_minus_t@ == queueing(h)
        &&& tells_all(self.instruments, h)
    }

    pub fn new() -> (r: Accumulator)
        ensures
            r.wf(),
            r@ == Seq::<Event>::empty(),
    {
        let ghost h = Seq::<Event>::empty();
        let mut by_kind: Vec<u64> = Vec::new();
        let mut lat: Vec<Histogram> = Vec::new();
        let mut i: usize = 0;
        while i < KINDS
            invariant
                i <= KINDS,
                by_kind@.len() == i,
                lat@.len() == i,
                h == Seq::<Event>::empty(),
                forall|j: int| 0 <= j < i ==> #[trigger] by_kind@[j] == 0,
                forall|j: int|
                    0 <= j < i ==> (#[trigger] lat@[j]).wf() && lat@[j]@ == Seq::<int>::empty(),
            decreases KINDS - i,
        {
            by_kind.push(0);
            lat.push(Histogram::new());
            i = i + 1;
        }
        let r: Accumulator = Accumulator {
            total: 0,
            by_kind,
            instruments: NameMap::new(),
            control: ControlCounts {
                conn_up: 0,
                conn_down: 0,
                gap_events: 0,
                gap_dropped_total: 0,
                sub_ack_ok: 0,
                sub_ack_failed: 0,
                timeline: Vec::new(),
                timeline_truncated: false,
            },
            e_minus_t: Histogram::new(),
            local_minus_venue: lat,
            max_local_ts: 0,
            load: 0,
            history: Ghost(h),
        };
        assert(views(r.control.timeline@) =~= kept_timeline(h));
        r
    }

    /// What a well-formed accumulator holds.
    pub(crate) proof fn lemma_contents(self)
        requires
            self.wf(),
        ensures
            load(self@) <= u64::MAX,
    {
    }

    /// Take the accumulator apart.
    pub(crate) fn into_parts(self) -> (r: Parts)
        requires
            self.wf(),
        ensures
            r.total == self@.len(),
            r.max_local_ts == max_local(self@),
            tells_kinds(r.by_kind@, self@),
            tells_control(r.control, self@),
            tells_latency(r.local_minus_venue@, self@),
            r.e_minus_t.wf(),
            r.e_minus_t@ == queueing(self@),
            tells_all(r.instruments, self@),
    {
        Parts {
            total: self.total,
            by_kind: self.by_kind,
            instruments: self.instruments,
            control: self.control,
            e_minus_t: self.e_minus_t,
            local_minus_venue: self.local_minus_venue,
            max_local_ts: self.max_local_ts,
        }
    }

    /// How many events were pushed.
    pub fn total(&self) -> (r: u64)
        requires
            self.wf(),
        ensures
            r == self@.len(),
    {
        self.total
    }

    /// Whether an event can be taken in: its times differ by what a signed
    /// number of nanoseconds holds, the snapshots it is held against have an id
    /// behind them, and no counter would overflow.
    pub fn admits(&self, event: &Event) -> (r: bool)
        requires
            self.wf(),
        ensures
            r == admissible(self@, *event),
    {
        proof {
            assert(self@.push(*event).drop_last() =~= self@);
        }
        let dropped: u64 = match &event.payload {
            Payload::Control(ControlPayload::Gap { dropped, .. }) => *dropped,
            _ => 0,
        };
        event_fits(event) && self.follows(event) && self.load as u128 + weight_of(event)
            <= u64::MAX as u128 && self.control.gap_dropped_total as u128 + dropped as u128
            <= u64::MAX as u128
    }

    /// Whether the snapshots that an update is held against have an id behind
    /// them.
    fn follows(&self, event: &Event) -> (r: bool)
        requires
            self.wf(),
        ensures
            r == (update_in(*event) is Some && event.instrument is Some ==> updates_follow(
                snapshots(self@, event.instrument->0.value@),
            )),
    {
        let name: &String = match (&event.payload, &event.instrument) {
            (Payload::Market(MarketPayload::BookUpdate { .. }), Some(id)) => &id.value,
            _ => {
                return true;
            },
        };
        match self.instruments.position(name.as_str()) {
            Some(i) => {
                assert(tells(self.instruments.values@[i as int], self@, name@));
                all_follow(&self.instruments.values[i].snapshots)
            },
            None => {
                proof {
                    assert(self.instruments.as_map().dom().contains(name@) == mentioned(
                        self@,
                        name@,
                    ));
                    lemma_unmentioned(self@, name@);
                }
                true
            },
        }
    }

    /// Whether the books can be closed: the wait of every snapshot has an end.
    pub fn can_finish(&self) -> (r: bool)
        requires
            self.wf(),
        ensures
            r == closable(self@),
    {
        let ghost h = self@;
        let ghost m = self.instruments;
        let mut i: usize = 0;
        while i < self.instruments.names.len()
            invariant
                h == self@,
                m == self.instruments,
                tells_all(m, h),
                i <= m.names@.len(),
                forall|j: int|
                    0 <= j < i ==> waits_end(snapshots(h, (#[trigger] m.names@[j])@)),
            decreases m.names@.len() - i,
        {
            assert(tells(m.values@[i as int], h, m.names@[i as int]@));
            if !all_end(&self.instruments.values[i].snapshots) {
                proof {
                    m.lemma_entry(i as int);
                    assert(m.as_map().dom().contains(m.names@[i as int]@));
                    assert(mentioned(h, m.names@[i as int]@));
                }
                return false;
            }
            i = i + 1;
        }
        proof {
            assert forall|name: Seq<char>| #[trigger] mentioned(h, name) implies waits_end(
                snapshots(h, name),
            ) by {
                assert(m.as_map().dom().contains(name));
                let j = views(m.names@).index_of(name);
                assert(m.names@[j]@ == name);
            }
        }
        true
    }

    /// Take one event in.
    pub fn push(&mut self, event: &Event)
        requires
            old(self).wf(),
            admissible(old(self)@, *event),
        ensures
            final(self).wf(),
            final(self)@ == old(self)@.push(*event),
    {
        let ghost h = self.history@;
        let ghost n = h.push(*event);
        let kind: EventKind = EventKind::of(&event.payload);
        let k: usize = kind.index();
        proof {
            assert(n.drop_last() =~= h);
            lemma_counts_bounded(n, Seq::empty());
            lemma_kinds_bounded(n, Seq::empty(), kind);
            law_kinds_are_indexed(kind, 0);
            assert(self.by_kind@[k as int] == kind_count(h, kind_at(k as int)));
            self.history = Ghost(n);
        }
        self.load = (self.load as u128 + weight_of(event)) as u64;
        self.total = self.total + 1;
        let c: u64 = self.by_kind[k];
        self.by_kind.set(k, c + 1);
        if event.local_ts > self.max_local_ts {
            self.max_local_ts = event.local_ts;
        }
        proof {
            assert forall|i: int| 0 <= i < KINDS implies #[trigger] self.by_kind@[i] == kind_count(
                n,
                kind_at(i),
            ) by {
                law_kinds_are_indexed(kind, i);
                assert(old(self).by_kind@[i] == kind_count(h, kind_at(i)));
            }
        }
        if let Some(venue_ts) = event.venue_ts {
            let d: i64 = to_signed(event.local_ts) - to_signed(venue_ts);
            assert(self.local_minus_venue@[k as int].wf());
            self.local_minus_venue[k].record(d);
        }
        proof {
            assert forall|i: int| 0 <= i < KINDS implies (#[trigger] self.local_minus_venue@[i]).wf()
                && self.local_minus_venue@[i]@ == latencies(n, kind_at(i)) by {
                law_kinds_are_indexed(kind, i);
                assert(old(self).local_minus_venue@[i].wf());
            }
        }
        if let Payload::Control(p) = &event.payload {
            self.push_control(event, p, Ghost(h));
            return;
        }
        assert(self.control == old(self).control);
        let instrument: &String = match &event.instrument {
            Some(i) => &i.value,
            None => {
                proof {
                    lemma_all_untouched(self.instruments, h, *event);
                }
                return;
            },
        };
        if let Payload::Market(
            MarketPayload::BookUpdate { event_time: Some(et), .. },
        ) = &event.payload {
            if let Some(vt) = event.venue_ts {
                let d: i64 = to_signed(*et) - to_signed(vt);
                self.e_minus_t.record(d);
            }
        }
        self.push_instrument(event, instrument, Ghost(h));
    }

    fn push_instrument(&mut self, event: &Event, name: &String, Ghost(h): Ghost<Seq<Event>>)
        requires
            tells_all(old(self).instruments, h),
            about(*event, name@),
            !loses_connection(*event),
            update_in(*event) is Some ==> updates_follow(snapshots(h, name@)),
            load(h.push(*event)) <= u64::MAX,
        ensures
            tells_all(final(self).instruments, h.push(*event)),
            *final(self) == (Accumulator { instruments: final(self).instruments, ..*old(self) }),
    {
        let ghost n = h.push(*event);
        let ghost m0 = self.instruments;
        let i: usize = match self.instruments.position(name.as_str()) {
            Some(i) => i,
            None => {
                let fresh: InstState = InstState::new();
                assert(tells(fresh, h, name@));
                self.instruments.put(name.clone(), fresh);
                match self.instruments.position(name.as_str()) {
                    Some(i) => i,
                    None => {
                        // The name was put in just now.
                        assert(false);
                        0
                    },
                }
            },
        };
        let ghost m1 = self.instruments;
        proof {
            assert forall|j: int| 0 <= j < m1.names@.len() implies tells(
                #[trigger] m1.values@[j],
                h,
                m1.names@[j]@,
            ) by {
                m1.lemma_entry(j);
                let nm = m1.names@[j]@;
                if m0.as_map().dom().contains(nm) {
                    let q = views(m0.names@).index_of(nm);
                    m0.lemma_entry(q);
                    assert(m0.names@[q]@ == nm);
                    assert(tells(m0.values@[q], h, nm));
                }
            }
        }
        self.instruments.values[i].observe(event, Ghost(h), Ghost(name@));
        proof {
            let m2 = self.instruments;
            m1.lemma_keeps(m2);
            assert(n.drop_last() =~= h);
            assert forall|nm: Seq<char>| #[trigger] m2.as_map().dom().contains(nm) == mentioned(
                n,
                nm,
            ) by {
                assert(m1.as_map().dom().contains(nm) == (nm == name@ || m0.as_map().dom().contains(
                    nm,
                )));
                assert(m0.as_map().dom().contains(nm) == mentioned(h, nm));
            }
            assert forall|j: int| 0 <= j < m2.names@.len() implies tells(
                #[trigger] m2.values@[j],
                n,
                m2.names@[j]@,
            ) by {
                if j != i {
                    m1.lemma_distinct(i as int, j);
                    assert(m2.values@[j] == m1.values@[j]);
                    lemma_untouched(m1.values@[j], h, *event, m1.names@[j]@);
                }
            }
        }
    }

    fn push_control(&mut self, event: &Event, c: &ControlPayload, Ghost(h): Ghost<Seq<Event>>)
        requires
            event.payload == Payload::Control(*c),
            tells_all(old(self).instruments, h),
            tells_control(old(self).control, h),
            load(h.push(*event)) <= u64::MAX,
            dropped_total(h.push(*event)) <= u64::MAX,
        ensures
            tells_all(final(self).instruments, h.push(*event)),
            tells_control(final(self).control, h.push(*event)),
            *final(self) == (Accumulator {
                instruments: final(self).instruments,
                control: final(self).control,
                ..*old(self)
            }),
    {
        let ghost n = h.push(*event);
        proof {
            assert(n.drop_last() =~= h);
            lemma_counts_bounded(n, Seq::empty());
        }
        match c {
            ControlPayload::ConnUp { .. } => {
                self.control.conn_up = self.control.conn_up + 1;
            },
            ControlPayload::ConnDown { .. } => {
                self.control.conn_down = self.control.conn_down + 1;
                self.lose_all(event, Ghost(h));
            },
            ControlPayload::Gap { dropped, .. } => {
                self.control.gap_events = self.control.gap_events + 1;
                self.control.gap_dropped_total = self.control.gap_dropped_total + *dropped;
            },
            ControlPayload::SubAck { ok, .. } => {
                if *ok {
                    self.control.sub_ack_ok = self.control.sub_ack_ok + 1;
                } else {
                    self.control.sub_ack_failed = self.control.sub_ack_failed + 1;
                }
            },
            _ => {},
        }
        proof {
            if !loses_connection(*event) {
                lemma_all_untouched(self.instruments, h, *event);
            }
        }
        if self.control.timeline.len() < TIMELINE_CAP {
            let mut line: String = "local_ts=".to_owned();
            push_u64(&mut line, event.local_ts);
            line.append(" ");
            line.append(describe(c).as_str());
            self.control.timeline.push(line);
        } else {
            self.control.timeline_truncated = true;
        }
        proof {
            let t = timeline(h);
            let line = timeline_line(event.local_ts, *c);
            assert(timeline(n) == t.push(line));
            let o = views(old(self).control.timeline@);
            assert(o == kept_timeline(h));
            if o.len() < TIMELINE_CAP {
                assert(views(self.control.timeline@) =~= o.push(line));
            } else {
                assert(kept_timeline(n) =~= o);
            }
        }
    }

    /// A lost connection reaches every instrument.
    fn lose_all(&mut self, event: &Event, Ghost(h): Ghost<Seq<Event>>)
        requires
            tells_all(old(self).instruments, h),
            loses_connection(*event),
        ensures
            tells_all(final(self).instruments, h.push(*event)),
            *final(self) == (Accumulator { instruments: final(self).instruments, ..*old(self) }),
    {
        let ghost n = h.push(*event);
        let ghost m0 = self.instruments;
        let ghost held = *self;
        let mut i: usize = 0;
        while i < self.instruments.values.len()
            invariant
                i <= m0.values@.len(),
                m0.wf(),
                loses_connection(*event),
                n == h.push(*event),
                self.instruments.names == m0.names,
                self.instruments.values@.len() == m0.values@.len(),
                forall|j: int|
                    0 <= j < m0.names@.len() ==> tells(#[trigger] m0.values@[j], h, m0.names@[j]@),
                forall|j: int|
                    0 <= j < i ==> tells(#[trigger] self.instruments.values@[j], n, m0.names@[j]@),
                forall|j: int|
                    i <= j < m0.names@.len() ==> #[trigger] self.instruments.values@[j]
                        == m0.values@[j],
                *self == (Accumulator { instruments: self.instruments, ..held }),
            decreases m0.values@.len() - i,
        {
            assert(self.instruments.values@[i as int] == m0.values@[i as int]);
            self.instruments.values[i].lose(event, Ghost(h), Ghost(m0.names@[i as int]@));
            i = i + 1;
        }
        proof {
            assert(n.drop_last() =~= h);
            m0.lemma_keeps(self.instruments);
            assert forall|nm: Seq<char>| #[trigger]
                self.instruments.as_map().dom().contains(nm) == mentioned(n, nm) by {
                assert(m0.as_map().dom().contains(nm) == mentioned(h, nm));
            }
        }
    }
}

proof fn lemma_all_untouched(m: NameMap<InstState>, h: Seq<Event>, e: Event)
    requires
        tells_all(m, h),
        !loses_connection(e),
        e.payload is Control || e.instrument is None,
    ensures
        tells_all(m, h.push(e)),
{
    let n = h.push(e);
    assert(n.drop_last() =~= h);
    assert forall|name: Seq<char>| #[trigger] m.as_map().dom().contains(name) == mentioned(
        n,
        name,
    ) by {
        assert(m.as_map().dom().contains(name) == mentioned(h, name));
    }
    assert forall|i: int| 0 <= i < m.names@.len() implies tells(
        #[trigger] m.values@[i],
        n,
        m.names@[i]@,
    ) by {
        lemma_untouched(m.values@[i], h, e, m.names@[i]@);
    }
}

} // verus!
