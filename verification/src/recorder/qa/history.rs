//! What a day of events says: every quantity of the quality report as a
//! function of the events seen, in order.
use crate::events::{instrument_view, Event};
use crate::payloads::{ControlPayload, MarketPayload, Payload};
use crate::recorder::stats::{kind_count, kind_of, EventKind};
use crate::text::{dec, parse_uint};
use crate::types::{signed, Nanos, SourceId, Trade};
use vstd::prelude::*;

verus! {

/// The signed difference of two timestamps.
pub open spec fn delta(a: u64, b: u64) -> int {
    signed(a) - signed(b)
}

pub open spec fn is_i64(d: int) -> bool {
    i64::MIN <= d <= i64::MAX
}

/// A snapshot still unspliced this close to the end of the file is pending: its
/// continuation lands in the next file.
pub const PENDING_AT_EOF_NS: u64 = 60_000_000_000;

/// Control-timeline cap: a flapping day must not balloon the report.
pub const TIMELINE_CAP: usize = 500;

// ---------------------------------------------------------------------------
// Reading one event
// ---------------------------------------------------------------------------

/// The event is about the instrument `name`: not a control event, and keyed so.
pub open spec fn about(e: Event, name: Seq<char>) -> bool {
    !(e.payload is Control) && instrument_view(e.instrument) == Some(name)
}

/// A depth update as quality assurance sees it.
pub struct Update {
    pub first: u64,
    pub last: u64,
    pub prev: Option<u64>,
    pub event_time: Option<Nanos>,
}

pub open spec fn update_in(e: Event) -> Option<Update> {
    match e.payload {
        Payload::Market(
            MarketPayload::BookUpdate {
                first_update_id,
                final_update_id,
                prev_final_update_id,
                event_time,
                ..
            },
        ) => Some(
            Update {
                first: first_update_id,
                last: final_update_id,
                prev: prev_final_update_id,
                event_time,
            },
        ),
        _ => None,
    }
}

/// The book version of a snapshot.
pub open spec fn snapshot_in(e: Event) -> Option<u64> {
    match e.payload {
        Payload::Market(MarketPayload::BookSnapshot { last_update_id, .. }) => Some(last_update_id),
        _ => None,
    }
}

pub open spec fn trades_in(e: Event) -> Option<Seq<Trade>> {
    match e.payload {
        Payload::Market(MarketPayload::Trades { trades }) => Some(trades@),
        _ => None,
    }
}

pub open spec fn ticker_in(e: Event) -> Option<u64> {
    match e.payload {
        Payload::Market(MarketPayload::BookTicker { update_id, .. }) => Some(update_id),
        _ => None,
    }
}

/// The event is a depth update of `name`.
pub open spec fn updates_book(e: Event, name: Seq<char>) -> bool {
    about(e, name) && update_in(e) is Some
}

/// The event brings trades of `name`.
pub open spec fn brings_trades(e: Event, name: Seq<char>) -> bool {
    about(e, name) && trades_in(e) is Some
}

/// The event says that the connection it comes from was lost.
pub open spec fn loses_connection(e: Event) -> bool {
    e.payload matches Payload::Control(c) && c is ConnDown
}

/// The latencies an event is measured by fit a signed 64-bit number.
pub open spec fn fits(e: Event) -> bool {
    &&& e.venue_ts matches Some(v) ==> is_i64(delta(e.local_ts, v))
    &&& e.instrument is Some ==> (update_in(e) matches Some(u) ==> (u.event_time matches Some(t)
        ==> (e.venue_ts matches Some(v) ==> is_i64(delta(t, v)))))
}

/// What an event adds to a counter of events or trades at most.
pub open spec fn weight(e: Event) -> nat {
    match e.payload {
        Payload::Market(MarketPayload::Trades { trades }) => 1 + trades@.len(),
        _ => 1,
    }
}

// ---------------------------------------------------------------------------
// The whole file
// ---------------------------------------------------------------------------

/// No counter of events or trades exceeds this.
pub open spec fn load(h: Seq<Event>) -> nat
    decreases h.len(),
{
    if h.len() == 0 {
        0
    } else {
        load(h.drop_last()) + weight(h.last())
    }
}

pub open spec fn max_local(h: Seq<Event>) -> u64
    decreases h.len(),
{
    if h.len() == 0 {
        0
    } else if h.last().local_ts > max_local(h.drop_last()) {
        h.last().local_ts
    } else {
        max_local(h.drop_last())
    }
}

/// Capture latencies of one kind: local minus venue time.
pub open spec fn latencies(h: Seq<Event>, kind: EventKind) -> Seq<int>
    decreases h.len(),
{
    if h.len() == 0 {
        Seq::empty()
    } else {
        let p = latencies(h.drop_last(), kind);
        let e = h.last();
        match e.venue_ts {
            Some(v) if kind_of(e.payload) == kind => p.push(delta(e.local_ts, v)),
            _ => p,
        }
    }
}

/// Venue-side queueing of depth updates: event minus transaction time.
pub open spec fn queueing(h: Seq<Event>) -> Seq<int>
    decreases h.len(),
{
    if h.len() == 0 {
        Seq::empty()
    } else {
        let p = queueing(h.drop_last());
        let e = h.last();
        match (update_in(e), e.venue_ts) {
            (Some(u), Some(v)) if e.instrument is Some && u.event_time is Some => p.push(
                delta(u.event_time->0, v),
            ),
            _ => p,
        }
    }
}

// ---------------------------------------------------------------------------
// Control events
// ---------------------------------------------------------------------------

/// How many control events pass a test.
pub open spec fn controls(h: Seq<Event>, test: spec_fn(ControlPayload) -> bool) -> nat
    decreases h.len(),
{
    if h.len() == 0 {
        0
    } else {
        controls(h.drop_last(), test) + (match h.last().payload {
            Payload::Control(c) => if test(c) {
                1nat
            } else {
                0
            },
            _ => 0,
        })
    }
}

pub open spec fn conn_ups(h: Seq<Event>) -> nat {
    controls(h, |c: ControlPayload| c is ConnUp)
}

pub open spec fn conn_downs(h: Seq<Event>) -> nat {
    controls(h, |c: ControlPayload| c is ConnDown)
}

pub open spec fn gaps(h: Seq<Event>) -> nat {
    controls(h, |c: ControlPayload| c is Gap)
}

pub open spec fn acks(h: Seq<Event>, good: bool) -> nat {
    controls(h, |c: ControlPayload| c matches ControlPayload::SubAck { ok, .. } && ok == good)
}

/// Events that lossy hops reported as dropped.
pub open spec fn dropped_total(h: Seq<Event>) -> nat
    decreases h.len(),
{
    if h.len() == 0 {
        0
    } else {
        dropped_total(h.drop_last()) + (match h.last().payload {
            Payload::Control(ControlPayload::Gap { dropped, .. }) => dropped as nat,
            _ => 0,
        })
    }
}

pub open spec fn bool_text(b: bool) -> Seq<char> {
    if b {
        "true"@
    } else {
        "false"@
    }
}

/// How the timeline describes a control event.
pub open spec fn described(c: ControlPayload) -> Seq<char> {
    match c {
        ControlPayload::ConnUp { label } => "ConnUp "@ + label@,
        ControlPayload::ConnDown { label, reason } => "ConnDown "@ + label@ + ": "@ + reason@,
        ControlPayload::Gap { reason, dropped } => "Gap "@ + reason@ + ": "@ + dec(dropped as nat),
        ControlPayload::SnapshotBegin => "SnapshotBegin"@,
        ControlPayload::SnapshotEnd => "SnapshotEnd"@,
        ControlPayload::SubAck { request_id, ok, .. } => "SubAck id="@ + dec(request_id as nat)
            + " ok="@ + bool_text(ok),
        ControlPayload::Reorg { from_block } => "Reorg { from_block: "@ + dec(from_block as nat)
            + " }"@,
    }
}

pub open spec fn timeline_line(local_ts: u64, c: ControlPayload) -> Seq<char> {
    "local_ts="@ + dec(local_ts as nat) + " "@ + described(c)
}

/// The lines of all control events, in order.
pub open spec fn timeline(h: Seq<Event>) -> Seq<Seq<char>>
    decreases h.len(),
{
    if h.len() == 0 {
        Seq::empty()
    } else {
        let p = timeline(h.drop_last());
        match h.last().payload {
            Payload::Control(c) => p.push(timeline_line(h.last().local_ts, c)),
            _ => p,
        }
    }
}

/// The lines the report keeps: the first `TIMELINE_CAP`.
pub open spec fn kept_timeline(h: Seq<Event>) -> Seq<Seq<char>> {
    if timeline(h).len() <= TIMELINE_CAP {
        timeline(h)
    } else {
        timeline(h).take(TIMELINE_CAP as int)
    }
}

// ---------------------------------------------------------------------------
// One instrument: coverage
// ---------------------------------------------------------------------------

/// Some event is about `name`.
pub open spec fn mentioned(h: Seq<Event>, name: Seq<char>) -> bool
    decreases h.len(),
{
    h.len() > 0 && (about(h.last(), name) || mentioned(h.drop_last(), name))
}

/// How many events of this kind are about `name`.
pub open spec fn seen_of_kind(h: Seq<Event>, name: Seq<char>, kind: EventKind) -> nat
    decreases h.len(),
{
    if h.len() == 0 {
        0
    } else {
        seen_of_kind(h.drop_last(), name, kind) + (if about(h.last(), name) && kind_of(
            h.last().payload,
        ) == kind {
            1nat
        } else {
            0
        })
    }
}

/// How many events are about `name`.
pub open spec fn seen(h: Seq<Event>, name: Seq<char>) -> nat
    decreases h.len(),
{
    if h.len() == 0 {
        0
    } else {
        seen(h.drop_last(), name) + (if about(h.last(), name) {
            1nat
        } else {
            0
        })
    }
}

/// The first non-zero receive time.
pub open spec fn first_seen(h: Seq<Event>, name: Seq<char>) -> u64
    decreases h.len(),
{
    if h.len() == 0 {
        0
    } else {
        let p = first_seen(h.drop_last(), name);
        if about(h.last(), name) && p == 0 {
            h.last().local_ts
        } else {
            p
        }
    }
}

/// The last receive time.
pub open spec fn last_seen(h: Seq<Event>, name: Seq<char>) -> u64
    decreases h.len(),
{
    if h.len() == 0 {
        0
    } else if about(h.last(), name) {
        h.last().local_ts
    } else {
        last_seen(h.drop_last(), name)
    }
}

// ---------------------------------------------------------------------------
// One instrument: the depth chain
// ---------------------------------------------------------------------------

/// Depth updates of `name`.
pub open spec fn updates(h: Seq<Event>, name: Seq<char>) -> nat
    decreases h.len(),
{
    if h.len() == 0 {
        0
    } else {
        updates(h.drop_last(), name) + (if updates_book(h.last(), name) {
            1nat
        } else {
            0
        })
    }
}

/// The final id of the latest depth update.
pub open spec fn last_final(h: Seq<Event>, name: Seq<char>) -> Option<u64>
    decreases h.len(),
{
    if h.len() == 0 {
        None
    } else if updates_book(h.last(), name) {
        Some(update_in(h.last())->0.last)
    } else {
        last_final(h.drop_last(), name)
    }
}

/// The connection that fed the latest depth update.
pub open spec fn depth_source(h: Seq<Event>, name: Seq<char>) -> Option<SourceId>
    decreases h.len(),
{
    if h.len() == 0 {
        None
    } else if updates_book(h.last(), name) {
        Some(h.last().source)
    } else {
        depth_source(h.drop_last(), name)
    }
}

/// The connection that fed the latest depth update was lost since: the next
/// break is excused.
pub open spec fn depth_excused(h: Seq<Event>, name: Seq<char>) -> bool
    decreases h.len(),
{
    if h.len() == 0 {
        false
    } else if updates_book(h.last(), name) {
        false
    } else if loses_connection(h.last()) && depth_source(h.drop_last(), name) == Some(
        h.last().source,
    ) {
        true
    } else {
        depth_excused(h.drop_last(), name)
    }
}

/// The event breaks the chain behind `h`: it names a predecessor, and that is
/// not the latest update.
pub open spec fn breaks_chain(h: Seq<Event>, e: Event, name: Seq<char>) -> bool {
    updates_book(e, name) && (update_in(e)->0.prev matches Some(pu) && (last_final(
        h,
        name,
    ) matches Some(u) && pu != u))
}

/// The event continues the chain behind `h` but reaches back into what was
/// already covered.
pub open spec fn overlaps(h: Seq<Event>, e: Event, name: Seq<char>) -> bool {
    updates_book(e, name) && (update_in(e)->0.prev matches Some(pu) && (last_final(
        h,
        name,
    ) matches Some(u) && pu == u && update_in(e)->0.first <= u))
}

/// Chain breaks, excused or not.
pub open spec fn chain_breaks(h: Seq<Event>, name: Seq<char>, excused: bool) -> nat
    decreases h.len(),
{
    if h.len() == 0 {
        0
    } else {
        let p = h.drop_last();
        chain_breaks(p, name, excused) + (if breaks_chain(p, h.last(), name) && depth_excused(
            p,
            name,
        ) == excused {
            1nat
        } else {
            0
        })
    }
}

pub open spec fn overlap_count(h: Seq<Event>, name: Seq<char>) -> nat
    decreases h.len(),
{
    if h.len() == 0 {
        0
    } else {
        overlap_count(h.drop_last(), name) + (if overlaps(h.drop_last(), h.last(), name) {
            1nat
        } else {
            0
        })
    }
}

// ---------------------------------------------------------------------------
// One instrument: snapshots
// ---------------------------------------------------------------------------

/// What became of a snapshot so far.
#[derive(Debug, Clone, Copy, PartialEq, Eq, Structural)]
pub struct SnapState {
    pub last_update_id: u64,
    pub local_ts: Nanos,
    /// An update continued it.
    pub spliced: bool,
    /// The connection feeding the instrument was lost while the snapshot still
    /// waited: the splice window was cut short, not the data path.
    pub abandoned_by_reconnect: bool,
}

/// The update continues a snapshot of version `id`.
pub open spec fn continues(u: Update, id: u64) -> bool {
    u.first <= id + 1 <= u.last
}

pub open spec fn after_update(s: SnapState, u: Update) -> SnapState {
    SnapState { spliced: s.spliced || continues(u, s.last_update_id), ..s }
}

pub open spec fn after_loss(s: SnapState) -> SnapState {
    SnapState { abandoned_by_reconnect: s.abandoned_by_reconnect || !s.spliced, ..s }
}

/// The snapshots of `name`, in order, with what became of them.
pub open spec fn snapshots(h: Seq<Event>, name: Seq<char>) -> Seq<SnapState>
    decreases h.len(),
{
    if h.len() == 0 {
        Seq::empty()
    } else {
        let p = snapshots(h.drop_last(), name);
        let e = h.last();
        if updates_book(e, name) {
            p.map_values(|s: SnapState| after_update(s, update_in(e)->0))
        } else if about(e, name) && snapshot_in(e) is Some {
            p.push(
                SnapState {
                    last_update_id: snapshot_in(e)->0,
                    local_ts: e.local_ts,
                    spliced: false,
                    abandoned_by_reconnect: false,
                },
            )
        } else if loses_connection(e) && depth_source(h.drop_last(), name) == Some(e.source) {
            p.map_values(|s: SnapState| after_loss(s))
        } else {
            p
        }
    }
}

/// Every snapshot that still waits for the update behind it has an id behind it.
pub open spec fn updates_follow(s: Seq<SnapState>) -> bool {
    forall|i: int|
        0 <= i < s.len() && !(#[trigger] s[i]).spliced ==> s[i].last_update_id < u64::MAX
}

/// Every snapshot that was neither spliced nor abandoned has an end of its wait.
pub open spec fn waits_end(s: Seq<SnapState>) -> bool {
    forall|i: int|
        0 <= i < s.len() && !(#[trigger] s[i]).spliced && !s[i].abandoned_by_reconnect
            ==> s[i].local_ts + PENDING_AT_EOF_NS <= u64::MAX
}

/// An event can be taken in behind `h`: its latencies fit, the snapshots that it
/// is held against have an id behind them, and no counter overflows.
pub open spec fn admissible(h: Seq<Event>, e: Event) -> bool {
    &&& fits(e)
    &&& update_in(e) is Some && e.instrument is Some ==> updates_follow(
        snapshots(h, e.instrument->0.value@),
    )
    &&& load(h.push(e)) <= u64::MAX
    &&& dropped_total(h.push(e)) <= u64::MAX
}

/// The books on `h` can be closed: the wait of every snapshot has an end.
pub open spec fn closable(h: Seq<Event>) -> bool {
    forall|name: Seq<char>| #[trigger] mentioned(h, name) ==> waits_end(snapshots(h, name))
}

/// How the report files a snapshot.
#[derive(Debug, Clone, Copy, PartialEq, Eq, Structural)]
pub enum Fate {
    Spliced,
    Abandoned,
    PendingAtEof,
    Unspliced,
}

pub open spec fn fate(s: SnapState, max_ts: u64) -> Fate {
    if s.spliced {
        Fate::Spliced
    } else if s.abandoned_by_reconnect {
        Fate::Abandoned
    } else if s.local_ts + PENDING_AT_EOF_NS >= max_ts {
        Fate::PendingAtEof
    } else {
        Fate::Unspliced
    }
}

/// How many snapshots met this fate.
pub open spec fn fated(s: Seq<SnapState>, max_ts: u64, f: Fate) -> nat
    decreases s.len(),
{
    if s.len() == 0 {
        0
    } else {
        fated(s.drop_last(), max_ts, f) + (if fate(s.last(), max_ts) == f {
            1nat
        } else {
            0
        })
    }
}

// ---------------------------------------------------------------------------
// One instrument: trade and ticker ids
// ---------------------------------------------------------------------------

/// The number a trade id spells; ids that are not numbers take no part.
pub open spec fn trade_number(t: Trade) -> Option<nat> {
    parse_uint(t.id@, u64::MAX as nat)
}

/// The latest numeric id after the first `k` trades.
pub open spec fn id_after(trades: Seq<Trade>, k: int, before: Option<u64>) -> Option<u64>
    decreases k,
{
    if k <= 0 {
        before
    } else {
        match trade_number(trades[k - 1]) {
            Some(n) => Some(n as u64),
            None => id_after(trades, k - 1, before),
        }
    }
}

/// How many of the first `k` trades do not go beyond the id before them.
pub open spec fn steps_back(trades: Seq<Trade>, k: int, before: Option<u64>) -> nat
    decreases k,
{
    if k <= 0 {
        0
    } else {
        steps_back(trades, k - 1, before) + (match (
            trade_number(trades[k - 1]),
            id_after(trades, k - 1, before),
        ) {
            (Some(n), Some(last)) => if n <= last {
                1nat
            } else {
                0
            },
            _ => 0,
        })
    }
}

/// The latest numeric trade id.
pub open spec fn last_trade_id(h: Seq<Event>, name: Seq<char>) -> Option<u64>
    decreases h.len(),
{
    if h.len() == 0 {
        None
    } else {
        let p = last_trade_id(h.drop_last(), name);
        if brings_trades(h.last(), name) {
            let t = trades_in(h.last())->0;
            id_after(t, t.len() as int, p)
        } else {
            p
        }
    }
}

/// The connection that fed the latest trades.
pub open spec fn trade_source(h: Seq<Event>, name: Seq<char>) -> Option<SourceId>
    decreases h.len(),
{
    if h.len() == 0 {
        None
    } else if brings_trades(h.last(), name) {
        Some(h.last().source)
    } else {
        trade_source(h.drop_last(), name)
    }
}

/// The connection that fed the latest trades was lost since.
pub open spec fn trades_excused(h: Seq<Event>, name: Seq<char>) -> bool
    decreases h.len(),
{
    if h.len() == 0 {
        false
    } else if brings_trades(h.last(), name) {
        false
    } else if loses_connection(h.last()) && trade_source(h.drop_last(), name) == Some(
        h.last().source,
    ) {
        true
    } else {
        trades_excused(h.drop_last(), name)
    }
}

/// Trade ids that did not grow, excused or not.
pub open spec fn trade_regressions(h: Seq<Event>, name: Seq<char>, excused: bool) -> nat
    decreases h.len(),
{
    if h.len() == 0 {
        0
    } else {
        let p = h.drop_last();
        trade_regressions(p, name, excused) + (if brings_trades(h.last(), name) && trades_excused(
            p,
            name,
        ) == excused {
            let t = trades_in(h.last())->0;
            steps_back(t, t.len() as int, last_trade_id(p, name))
        } else {
            0
        })
    }
}

pub open spec fn last_ticker(h: Seq<Event>, name: Seq<char>) -> Option<u64>
    decreases h.len(),
{
    if h.len() == 0 {
        None
    } else if about(h.last(), name) && ticker_in(h.last()) is Some {
        ticker_in(h.last())
    } else {
        last_ticker(h.drop_last(), name)
    }
}

/// Book-ticker ids that did not grow.
pub open spec fn ticker_regressions(h: Seq<Event>, name: Seq<char>) -> nat
    decreases h.len(),
{
    if h.len() == 0 {
        0
    } else {
        let p = h.drop_last();
        ticker_regressions(p, name) + (if about(h.last(), name) && (ticker_in(h.last()) matches Some(
            id,
        ) && (last_ticker(p, name) matches Some(last) && id <= last)) {
            1nat
        } else {
            0
        })
    }
}

// ---------------------------------------------------------------------------
// Bounds
// ---------------------------------------------------------------------------

proof fn lemma_steps_bound(trades: Seq<Trade>, k: int, before: Option<u64>)
    requires
        0 <= k,
    ensures
        steps_back(trades, k, before) <= k,
    decreases k,
{
    if k > 0 {
        lemma_steps_bound(trades, k - 1, before);
    }
}

/// Every count stays within the load.
pub(crate) proof fn lemma_counts_bounded(h: Seq<Event>, name: Seq<char>)
    ensures
        h.len() <= load(h),
        seen(h, name) <= load(h),
        updates(h, name) <= load(h),
        chain_breaks(h, name, true) + chain_breaks(h, name, false) <= load(h),
        overlap_count(h, name) <= load(h),
        snapshots(h, name).len() <= load(h),
        trade_regressions(h, name, true) + trade_regressions(h, name, false) + ticker_regressions(
            h,
            name,
        ) <= load(h),
        conn_ups(h) <= load(h),
        conn_downs(h) <= load(h),
        gaps(h) <= load(h),
        acks(h, true) <= load(h),
        acks(h, false) <= load(h),
        timeline(h).len() <= load(h),
        queueing(h).len() <= load(h),
    decreases h.len(),
{
    if h.len() > 0 {
        lemma_counts_bounded(h.drop_last(), name);
        match trades_in(h.last()) {
            Some(t) => {
                lemma_steps_bound(t, t.len() as int, last_trade_id(h.drop_last(), name));
            },
            None => {},
        }
    }
}

pub(crate) proof fn lemma_kinds_bounded(h: Seq<Event>, name: Seq<char>, kind: EventKind)
    ensures
        kind_count(h, kind) <= load(h),
        seen_of_kind(h, name, kind) <= load(h),
        latencies(h, kind).len() <= load(h),
    decreases h.len(),
{
    if h.len() > 0 {
        lemma_kinds_bounded(h.drop_last(), name, kind);
    }
}

} // verus!
