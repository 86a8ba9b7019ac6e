//! What the counts of a day are for: each against the events themselves.
use crate::events::Event;
use crate::payloads::{ControlPayload, MarketPayload, Payload};
use crate::recorder::qa::history::{
    about, acks, brings_trades, chain_breaks, conn_downs, conn_ups, continues, depth_source,
    dropped_total, fate, fated, first_seen, gaps, id_after, kept_timeline, last_final, last_seen,
    last_ticker, last_trade_id, latencies, loses_connection, max_local, mentioned, overlap_count,
    queueing, seen, seen_of_kind, snapshot_in, snapshots, steps_back, ticker_in,
    ticker_regressions, timeline, timeline_line, trade_number, trade_regressions, trade_source,
    trades_excused, trades_in, update_in, updates, updates_book, Fate, SnapState,
};
use crate::recorder::stats::{kind_count, kind_of, EventKind};
use crate::text::parse_uint;
use crate::types::Trade;
use vstd::prelude::*;

verus! {

// ---------------------------------------------------------------------------
// Reading events
// ---------------------------------------------------------------------------

/// The event names the instrument, and is no control event.
pub open spec fn concerns(e: Event, name: Seq<char>) -> bool {
    &&& e.instrument is Some
    &&& e.instrument->0.value@ == name
    &&& !(e.payload is Control)
}

/// The event is a depth update of the instrument.
pub open spec fn is_update(e: Event, name: Seq<char>) -> bool {
    concerns(e, name) && e.payload is Market && e.payload->Market_0 is BookUpdate
}

/// The event is a book snapshot of the instrument.
pub open spec fn is_snapshot(e: Event, name: Seq<char>) -> bool {
    concerns(e, name) && e.payload is Market && e.payload->Market_0 is BookSnapshot
}

/// The event holds trades of the instrument.
pub open spec fn is_trades(e: Event, name: Seq<char>) -> bool {
    concerns(e, name) && e.payload is Market && e.payload->Market_0 is Trades
}

/// The event is a book ticker of the instrument.
pub open spec fn is_ticker(e: Event, name: Seq<char>) -> bool {
    concerns(e, name) && e.payload is Market && e.payload->Market_0 is BookTicker
}

/// The event tells that its connection went down.
pub open spec fn is_loss(e: Event) -> bool {
    e.payload is Control && e.payload->Control_0 is ConnDown
}

/// Events are taken for what they are: an update, a snapshot, trades or a ticker
/// of the instrument they name, with their own ids; and only a lost connection for
/// a loss.
pub proof fn law_events_are_read_as_they_are(e: Event, name: Seq<char>)
    ensures
        about(e, name) <==> concerns(e, name),
        updates_book(e, name) <==> is_update(e, name),
        about(e, name) && snapshot_in(e) is Some <==> is_snapshot(e, name),
        brings_trades(e, name) <==> is_trades(e, name),
        about(e, name) && ticker_in(e) is Some <==> is_ticker(e, name),
        loses_connection(e) <==> is_loss(e),
        e.payload matches Payload::Market(
            MarketPayload::BookUpdate {
                first_update_id,
                final_update_id,
                prev_final_update_id,
                event_time,
                ..
            },
        ) ==> update_in(e) is Some && update_in(e)->0.first == first_update_id && update_in(
            e,
        )->0.last == final_update_id && update_in(e)->0.prev == prev_final_update_id && update_in(
            e,
        )->0.event_time == event_time,
        e.payload matches Payload::Market(MarketPayload::BookSnapshot { last_update_id, .. })
            ==> snapshot_in(e) == Some(last_update_id),
        e.payload matches Payload::Market(MarketPayload::Trades { trades }) ==> trades_in(e)
            == Some(trades@),
        e.payload matches Payload::Market(MarketPayload::BookTicker { update_id, .. })
            ==> ticker_in(e) == Some(update_id),
{
}

/// An update continues a snapshot exactly where its ids reach from at most the
/// next one after the snapshot's to at least that one.
pub proof fn law_continuing_spans_the_next_id(
    u: crate::recorder::qa::history::Update,
    id: u64,
)
    ensures
        continues(u, id) <==> u.first as int <= id as int + 1 && id as int + 1 <= u.last as int,
{
}

// ---------------------------------------------------------------------------
// Counts
// ---------------------------------------------------------------------------

/// Each count is the number of the events it counts.
pub proof fn law_counts_are_numbers_of_events(h: Seq<Event>, name: Seq<char>, kind: EventKind)
    ensures
        seen(h, name) == h.filter(|e: Event| concerns(e, name)).len(),
        updates(h, name) == h.filter(|e: Event| is_update(e, name)).len(),
        snapshots(h, name).len() == h.filter(|e: Event| is_snapshot(e, name)).len(),
        seen_of_kind(h, name, kind) == h.filter(
            |e: Event| concerns(e, name) && kind_of(e.payload) == kind,
        ).len(),
        kind_count(h, kind) == h.filter(|e: Event| kind_of(e.payload) == kind).len(),
    decreases h.len(),
{
    reveal(Seq::filter);
    if h.len() > 0 {
        law_counts_are_numbers_of_events(h.drop_last(), name, kind);
    }
}

/// Control events are counted by what they tell: connections up and down, gaps,
/// and acknowledgements by whether they were granted.
pub proof fn law_controls_are_counted_by_kind(h: Seq<Event>)
    ensures
        conn_ups(h) == h.filter(
            |e: Event| e.payload is Control && e.payload->Control_0 is ConnUp,
        ).len(),
        conn_downs(h) == h.filter(|e: Event| is_loss(e)).len(),
        gaps(h) == h.filter(
            |e: Event| e.payload is Control && e.payload->Control_0 is Gap,
        ).len(),
        acks(h, true) == h.filter(
            |e: Event|
                e.payload matches Payload::Control(ControlPayload::SubAck { ok, .. }) && ok,
        ).len(),
        acks(h, false) == h.filter(
            |e: Event|
                e.payload matches Payload::Control(ControlPayload::SubAck { ok, .. }) && !ok,
        ).len(),
    decreases h.len(),
{
    reveal(Seq::filter);
    if h.len() > 0 {
        law_controls_are_counted_by_kind(h.drop_last());
    }
}

/// What was dropped is the sum of what the gaps tell.
pub proof fn law_dropped_is_what_gaps_tell(h: Seq<Event>, e: Event)
    ensures
        dropped_total(Seq::<Event>::empty()) == 0,
        e.payload matches Payload::Control(ControlPayload::Gap { dropped, .. }) ==> dropped_total(
            h.push(e),
        ) == dropped_total(h) + dropped,
        !(e.payload is Control && e.payload->Control_0 is Gap) ==> dropped_total(h.push(e))
            == dropped_total(h),
{
    assert(h.push(e).drop_last() =~= h);
}

/// The timeline has one line for every control event, in their order, with the
/// time it was received; the report keeps the first five hundred.
pub proof fn law_timeline_has_every_control_event(h: Seq<Event>)
    ensures
        timeline(h).len() == h.filter(|e: Event| e.payload is Control).len(),
        forall|i: int|
            0 <= i < h.len() && (#[trigger] h[i]).payload is Control ==> timeline(h)[h.take(
                i,
            ).filter(|e: Event| e.payload is Control).len() as int] == timeline_line(
                h[i].local_ts,
                h[i].payload->Control_0,
            ),
        kept_timeline(h).len() == (if timeline(h).len() < 500 {
            timeline(h).len() as int
        } else {
            500
        }),
        forall|k: int|
            0 <= k < kept_timeline(h).len() ==> #[trigger] kept_timeline(h)[k] == timeline(h)[k],
    decreases h.len(),
{
    reveal(Seq::filter);
    if h.len() > 0 {
        let p = h.drop_last();
        let n = h.len() - 1;
        law_timeline_has_every_control_event(p);
        let control = |e: Event| e.payload is Control;
        assert forall|i: int| 0 <= i < h.len() && (#[trigger] h[i]).payload is Control implies
            timeline(h)[h.take(i).filter(control).len() as int] == timeline_line(
            h[i].local_ts,
            h[i].payload->Control_0,
        ) by {
            if i < n {
                assert(p[i] == h[i]);
                assert(p.take(i) =~= h.take(i));
                lemma_fewer_before(p, control, i);
            } else {
                assert(h.take(i) =~= p);
            }
        }
    }
}

/// Before an element that passes a test there are fewer that pass than in all.
proof fn lemma_fewer_before<T>(s: Seq<T>, test: spec_fn(T) -> bool, i: int)
    requires
        0 <= i < s.len(),
        test(s[i]),
    ensures
        s.take(i).filter(test).len() < s.filter(test).len(),
    decreases s.len(),
{
    reveal(Seq::filter);
    let p = s.drop_last();
    if i < p.len() {
        assert(p.take(i) =~= s.take(i));
        lemma_fewer_before(p, test, i);
    } else {
        assert(s.take(i) =~= p);
    }
}

/// The capture latencies of a kind are those of its events that have a venue time,
/// each how much later it was received; and the queueing is that of the depth
/// updates of instruments, each how much later it was told than it happened.
pub proof fn law_latencies_are_differences_of_times(h: Seq<Event>, e: Event, kind: EventKind)
    requires
        e.local_ts < 0x8000_0000_0000_0000,
        e.venue_ts is Some ==> e.venue_ts->0 < 0x8000_0000_0000_0000,
    ensures
        latencies(Seq::<Event>::empty(), kind).len() == 0,
        queueing(Seq::<Event>::empty()).len() == 0,
        e.venue_ts is Some && kind_of(e.payload) == kind ==> latencies(h.push(e), kind)
            == latencies(h, kind).push(e.local_ts - e.venue_ts->0),
        e.venue_ts is None || kind_of(e.payload) != kind ==> latencies(h.push(e), kind)
            == latencies(h, kind),
        (e.payload matches Payload::Market(MarketPayload::BookUpdate { event_time: Some(t), .. })
            && t < 0x8000_0000_0000_0000 && e.venue_ts is Some && e.instrument is Some)
            ==> queueing(h.push(e)) == queueing(h).push(
            (e.payload->Market_0->BookUpdate_event_time->0) - e.venue_ts->0,
        ),
        !((e.payload matches Payload::Market(MarketPayload::BookUpdate { event_time: Some(t), .. }))
            && e.venue_ts is Some && e.instrument is Some) ==> queueing(h.push(e)) == queueing(h),
{
    assert(h.push(e).drop_last() =~= h);
}

// ---------------------------------------------------------------------------
// Coverage
// ---------------------------------------------------------------------------

/// The end of a file is the latest time anything was received.
pub proof fn law_latest_bounds_all(h: Seq<Event>)
    ensures
        forall|i: int| 0 <= i < h.len() ==> (#[trigger] h[i]).local_ts <= max_local(h),
        h.len() > 0 ==> exists|i: int|
            0 <= i < h.len() && (#[trigger] h[i]).local_ts == max_local(h),
    decreases h.len(),
{
    if h.len() > 0 {
        let p = h.drop_last();
        let n = h.len() - 1;
        law_latest_bounds_all(p);
        assert(forall|i: int| 0 <= i < n ==> p[i] == #[trigger] h[i]);
        assert(h[n] == h.last());
        if p.len() > 0 {
            let i = choose|i: int| 0 <= i < p.len() && (#[trigger] p[i]).local_ts == max_local(p);
            assert(h[i].local_ts == max_local(p));
        } else {
            assert(max_local(p) == 0);
            assert(h[n].local_ts == max_local(h));
        }
    }
}

/// An instrument is mentioned exactly where an event concerns it. It was last seen
/// when the last of those was received, and first when the first of them was that
/// has a time.
pub proof fn law_coverage_is_from_first_to_last(h: Seq<Event>, name: Seq<char>, i: int)
    ensures
        mentioned(h, name) <==> exists|k: int| 0 <= k < h.len() && concerns(#[trigger] h[k], name),
        0 <= i < h.len() && concerns(h[i], name) && (forall|k: int|
            i < k < h.len() ==> !concerns(#[trigger] h[k], name)) ==> last_seen(h, name)
            == h[i].local_ts,
        0 <= i < h.len() && concerns(h[i], name) && h[i].local_ts != 0 && (forall|k: int|
            0 <= k < i && concerns(#[trigger] h[k], name) ==> h[k].local_ts == 0) ==> first_seen(
            h,
            name,
        ) == h[i].local_ts,
        (forall|k: int|
            0 <= k < h.len() && concerns(#[trigger] h[k], name) ==> h[k].local_ts == 0)
            ==> first_seen(h, name) == 0,
    decreases h.len(),
{
    if h.len() > 0 {
        let p = h.drop_last();
        let n = h.len() - 1;
        law_coverage_is_from_first_to_last(p, name, i);
        assert(forall|k: int| 0 <= k < n ==> #[trigger] p[k] == h[k]);
        assert(forall|k: int| 0 <= k < n ==> p[k] == #[trigger] h[k]);
        assert(h[n] == h.last());
        if mentioned(p, name) {
            let k = choose|k: int| 0 <= k < p.len() && concerns(#[trigger] p[k], name);
            assert(concerns(h[k], name));
        }
        if i == n {
            assert(forall|k: int|
                0 <= k < n && concerns(#[trigger] p[k], name) ==> h[k].local_ts == 0 ==> p[k].local_ts
                    == 0);
        }
    }
}

// ---------------------------------------------------------------------------
// Snapshots
// ---------------------------------------------------------------------------

/// At `k` stands the last depth update of the instrument before `j`.
pub open spec fn feeds(h: Seq<Event>, name: Seq<char>, k: int, j: int) -> bool {
    &&& 0 <= k < j
    &&& is_update(h[k], name)
    &&& forall|m: int| k < m < j ==> !is_update(#[trigger] h[m], name)
}

/// At `j` the connection went down that fed the last depth update before it.
pub open spec fn feed_lost(h: Seq<Event>, name: Seq<char>, j: int) -> bool {
    &&& 0 <= j < h.len()
    &&& is_loss(h[j])
    &&& exists|k: int| #[trigger] feeds(h, name, k, j) && h[k].source == h[j].source
}

/// Between the snapshot at `i` and `j` a depth update spans the id behind the
/// snapshot's.
pub open spec fn spanned(h: Seq<Event>, name: Seq<char>, i: int, j: int) -> bool {
    exists|m: int|
        i < m < j && is_update(#[trigger] h[m], name) && spans(h[m], h[i])
}

/// The update's ids span the one behind the snapshot's.
pub open spec fn spans(u: Event, s: Event) -> bool {
    match (u.payload, s.payload) {
        (
            Payload::Market(MarketPayload::BookUpdate { first_update_id, final_update_id, .. }),
            Payload::Market(MarketPayload::BookSnapshot { last_update_id, .. }),
        ) => first_update_id <= last_update_id + 1 && last_update_id + 1 <= final_update_id,
        _ => false,
    }
}

proof fn lemma_feed(h: Seq<Event>, name: Seq<char>)
    ensures
        match depth_source(h, name) {
            Some(s) => exists|k: int| #[trigger] feeds(h, name, k, h.len() as int) && h[k].source
                == s,
            None => forall|k: int| 0 <= k < h.len() ==> !is_update(#[trigger] h[k], name),
        },
    decreases h.len(),
{
    if h.len() > 0 {
        let p = h.drop_last();
        let n = h.len() - 1;
        lemma_feed(p, name);
        assert(h[n] == h.last());
        assert(forall|k: int| 0 <= k < n ==> p[k] == #[trigger] h[k]);
        if updates_book(h.last(), name) {
            assert(feeds(h, name, n, n + 1) && h[n].source == h.last().source);
        } else if depth_source(p, name) is Some {
            let k = choose|k: int| #[trigger]
                feeds(p, name, k, p.len() as int) && p[k].source == depth_source(p, name)->0;
            assert(h[k] == p[k]);
            assert forall|m: int| k < m < h.len() implies !is_update(#[trigger] h[m], name) by {
                if m < n {
                    assert(p[m] == h[m]);
                    assert(!is_update(p[m], name));
                }
            }
            assert(feeds(h, name, k, h.len() as int) && h[k].source == p[k].source);
        }
    }
}

proof fn lemma_feed_lost(h: Seq<Event>, name: Seq<char>)
    requires
        h.len() > 0,
    ensures
        feed_lost(h, name, h.len() - 1) <==> is_loss(h.last()) && depth_source(
            h.drop_last(),
            name,
        ) == Some(h.last().source),
{
    let p = h.drop_last();
    let n = h.len() - 1;
    lemma_feed(p, name);
    assert(forall|k: int| 0 <= k < n ==> p[k] == #[trigger] h[k]);
    if feed_lost(h, name, n) {
        let k = choose|k: int| #[trigger] feeds(h, name, k, n) && h[k].source == h[n].source;
        assert(is_update(p[k], name));
        let l = choose|l: int| #[trigger]
            feeds(p, name, l, p.len() as int) && p[l].source == depth_source(p, name)->0;
        if k < l {
            assert(is_update(h[l], name));
        } else if l < k {
            assert(is_update(p[k], name));
        }
    }
    if is_loss(h.last()) && depth_source(p, name) == Some(h.last().source) {
        let l = choose|l: int| #[trigger]
            feeds(p, name, l, p.len() as int) && p[l].source == depth_source(p, name)->0;
        assert forall|m: int| l < m < n implies !is_update(#[trigger] h[m], name) by {
            assert(!is_update(p[m], name));
        }
        assert(feeds(h, name, l, n) && h[l].source == h[n].source);
    }
}

/// The feed was lost at `j` while the snapshot at `i` still waited.
pub open spec fn cut_off(h: Seq<Event>, name: Seq<char>, i: int, j: int) -> bool {
    i < j < h.len() && feed_lost(h, name, j) && !spanned(h, name, i, j)
}

proof fn lemma_cut_off_stays(h: Seq<Event>, name: Seq<char>, i: int, j: int)
    requires
        h.len() > 0,
        0 <= i < j < h.len() - 1,
    ensures
        cut_off(h, name, i, j) <==> cut_off(h.drop_last(), name, i, j),
{
    let p = h.drop_last();
    let n = h.len() - 1;
    assert(forall|k: int| 0 <= k < n ==> p[k] == #[trigger] h[k]);
    assert(forall|k: int| 0 <= k < n ==> #[trigger] p[k] == h[k]);
    assert forall|k: int| #[trigger] feeds(h, name, k, j) <==> feeds(p, name, k, j) by {
        if feeds(h, name, k, j) {
            assert forall|m: int| k < m < j implies !is_update(#[trigger] p[m], name) by {
                assert(!is_update(h[m], name));
            }
        }
        if feeds(p, name, k, j) {
            assert forall|m: int| k < m < j implies !is_update(#[trigger] h[m], name) by {
                assert(!is_update(p[m], name));
            }
        }
    }
    if feed_lost(h, name, j) {
        let k = choose|k: int| #[trigger] feeds(h, name, k, j) && h[k].source == h[j].source;
        assert(feeds(p, name, k, j) && p[k].source == p[j].source);
    }
    if feed_lost(p, name, j) {
        let k = choose|k: int| #[trigger] feeds(p, name, k, j) && p[k].source == p[j].source;
        assert(feeds(h, name, k, j) && h[k].source == h[j].source);
    }
    if spanned(h, name, i, j) {
        let m = choose|m: int|
            i < m < j && is_update(#[trigger] h[m], name) && spans(h[m], h[i]);
        assert(is_update(p[m], name) && spans(p[m], p[i]));
    }
    if spanned(p, name, i, j) {
        let m = choose|m: int|
            i < m < j && is_update(#[trigger] p[m], name) && spans(p[m], p[i]);
        assert(is_update(h[m], name) && spans(h[m], h[i]));
    }
}

/// What becomes of a snapshot. It counts as spliced exactly where a later depth
/// update of its instrument spans the id behind its own, and as abandoned exactly
/// where, before any such update, the connection went down that fed the
/// instrument's latest depth update. A loss of another connection, or one behind
/// the splice, leaves it as it was.
pub proof fn law_fate_of_a_snapshot(h: Seq<Event>, name: Seq<char>, i: int)
    requires
        0 <= i < h.len(),
        is_snapshot(h[i], name),
    ensures
        ({
            let at = h.take(i).filter(|e: Event| is_snapshot(e, name)).len() as int;
            let s = snapshots(h, name)[at];
            &&& at < snapshots(h, name).len()
            &&& s.local_ts == h[i].local_ts
            &&& Some(s.last_update_id) == snapshot_in(h[i])
            &&& s.spliced <==> spanned(h, name, i, h.len() as int)
            &&& s.abandoned_by_reconnect <==> exists|j: int| #[trigger] cut_off(h, name, i, j)
        }),
    decreases h.len(),
{
    let p = h.drop_last();
    let n = h.len() - 1;
    let at = h.take(i).filter(|e: Event| is_snapshot(e, name)).len() as int;
    law_counts_are_numbers_of_events(h.take(i), name, EventKind::BookUpdate);
    assert(h[n] == h.last());
    if i == n {
        assert(h.take(i) =~= p);
        assert(forall|j: int| !cut_off(h, name, i, j));
    } else {
        assert(p[i] == h[i]);
        assert(p.take(i) =~= h.take(i));
        law_fate_of_a_snapshot(p, name, i);
        assert(forall|k: int| 0 <= k < n ==> p[k] == #[trigger] h[k]);
        assert(forall|k: int| 0 <= k < n ==> #[trigger] p[k] == h[k]);
        if spanned(p, name, i, n) {
            let m = choose|m: int|
                i < m < n && is_update(#[trigger] p[m], name) && spans(p[m], p[i]);
            assert(is_update(h[m], name) && spans(h[m], h[i]));
        }
        if spanned(h, name, i, n + 1) && !(is_update(h[n], name) && spans(h[n], h[i])) {
            let m = choose|m: int|
                i < m < n + 1 && is_update(#[trigger] h[m], name) && spans(h[m], h[i]);
            assert(is_update(p[m], name) && spans(p[m], p[i]));
        }
        if is_update(h[n], name) && spans(h[n], h[i]) {
            assert(spanned(h, name, i, n + 1));
        }
        lemma_feed_lost(h, name);
        if spanned(h, name, i, n) {
            let m = choose|m: int|
                i < m < n && is_update(#[trigger] h[m], name) && spans(h[m], h[i]);
            assert(is_update(p[m], name) && spans(p[m], p[i]));
        }
        assert(spanned(h, name, i, n) <==> spanned(p, name, i, n));
        assert(cut_off(h, name, i, n) <==> feed_lost(h, name, n) && !spanned(p, name, i, n));
        if exists|j: int| #[trigger] cut_off(p, name, i, j) {
            let j = choose|j: int| #[trigger] cut_off(p, name, i, j);
            lemma_cut_off_stays(h, name, i, j);
            assert(cut_off(h, name, i, j));
        }
        if exists|j: int| #[trigger] cut_off(h, name, i, j) {
            let j = choose|j: int| #[trigger] cut_off(h, name, i, j);
            if j < n {
                lemma_cut_off_stays(h, name, i, j);
                assert(cut_off(p, name, i, j));
            }
        }
    }
}

/// A snapshot is filed once: as spliced; else as abandoned; else as pending where
/// the file ends within a minute of it; else as lost.
pub proof fn law_snapshot_is_filed_once(s: SnapState, end: u64)
    ensures
        fate(s, end) == Fate::Spliced <==> s.spliced,
        fate(s, end) == Fate::Abandoned <==> !s.spliced && s.abandoned_by_reconnect,
        fate(s, end) == Fate::PendingAtEof <==> !s.spliced && !s.abandoned_by_reconnect && end
            - s.local_ts <= 60 * 1_000_000_000,
        fate(s, end) == Fate::Unspliced <==> !s.spliced && !s.abandoned_by_reconnect && end
            - s.local_ts > 60 * 1_000_000_000,
{
}

/// Every snapshot is counted under its own fate, and so under one.
pub proof fn law_fates_add_up(s: Seq<SnapState>, end: u64, f: Fate)
    ensures
        fated(s, end, f) == s.filter(|x: SnapState| fate(x, end) == f).len(),
        fated(s, end, Fate::Spliced) + fated(s, end, Fate::Abandoned) + fated(
            s,
            end,
            Fate::PendingAtEof,
        ) + fated(s, end, Fate::Unspliced) == s.len(),
    decreases s.len(),
{
    reveal(Seq::filter);
    if s.len() > 0 {
        law_fates_add_up(s.drop_last(), end, f);
    }
}

// ---------------------------------------------------------------------------
// Chains and ids
// ---------------------------------------------------------------------------

/// The first and the final id of an update, and its predecessor's.
pub open spec fn update_ids(e: Event) -> (u64, u64, Option<u64>) {
    match e.payload {
        Payload::Market(
            MarketPayload::BookUpdate {
                first_update_id,
                final_update_id,
                prev_final_update_id,
                ..
            },
        ) => (first_update_id, final_update_id, prev_final_update_id),
        _ => (0, 0, None),
    }
}

proof fn lemma_final(h: Seq<Event>, name: Seq<char>, k: int)
    requires
        feeds(h, name, k, h.len() as int),
    ensures
        last_final(h, name) == Some(update_ids(h[k]).1),
    decreases h.len(),
{
    let n = h.len() - 1;
    if k < n {
        let p = h.drop_last();
        assert(!is_update(h[n], name));
        assert forall|m: int| k < m < p.len() implies !is_update(#[trigger] p[m], name) by {
            assert(!is_update(h[m], name));
        }
        assert(p[k] == h[k]);
        lemma_final(p, name, k);
    }
}

proof fn lemma_no_final(h: Seq<Event>, name: Seq<char>)
    requires
        forall|k: int| 0 <= k < h.len() ==> !is_update(#[trigger] h[k], name),
    ensures
        last_final(h, name) is None,
    decreases h.len(),
{
    if h.len() > 0 {
        let p = h.drop_last();
        assert(!is_update(h[h.len() - 1], name));
        assert forall|m: int| 0 <= m < p.len() implies !is_update(#[trigger] p[m], name) by {
            assert(!is_update(h[m], name));
        }
        lemma_no_final(p, name);
    }
}

/// A depth update breaks the chain where it names a predecessor that is not the
/// instrument's latest update, at `k`; it overlaps where it names that one and yet
/// reaches back to its ids. Each is counted where it happens and nowhere else.
pub proof fn law_chain_is_checked_link_by_link(h: Seq<Event>, e: Event, name: Seq<char>, k: int)
    requires
        is_update(e, name),
        feeds(h, name, k, h.len() as int),
    ensures
        chain_breaks(h.push(e), name, true) + chain_breaks(h.push(e), name, false)
            == chain_breaks(h, name, true) + chain_breaks(h, name, false) + (if update_ids(e).2
            is Some && update_ids(e).2->0 != update_ids(h[k]).1 {
            1int
        } else {
            0
        }),
        overlap_count(h.push(e), name) == overlap_count(h, name) + (if update_ids(e).2 == Some(
            update_ids(h[k]).1,
        ) && update_ids(e).0 <= update_ids(h[k]).1 {
            1int
        } else {
            0
        }),
{
    assert(h.push(e).drop_last() =~= h);
    lemma_final(h, name, k);
}

/// The first update of an instrument neither breaks nor overlaps, and neither does
/// an event that is no update of it; and an empty file has no count.
pub proof fn law_only_links_are_counted(h: Seq<Event>, e: Event, name: Seq<char>, excused: bool)
    requires
        !is_update(e, name) || forall|k: int| 0 <= k < h.len() ==> !is_update(#[trigger] h[k], name),
    ensures
        chain_breaks(h.push(e), name, excused) == chain_breaks(h, name, excused),
        overlap_count(h.push(e), name) == overlap_count(h, name),
        chain_breaks(Seq::<Event>::empty(), name, excused) == 0,
        overlap_count(Seq::<Event>::empty(), name) == 0,
        trade_regressions(Seq::<Event>::empty(), name, excused) == 0,
        ticker_regressions(Seq::<Event>::empty(), name) == 0,
{
    assert(h.push(e).drop_last() =~= h);
    if is_update(e, name) {
        lemma_no_final(h, name);
    }
}

/// A break is excused exactly where, behind the instrument's latest update at `k`,
/// the connection went down that fed it.
pub proof fn law_break_is_filed_by_its_cause(h: Seq<Event>, e: Event, name: Seq<char>, k: int)
    requires
        is_update(e, name),
        feeds(h, name, k, h.len() as int),
        update_ids(e).2 is Some,
        update_ids(e).2->0 != update_ids(h[k]).1,
    ensures
        ({
            let lost = exists|j: int|
                k < j < h.len() && is_loss(#[trigger] h[j]) && h[j].source == h[k].source;
            &&& chain_breaks(h.push(e), name, lost) == chain_breaks(h, name, lost) + 1
            &&& chain_breaks(h.push(e), name, !lost) == chain_breaks(h, name, !lost)
        }),
{
    assert(crate::recorder::qa::laws::latest_update(h, name, k)) by {
        assert forall|m: int| k < m < h.len() implies !updates_book(#[trigger] h[m], name) by {
            assert(!is_update(h[m], name));
        }
    }
    crate::recorder::qa::laws::law_break_is_counted_once(h, e, name, k);
    let lost = exists|j: int|
        k < j < h.len() && is_loss(#[trigger] h[j]) && h[j].source == h[k].source;
    assert(lost == crate::recorder::qa::laws::lost_since(h, k)) by {
        if lost {
            let j = choose|j: int|
                k < j < h.len() && is_loss(#[trigger] h[j]) && h[j].source == h[k].source;
            assert(loses_connection(h[j]));
        }
        if crate::recorder::qa::laws::lost_since(h, k) {
            let j = choose|j: int|
                k < j < h.len() && loses_connection(#[trigger] h[j]) && h[j].source == h[k].source;
            assert(is_loss(h[j]));
        }
    }
}

/// The update id of a ticker.
pub open spec fn ticker_id(e: Event) -> u64 {
    match e.payload {
        Payload::Market(MarketPayload::BookTicker { update_id, .. }) => update_id,
        _ => 0,
    }
}

proof fn lemma_last_ticker(h: Seq<Event>, name: Seq<char>, k: int)
    requires
        -1 <= k < h.len(),
        k >= 0 ==> is_ticker(h[k], name),
        forall|m: int| k < m < h.len() ==> !is_ticker(#[trigger] h[m], name),
    ensures
        last_ticker(h, name) == (if k >= 0 {
            Some(ticker_id(h[k]))
        } else {
            None
        }),
    decreases h.len(),
{
    let n = h.len() - 1;
    if h.len() > 0 && k < n {
        let p = h.drop_last();
        assert(!is_ticker(h[n], name));
        assert forall|m: int| k < m < p.len() implies !is_ticker(#[trigger] p[m], name) by {
            assert(!is_ticker(h[m], name));
        }
        lemma_last_ticker(p, name, k);
    }
}

/// A ticker regresses exactly where its id does not go beyond that of the
/// instrument's ticker before it, at `k`; the first cannot, and nothing else does.
pub proof fn law_tickers_must_grow(h: Seq<Event>, e: Event, name: Seq<char>, k: int)
    requires
        -1 <= k < h.len(),
        k >= 0 ==> is_ticker(h[k], name),
        forall|m: int| k < m < h.len() ==> !is_ticker(#[trigger] h[m], name),
    ensures
        ticker_regressions(h.push(e), name) == ticker_regressions(h, name) + (if is_ticker(e, name)
            && k >= 0 && ticker_id(e) <= ticker_id(h[k]) {
            1int
        } else {
            0
        }),
{
    assert(h.push(e).drop_last() =~= h);
    lemma_last_ticker(h, name, k);
}

/// The number of a trade is what its id spells, if it spells one that 64 bits hold.
pub open spec fn spelled(t: Trade) -> Option<nat> {
    parse_uint(t.id@, 0xffff_ffff_ffff_ffff)
}

/// The latest number among trades, and before them where they have none.
pub proof fn law_latest_number_counts(trades: Seq<Trade>, k: int, before: Option<u64>, j: int)
    requires
        -1 <= j < k <= trades.len(),
        j >= 0 ==> spelled(trades[j]) is Some,
        forall|m: int| j < m < k ==> spelled(#[trigger] trades[m]) is None,
    ensures
        j >= 0 ==> id_after(trades, k, before) == Some(spelled(trades[j])->0 as u64),
        j < 0 ==> id_after(trades, k, before) == before,
    decreases k,
{
    if k > 0 {
        if j < k - 1 {
            assert(spelled(trades[k - 1]) is None);
            assert(trade_number(trades[k - 1]) is None);
            law_latest_number_counts(trades, k - 1, before, j);
        } else {
            assert(trade_number(trades[k - 1]) == spelled(trades[k - 1]));
        }
    }
}

/// A trade steps back exactly where its number does not go beyond the latest
/// number before it; one without a number does not, and neither does the first.
pub proof fn law_trades_must_grow(trades: Seq<Trade>, k: int, before: Option<u64>)
    requires
        0 <= k < trades.len(),
    ensures
        steps_back(trades, 0, before) == 0,
        steps_back(trades, k + 1, before) == steps_back(trades, k, before) + (if spelled(trades[k])
            is Some && id_after(trades, k, before) is Some && spelled(trades[k])->0 <= id_after(
            trades,
            k,
            before,
        )->0 {
            1int
        } else {
            0
        }),
{
}

/// At `k` stand the instrument's last trades before `j`.
pub open spec fn trades_feed(h: Seq<Event>, name: Seq<char>, k: int, j: int) -> bool {
    &&& 0 <= k < j
    &&& is_trades(h[k], name)
    &&& forall|m: int| k < m < j ==> !is_trades(#[trigger] h[m], name)
}

proof fn lemma_trades_feed(h: Seq<Event>, name: Seq<char>, k: int)
    requires
        trades_feed(h, name, k, h.len() as int),
    ensures
        trade_source(h, name) == Some(h[k].source),
        trades_excused(h, name) <==> exists|j: int|
            k < j < h.len() && is_loss(#[trigger] h[j]) && h[j].source == h[k].source,
    decreases h.len(),
{
    let n = h.len() - 1;
    if k < n {
        let p = h.drop_last();
        assert(!is_trades(h[n], name));
        assert forall|m: int| k < m < p.len() implies !is_trades(#[trigger] p[m], name) by {
            assert(!is_trades(h[m], name));
        }
        assert(p[k] == h[k]);
        lemma_trades_feed(p, name, k);
        assert(forall|m: int| 0 <= m < n ==> p[m] == #[trigger] h[m]);
        if exists|j: int| k < j < p.len() && is_loss(#[trigger] p[j]) && p[j].source == p[k].source {
            let j = choose|j: int|
                k < j < p.len() && is_loss(#[trigger] p[j]) && p[j].source == p[k].source;
            assert(is_loss(h[j]) && h[j].source == h[k].source);
        }
        if is_loss(h[n]) && h[n].source == h[k].source {
            assert(k < n && is_loss(h[n]));
        }
        if exists|j: int| k < j < h.len() && is_loss(#[trigger] h[j]) && h[j].source == h[k].source {
            let j = choose|j: int|
                k < j < h.len() && is_loss(#[trigger] h[j]) && h[j].source == h[k].source;
            if j < n {
                assert(is_loss(p[j]) && p[j].source == p[k].source);
            }
        }
    }
}

/// The trades of an event that step back are counted where they come from: as
/// excused exactly where, behind the instrument's trades before them at `k`, the
/// connection went down that brought those. Nothing else changes the counts, and
/// the numbers go on where those trades left them.
pub proof fn law_steps_back_are_filed_by_their_cause(
    h: Seq<Event>,
    e: Event,
    name: Seq<char>,
    k: int,
)
    requires
        is_trades(e, name),
        trades_feed(h, name, k, h.len() as int),
    ensures
        ({
            let lost = exists|j: int|
                k < j < h.len() && is_loss(#[trigger] h[j]) && h[j].source == h[k].source;
            let t = trades_in(e)->0;
            &&& trade_regressions(h.push(e), name, lost) == trade_regressions(h, name, lost)
                + steps_back(t, t.len() as int, last_trade_id(h, name))
            &&& trade_regressions(h.push(e), name, !lost) == trade_regressions(h, name, !lost)
            &&& last_trade_id(h.push(e), name) == id_after(
                t,
                t.len() as int,
                last_trade_id(h, name),
            )
        }),
{
    assert(h.push(e).drop_last() =~= h);
    lemma_trades_feed(h, name, k);
}

/// What holds no trades of the instrument leaves its numbers and their counts.
pub proof fn law_only_trades_step_back(h: Seq<Event>, e: Event, name: Seq<char>, excused: bool)
    requires
        !is_trades(e, name),
    ensures
        trade_regressions(h.push(e), name, excused) == trade_regressions(h, name, excused),
        last_trade_id(h.push(e), name) == last_trade_id(h, name),
        last_trade_id(Seq::<Event>::empty(), name) is None,
{
    assert(h.push(e).drop_last() =~= h);
}

} // verus!
