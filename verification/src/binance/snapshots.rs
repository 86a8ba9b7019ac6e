//! Depth snapshots: what is waiting to be fetched. Requests come with the first
//! book update of a symbol in a session and from a periodic sweep; requests that
//! wait for the same symbol coalesce, and a failed fetch is tried once more.
use super::messages::{copy_levels, in_nanos};
use crate::events::Event;
use crate::order::NameMap;
use crate::payloads::{MarketPayload, Payload};
use crate::text::{same, to_upper, uppercase, views};
use crate::types::{InstrumentId, Level, ms_to_nanos, Nanos, SourceId, VenueId};
use vstd::prelude::*;
use vstd::string::*;

verus! {

/// Levels per side of a snapshot.
pub const SNAPSHOT_DEPTH_LIMIT: u32 = 1000;

/// The least time between two fetches: the request is heavy, and a ban would
/// take the live capture with it.
pub const SNAPSHOT_PACING_MS: u64 = 500;

/// How often every known symbol is fetched again, so that a silently broken
/// chain of updates never lasts longer.
pub const SNAPSHOT_REFRESH_MS: u64 = 1_800_000;

#[derive(Debug)]
pub struct SnapshotRequest {
    pub symbol: String,
    pub retry: bool,
}

/// The symbols that wait, in order, and which of them for the second time.
pub open spec fn waiting(q: Seq<SnapshotRequest>) -> Seq<(Seq<char>, bool)> {
    q.map_values(|r: SnapshotRequest| (r.symbol@, r.retry))
}

/// The symbol waits.
pub open spec fn waits(q: Seq<SnapshotRequest>, symbol: Seq<char>) -> bool {
    exists|i: int| 0 <= i < q.len() && (#[trigger] q[i]).symbol@ == symbol
}

/// No symbol waits twice.
pub open spec fn once_each(q: Seq<SnapshotRequest>) -> bool {
    forall|i: int, j: int|
        0 <= i < j < q.len() ==> (#[trigger] q[i]).symbol@ != (#[trigger] q[j]).symbol@
}

/// The symbol is put at the end of the queue, if it may be and does not wait.
pub open spec fn joins(
    o: Seq<SnapshotRequest>,
    n: Seq<SnapshotRequest>,
    symbol: Seq<char>,
    retry: bool,
    may: bool,
) -> bool {
    waiting(n) == (if !may || waits(o, symbol) {
        waiting(o)
    } else {
        waiting(o).push((symbol, retry))
    })
}

pub struct SnapshotQueue {
    pub queue: Vec<SnapshotRequest>,
    /// Every symbol that was ever asked for.
    pub known: NameMap<()>,
}

impl SnapshotQueue {
    pub open spec fn wf(self) -> bool {
        self.known.wf() && once_each(self.queue@) && forall|i: int|
            0 <= i < self.queue@.len() ==> self.known.as_map().dom().contains(
                (#[trigger] self.queue@[i]).symbol@,
            )
    }

    pub fn new() -> (r: SnapshotQueue)
        ensures
            r.wf(),
            r.queue@.len() == 0,
            r.known.as_map().dom() == Set::<Seq<char>>::empty(),
    {
        let r: SnapshotQueue = SnapshotQueue { queue: Vec::new(), known: NameMap::new() };
        assert(r.known.as_map().dom() =~= Set::<Seq<char>>::empty());
        r
    }

    pub fn is_waiting(&self, symbol: &str) -> (r: bool)
        ensures
            r == waits(self.queue@, symbol@),
    {
        let mut i: usize = 0;
        while i < self.queue.len()
            invariant
                i <= self.queue@.len(),
                forall|j: int| 0 <= j < i ==> (#[trigger] self.queue@[j]).symbol@ != symbol@,
            decreases self.queue@.len() - i,
        {
            if same(self.queue[i].symbol.as_str(), symbol) {
                assert(self.queue@[i as int].symbol@ == symbol@);
                return true;
            }
            i = i + 1;
        }
        false
    }

    fn push(&mut self, symbol: String, retry: bool)
        requires
            old(self).wf(),
            old(self).known.as_map().dom().contains(symbol@),
        ensures
            final(self).wf(),
            final(self).known == old(self).known,
            waiting(final(self).queue@) == (if waits(old(self).queue@, symbol@) {
                waiting(old(self).queue@)
            } else {
                waiting(old(self).queue@).push((symbol@, retry))
            }),
            forall|s: Seq<char>| #[trigger]
                waits(final(self).queue@, s) <==> waits(old(self).queue@, s) || s == symbol@,
    {
        let ghost o = self.queue@;
        let ghost name = symbol@;
        if !self.is_waiting(symbol.as_str()) {
            self.queue.push(SnapshotRequest { symbol, retry });
            proof {
                let n = self.queue@;
                assert(waiting(n) =~= waiting(o).push((name, retry)));
                assert forall|i: int, j: int| 0 <= i < j < n.len() implies (#[trigger] n[i]).symbol@
                    != (#[trigger] n[j]).symbol@ by {
                    assert(n[i] == o[i]);
                    if j < o.len() {
                        assert(n[j] == o[j]);
                    } else {
                        assert(!waits(o, name));
                    }
                }
                assert forall|s: Seq<char>| #[trigger] waits(n, s) <==> waits(o, s) || s == name by {
                    if waits(o, s) {
                        let i = choose|i: int| 0 <= i < o.len() && (#[trigger] o[i]).symbol@ == s;
                        assert(n[i] == o[i]);
                    }
                    if waits(n, s) {
                        let i = choose|i: int| 0 <= i < n.len() && (#[trigger] n[i]).symbol@ == s;
                        if i < o.len() {
                            assert(o[i] == n[i]);
                        }
                    }
                    if s == name {
                        assert(n[o.len() as int].symbol@ == name);
                    }
                }
                assert forall|i: int| 0 <= i < n.len() implies self.known.as_map().dom().contains(
                    (#[trigger] n[i]).symbol@,
                ) by {
                    if i < o.len() {
                        assert(n[i] == o[i]);
                    }
                }
            }
        }
    }

    /// A snapshot of the symbol is asked for; it joins the queue unless it waits
    /// already.
    pub fn request(&mut self, symbol: &str)
        requires
            old(self).wf(),
        ensures
            final(self).wf(),
            final(self).known.as_map().dom() == old(self).known.as_map().dom().insert(symbol@),
            waiting(final(self).queue@) == (if waits(old(self).queue@, symbol@) {
                waiting(old(self).queue@)
            } else {
                waiting(old(self).queue@).push((symbol@, false))
            }),
            joins(old(self).queue@, final(self).queue@, symbol@, false, true),
    {
        self.known.put(symbol.to_owned(), ());
        assert(self.known.as_map().dom() =~= old(self).known.as_map().dom().insert(symbol@));
        self.push(symbol.to_owned(), false);
    }

    /// Ask for every known symbol again. Those that do not wait join the queue
    /// behind those that do.
    pub fn refresh(&mut self)
        requires
            old(self).wf(),
        ensures
            final(self).wf(),
            final(self).known == old(self).known,
            waiting(old(self).queue@).is_prefix_of(waiting(final(self).queue@)),
            forall|s: Seq<char>| #[trigger]
                waits(final(self).queue@, s) <==> old(self).known.as_map().dom().contains(s),
            forall|i: int|
                old(self).queue@.len() <= i < final(self).queue@.len()
                    ==> !(#[trigger] final(self).queue@[i]).retry,
    {
        let ghost held = *self;
        let n: usize = self.known.names.len();
        let mut i: usize = 0;
        assert(waiting(held.queue@).is_prefix_of(waiting(self.queue@)));
        while i < n
            invariant
                i <= n,
                n == self.known.names@.len(),
                self.wf(),
                self.known == held.known,
                held.wf(),
                waiting(held.queue@).is_prefix_of(waiting(self.queue@)),
                forall|s: Seq<char>|
                    #[trigger] waits(held.queue@, s) ==> waits(self.queue@, s),
                forall|j: int|
                    0 <= j < i ==> waits(self.queue@, (#[trigger] held.known.names@[j])@),
                forall|k: int|
                    held.queue@.len() <= k < self.queue@.len()
                        ==> !(#[trigger] self.queue@[k]).retry,
            decreases n - i,
        {
            let ghost o = *self;
            let symbol: String = self.known.names[i].clone();
            proof {
                self.known.lemma_entry(i as int);
            }
            self.push(symbol, false);
            proof {
                let w = waiting(o.queue@);
                let v = waiting(self.queue@);
                assert(w.is_prefix_of(v));
                assert forall|k: int|
                    held.queue@.len() <= k < self.queue@.len() implies !(
                #[trigger] self.queue@[k]).retry by {
                    assert(v[k].1 == self.queue@[k].retry);
                    if k < o.queue@.len() {
                        assert(w[k].1 == o.queue@[k].retry);
                        assert(v[k] == w[k]);
                    }
                }
                assert forall|j: int| 0 <= j < i + 1 implies waits(
                    self.queue@,
                    (#[trigger] held.known.names@[j])@,
                ) by {
                    if j < i {
                        assert(waits(o.queue@, held.known.names@[j]@));
                    }
                }
            }
            i = i + 1;
        }
        proof {
            assert forall|s: Seq<char>| #[trigger]
                waits(self.queue@, s) <==> held.known.as_map().dom().contains(s) by {
                if held.known.as_map().dom().contains(s) {
                    let j = views(held.known.names@).index_of(s);
                    assert(held.known.names@[j]@ == s);
                }
                if waits(self.queue@, s) {
                    let k = choose|k: int|
                        0 <= k < self.queue@.len() && (#[trigger] self.queue@[k]).symbol@ == s;
                    assert(self.known.as_map().dom().contains(self.queue@[k].symbol@));
                }
            }
        }
    }

    /// Take the request that waits longest.
    pub fn next(&mut self) -> (r: Option<SnapshotRequest>)
        requires
            old(self).wf(),
        ensures
            final(self).wf(),
            final(self).known == old(self).known,
            match r {
                Some(req) => old(self).queue@.len() > 0 && req == old(self).queue@[0]
                    && final(self).queue@ == old(self).queue@.drop_first() && !waits(
                    final(self).queue@,
                    req.symbol@,
                ),
                None => old(self).queue@.len() == 0 && final(self).queue@ == old(self).queue@,
            },
    {
        if self.queue.len() == 0 {
            return None;
        }
        let ghost o = self.queue@;
        let req: SnapshotRequest = self.queue.remove(0);
        proof {
            let n = self.queue@;
            assert(n =~= o.drop_first());
            assert forall|i: int, j: int| 0 <= i < j < n.len() implies (#[trigger] n[i]).symbol@ != (
            #[trigger] n[j]).symbol@ by {
                assert(n[i] == o[i + 1] && n[j] == o[j + 1]);
            }
            assert forall|i: int| 0 <= i < n.len() implies self.known.as_map().dom().contains(
                (#[trigger] n[i]).symbol@,
            ) by {
                assert(n[i] == o[i + 1]);
            }
            assert(!waits(n, req.symbol@)) by {
                if waits(n, req.symbol@) {
                    let i = choose|i: int|
                        0 <= i < n.len() && (#[trigger] n[i]).symbol@ == req.symbol@;
                    assert(n[i] == o[i + 1]);
                    assert(o[0].symbol@ != o[i + 1].symbol@);
                }
            }
        }
        Some(req)
    }

    /// A fetch failed: it is tried once more, after which the sweep picks the
    /// symbol up again.
    pub fn failed(&mut self, req: SnapshotRequest)
        requires
            old(self).wf(),
            old(self).known.as_map().dom().contains(req.symbol@),
        ensures
            final(self).wf(),
            final(self).known == old(self).known,
            waiting(final(self).queue@) == (if req.retry || waits(old(self).queue@, req.symbol@) {
                waiting(old(self).queue@)
            } else {
                waiting(old(self).queue@).push((req.symbol@, true))
            }),
            joins(old(self).queue@, final(self).queue@, req.symbol@, true, !req.retry),
    {
        if !req.retry {
            self.push(req.symbol, true);
        }
    }
}

/// The request for a snapshot; REST wants the symbol in upper case.
pub fn snapshot_url(symbol: &str) -> (r: String)
    ensures
        r@ == "https://fapi.binance.com/fapi/v1/depth?symbol="@ + uppercase(symbol@)
            + "&limit=1000"@,
{
    "https://fapi.binance.com/fapi/v1/depth?symbol=".to_owned().concat(
        to_upper(symbol).as_str(),
    ).concat("&limit=1000")
}

/// A snapshot as the venue sends it.
#[derive(Debug)]
pub struct DepthSnapshot {
    pub last_update_id: u64,
    /// Milliseconds.
    pub transaction_time: u64,
    pub bids: Vec<Level>,
    pub asks: Vec<Level>,
}

/// The event tells the snapshot.
pub open spec fn tells_snapshot(
    e: Event,
    venue: Seq<char>,
    symbol: Seq<char>,
    resp: DepthSnapshot,
    now: Nanos,
) -> bool {
    &&& e.enveloped(
        venue,
        Some(symbol),
        Some((resp.transaction_time * 1_000_000) as u64),
        now,
        SourceId(0),
    )
    &&& e.payload matches Payload::Market(MarketPayload::BookSnapshot { bids, asks, last_update_id })
        && bids@ == resp.bids@ && asks@ == resp.asks@ && last_update_id == resp.last_update_id
}

/// The event of a snapshot received at `now`.
pub fn snapshot_event(venue: &VenueId, symbol: &str, resp: &DepthSnapshot, now: Nanos) -> (r: Event)
    requires
        in_nanos(resp.transaction_time),
    ensures
        r.enveloped(
            venue.value@,
            Some(symbol@),
            Some((resp.transaction_time * 1_000_000) as u64),
            now,
            SourceId(0),
        ),
        r.payload matches Payload::Market(
            MarketPayload::BookSnapshot { bids, asks, last_update_id },
        ) && bids@ == resp.bids@ && asks@ == resp.asks@ && last_update_id == resp.last_update_id,
        tells_snapshot(r, venue.value@, symbol@, *resp, now),
{
    Event {
        venue: venue.clone(),
        instrument: Some(InstrumentId { value: symbol.to_owned() }),
        venue_ts: Some(ms_to_nanos(resp.transaction_time)),
        local_ts: now,
        source: SourceId::rest(),
        provenance: None,
        payload: Payload::Market(
            MarketPayload::BookSnapshot {
                bids: copy_levels(&resp.bids),
                asks: copy_levels(&resp.asks),
                last_update_id: resp.last_update_id,
            },
        ),
    }
}

} // verus!
