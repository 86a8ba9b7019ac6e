//! The heartbeat: rates and staleness by kind, so that a part that died silently
//! shows. It informs; which silence is normal the reader judges.
use crate::recorder::stats::{
    age, kind_at, kind_index, kind_name, CaptureSnapshot, CaptureStats, CaptureView, EventKind,
    KINDS,
};
use crate::text::{dec, u64_text};
use vstd::prelude::*;
use vstd::string::*;

verus! {

/// Nanoseconds in a second.
pub const SECOND_NS: u64 = 1_000_000_000;

/// The kinds among the first `k` that had events since, with how many.
pub open spec fn growth(prev: Seq<u64>, snap: Seq<u64>, k: nat) -> Seq<(EventKind, u64)>
    decreases k,
{
    if k == 0 {
        Seq::empty()
    } else {
        let i = k - 1;
        let rest = growth(prev, snap, i as nat);
        if snap[i] > prev[i] {
            rest.push((kind_at(i), (snap[i] - prev[i]) as u64))
        } else {
            rest
        }
    }
}

/// The kinds that had events since the copy before, with how many, in the order
/// of the kinds.
pub fn deltas(prev: &CaptureSnapshot, snap: &CaptureSnapshot) -> (r: Vec<(EventKind, u64)>)
    requires
        prev.by_kind@.len() == KINDS,
        snap.by_kind@.len() == KINDS,
    ensures
        r@ == growth(prev.by_kind@, snap.by_kind@, KINDS as nat),
{
    let kinds: Vec<EventKind> = EventKind::all();
    let mut r: Vec<(EventKind, u64)> = Vec::new();
    let mut i: usize = 0;
    while i < KINDS
        invariant
            i <= KINDS,
            prev.by_kind@.len() == KINDS,
            snap.by_kind@.len() == KINDS,
            kinds@.len() == KINDS,
            forall|j: int| 0 <= j < KINDS ==> #[trigger] kinds@[j] == kind_at(j),
            r@ == growth(prev.by_kind@, snap.by_kind@, i as nat),
        decreases KINDS - i,
    {
        let delta: u64 = snap.by_kind[i].saturating_sub(prev.by_kind[i]);
        if delta > 0 {
            r.push((kinds[i], delta));
        }
        i = i + 1;
    }
    r
}

/// One kind in the staleness line.
pub open spec fn stale_entry(v: CaptureView, now: u64, i: int) -> Option<Seq<char>> {
    match age(v.last_event_unix_ns[i], now) {
        Some(a) => if v.by_kind[i] > 0 {
            Some(kind_name(kind_at(i)) + "="@ + dec((a / SECOND_NS) as nat) + "s"@)
        } else {
            None
        },
        None => None,
    }
}

/// The entries of the first `k` kinds, with a space between.
pub open spec fn stale_text(v: CaptureView, now: u64, k: nat) -> Seq<char>
    decreases k,
{
    if k == 0 {
        Seq::empty()
    } else {
        let rest = stale_text(v, now, (k - 1) as nat);
        match stale_entry(v, now, k - 1) {
            Some(e) => if rest.len() == 0 {
                e
            } else {
                rest + " "@ + e
            },
            None => rest,
        }
    }
}

/// For each kind that had events, how many seconds ago the last was.
pub fn staleness_line(stats: &CaptureStats, now_ns: u64) -> (r: String)
    requires
        stats.wf(),
    ensures
        r@ == stale_text(stats@, now_ns, KINDS as nat),
{
    let kinds: Vec<EventKind> = EventKind::all();
    let mut line: String = String::new();
    let mut i: usize = 0;
    while i < KINDS
        invariant
            i <= KINDS,
            stats.wf(),
            kinds@.len() == KINDS,
            forall|j: int| 0 <= j < KINDS ==> #[trigger] kinds@[j] == kind_at(j),
            line@ == stale_text(stats@, now_ns, i as nat),
        decreases KINDS - i,
    {
        let kind: EventKind = kinds[i];
        assert(kind_index(kind) == i);
        if stats.count(kind) > 0 {
            if let Some(a) = stats.staleness(kind, now_ns) {
                let entry: String = kind.name().to_owned().concat("=").concat(
                    u64_text(a / SECOND_NS).as_str(),
                ).concat("s");
                if line.as_str().unicode_len() > 0 {
                    line = line.concat(" ");
                }
                line = line.concat(entry.as_str());
                assert(line@ =~= stale_text(stats@, now_ns, (i + 1) as nat));
            }
        }
        i = i + 1;
    }
    line
}

} // verus!
