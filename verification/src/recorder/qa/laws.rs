//! What the running state means for the file as a whole.
use crate::events::Event;
use crate::recorder::qa::history::{
    about, chain_breaks, continues, depth_excused, depth_source, last_final, loses_connection,
    snapshot_in, snapshots, trades_excused, update_in, updates_book,
};
use vstd::prelude::*;

verus! {

/// Position `i` holds the latest depth update of `name`.
pub open spec fn latest_update(h: Seq<Event>, name: Seq<char>, i: int) -> bool {
    &&& 0 <= i < h.len()
    &&& updates_book(h[i], name)
    &&& forall|k: int| i < k < h.len() ==> !updates_book(#[trigger] h[k], name)
}

/// Behind the latest depth update, at `i`, its connection was lost, at `j`.
pub open spec fn depth_excuse(h: Seq<Event>, name: Seq<char>, i: int, j: int) -> bool {
    &&& latest_update(h, name, i)
    &&& i < j < h.len()
    &&& loses_connection(h[j])
    &&& h[j].source == h[i].source
}

proof fn lemma_depth_source(h: Seq<Event>, name: Seq<char>) -> (i: int)
    requires
        depth_source(h, name) is Some,
    ensures
        latest_update(h, name, i),
        depth_source(h, name) == Some(h[i].source),
    decreases h.len(),
{
    if updates_book(h.last(), name) {
        h.len() - 1
    } else {
        let i = lemma_depth_source(h.drop_last(), name);
        assert forall|k: int| i < k < h.len() implies !updates_book(#[trigger] h[k], name) by {
            if k < h.len() - 1 {
                assert(h.drop_last()[k] == h[k]);
            }
        }
        i
    }
}

proof fn lemma_latest_is_source(h: Seq<Event>, name: Seq<char>, i: int)
    requires
        latest_update(h, name, i),
    ensures
        depth_source(h, name) == Some(h[i].source),
        last_final(h, name) == Some(update_in(h[i])->0.last),
    decreases h.len(),
{
    if i < h.len() - 1 {
        assert(!updates_book(h[h.len() - 1], name));
        let p = h.drop_last();
        assert forall|k: int| i < k < p.len() implies !updates_book(#[trigger] p[k], name) by {
            assert(p[k] == h[k]);
        }
        lemma_latest_is_source(p, name, i);
    }
}

/// A break in the depth chain is excused exactly when the connection that fed
/// the latest update was lost since: a loss on another connection excuses
/// nothing, and neither does one before the latest update.
pub proof fn law_excused_iff_connection_lost(h: Seq<Event>, name: Seq<char>)
    ensures
        depth_excused(h, name) == (exists|i: int, j: int| #[trigger] depth_excuse(h, name, i, j)),
    decreases h.len(),
{
    if h.len() > 0 {
        let p = h.drop_last();
        let e = h.last();
        let n = h.len() - 1;
        law_excused_iff_connection_lost(p, name);
        if updates_book(e, name) {
            assert forall|i: int, j: int| !#[trigger] depth_excuse(h, name, i, j) by {
                if depth_excuse(h, name, i, j) {
                    assert(!updates_book(h[n], name));
                }
            }
        } else if loses_connection(e) && depth_source(p, name) == Some(e.source) {
            let i = lemma_depth_source(p, name);
            assert forall|k: int| i < k < h.len() implies !updates_book(#[trigger] h[k], name) by {
                if k < n {
                    assert(p[k] == h[k]);
                }
            }
            assert(depth_excuse(h, name, i, n));
        } else {
            assert forall|i: int, j: int| #[trigger]
                depth_excuse(h, name, i, j) == depth_excuse(p, name, i, j) by {
                if depth_excuse(h, name, i, j) {
                    assert forall|k: int| i < k < p.len() implies !updates_book(
                        #[trigger] p[k],
                        name,
                    ) by {
                        assert(p[k] == h[k]);
                    }
                    lemma_latest_is_source(p, name, i);
                    assert(p[i] == h[i]);
                    if j < n {
                        assert(p[j] == h[j]);
                    }
                }
                if depth_excuse(p, name, i, j) {
                    assert forall|k: int| i < k < h.len() implies !updates_book(
                        #[trigger] h[k],
                        name,
                    ) by {
                        if k < n {
                            assert(p[k] == h[k]);
                        }
                    }
                    assert(p[i] == h[i] && p[j] == h[j]);
                }
            }
            if depth_excused(h, name) {
                let (i, j) = choose|i: int, j: int| #[trigger] depth_excuse(p, name, i, j);
                assert(depth_excuse(h, name, i, j));
            }
            if exists|i: int, j: int| #[trigger] depth_excuse(h, name, i, j) {
                let (i, j) = choose|i: int, j: int| #[trigger] depth_excuse(h, name, i, j);
                assert(depth_excuse(p, name, i, j));
            }
        }
    }
}

/// Behind the latest depth update, at `i`, its connection was lost.
pub open spec fn lost_since(h: Seq<Event>, i: int) -> bool {
    exists|j: int|
        i < j < h.len() && loses_connection(#[trigger] h[j]) && h[j].source == h[i].source
}

/// What a depth update does to the counts of chain breaks. One whose predecessor
/// is not the latest update, at `i`, makes exactly one count of its instrument
/// grow, by one: the explained one where the connection that fed the latest
/// update was lost since, else the unexplained one. One that continues the latest
/// update, or names no predecessor, leaves both. The counts of other instruments
/// stay in any case.
pub proof fn law_break_is_counted_once(h: Seq<Event>, e: Event, name: Seq<char>, i: int)
    requires
        updates_book(e, name),
        latest_update(h, name, i),
    ensures
        ({
            let n = h.push(e);
            let broken = update_in(e)->0.prev matches Some(pu) && pu != update_in(h[i])->0.last;
            let why = lost_since(h, i);
            &&& chain_breaks(n, name, why) == chain_breaks(h, name, why) + (if broken {
                1int
            } else {
                0
            })
            &&& chain_breaks(n, name, !why) == chain_breaks(h, name, !why)
            &&& forall|other: Seq<char>, b: bool|
                other != name ==> #[trigger] chain_breaks(n, other, b) == chain_breaks(h, other, b)
        }),
{
    let n = h.push(e);
    assert(n.drop_last() =~= h);
    lemma_latest_is_source(h, name, i);
    law_excused_iff_connection_lost(h, name);
    if lost_since(h, i) {
        let j = choose|j: int|
            i < j < h.len() && loses_connection(#[trigger] h[j]) && h[j].source == h[i].source;
        assert(depth_excuse(h, name, i, j));
    }
    if depth_excused(h, name) {
        let (a, j) = choose|a: int, j: int| #[trigger] depth_excuse(h, name, a, j);
        assert(a == i) by {
            if a < i {
                assert(!updates_book(h[i], name));
            } else if i < a {
                assert(!updates_book(h[a], name));
            }
        }
        assert(lost_since(h, i));
    }
}

/// Nothing but a depth update of an instrument changes its counts of chain
/// breaks, and neither does its first.
pub proof fn law_only_updates_break(h: Seq<Event>, e: Event, name: Seq<char>, excused: bool)
    requires
        !updates_book(e, name) || forall|i: int|
            0 <= i < h.len() ==> !updates_book(#[trigger] h[i], name),
    ensures
        chain_breaks(h.push(e), name, excused) == chain_breaks(h, name, excused),
{
    assert(h.push(e).drop_last() =~= h);
    if updates_book(e, name) {
        lemma_no_update(h, name);
    }
}

proof fn lemma_no_update(h: Seq<Event>, name: Seq<char>)
    requires
        forall|i: int| 0 <= i < h.len() ==> !updates_book(#[trigger] h[i], name),
    ensures
        last_final(h, name) is None,
    decreases h.len(),
{
    if h.len() > 0 {
        let p = h.drop_last();
        assert(!updates_book(h[h.len() - 1], name));
        assert forall|i: int| 0 <= i < p.len() implies !updates_book(#[trigger] p[i], name) by {
            assert(p[i] == h[i]);
        }
        lemma_no_update(p, name);
    }
}

/// While no connection is lost, every chain break counts as data loss.
pub proof fn law_no_loss_no_excuse(h: Seq<Event>, name: Seq<char>)
    requires
        forall|i: int| 0 <= i < h.len() ==> !loses_connection(#[trigger] h[i]),
    ensures
        chain_breaks(h, name, true) == 0,
        !depth_excused(h, name),
        !trades_excused(h, name),
    decreases h.len(),
{
    if h.len() > 0 {
        let p = h.drop_last();
        assert forall|i: int| 0 <= i < p.len() implies !loses_connection(#[trigger] p[i]) by {
            assert(p[i] == h[i]);
        }
        assert(!loses_connection(h[h.len() - 1]));
        law_no_loss_no_excuse(p, name);
    }
}

/// The event at `j` is a depth update that continues the snapshot at `i`.
pub open spec fn splices(h: Seq<Event>, name: Seq<char>, i: int, j: int) -> bool {
    &&& i < j < h.len()
    &&& updates_book(h[j], name)
    &&& continues(update_in(h[j])->0, snapshot_in(h[i])->0)
}

/// A snapshot counts as spliced exactly when some later depth update of its
/// instrument continues it: `U <= lastUpdateId + 1 <= u`.
pub proof fn law_spliced_iff_continued(h: Seq<Event>, name: Seq<char>, i: int)
    requires
        0 <= i < h.len(),
        about(h[i], name),
        snapshot_in(h[i]) is Some,
    ensures
        ({
            let at = snapshots(h.take(i), name).len() as int;
            &&& at < snapshots(h, name).len()
            &&& snapshots(h, name)[at].last_update_id == snapshot_in(h[i])->0
            &&& snapshots(h, name)[at].local_ts == h[i].local_ts
            &&& snapshots(h, name)[at].spliced == (exists|j: int| #[trigger] splices(h, name, i, j))
        }),
    decreases h.len(),
{
    let p = h.drop_last();
    let n = h.len() - 1;
    let at = snapshots(h.take(i), name).len() as int;
    if i == n {
        assert(h.take(i) =~= p);
        assert(forall|j: int| !splices(h, name, i, j));
    } else {
        assert(p[i] == h[i]);
        assert(p.take(i) =~= h.take(i));
        law_spliced_iff_continued(p, name, i);
        assert forall|j: int| j < n implies #[trigger] splices(h, name, i, j) == splices(
            p,
            name,
            i,
            j,
        ) by {
            if 0 <= j < n {
                assert(p[j] == h[j]);
            }
        }
        let was = exists|j: int| #[trigger] splices(p, name, i, j);
        if was {
            let j = choose|j: int| #[trigger] splices(p, name, i, j);
            assert(splices(h, name, i, j));
        }
        if updates_book(h[n], name) {
            if continues(update_in(h[n])->0, snapshot_in(h[i])->0) {
                assert(splices(h, name, i, n));
            }
        }
        if exists|j: int| #[trigger] splices(h, name, i, j) {
            let j = choose|j: int| #[trigger] splices(h, name, i, j);
            if j < n {
                assert(splices(p, name, i, j));
            }
        }
        assert(snapshots(h, name)[at].spliced == (exists|j: int| #[trigger]
            splices(h, name, i, j)));
    }
}

} // verus!
