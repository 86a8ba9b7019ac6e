//! What the process tells: every change of the universe, and how its capture
//! fares.
use super::heartbeat::{growth, stale_entry, stale_text};
use super::startup::{lists, undumped, unlisted};
use super::universe::{
    all_told, earlier, follows, is_added, is_changed, is_gone, is_news, listing, observed, perp_ids,
    tells, to_tell, trading_perp, Manager, Observation, UniverseChanges,
};
use crate::adapter::{DataType, Scope, Subscription};
use crate::calendar::Date;
use crate::config::DataTypeCfg;
use crate::events::Event;
use crate::order::NameMap;
use crate::payloads::{Payload, ReferencePayload};
use crate::recorder::stats::{age, kind_at, kind_name, CaptureView, EventKind};
use crate::text::{dec, lowercase, views};
use crate::types::{Instrument, InstrumentClass, InstrumentId, LifecycleState, Nanos};
use vstd::prelude::*;
use vstd::string::*;

verus! {

proof fn lemma_filter_contains<A>(s: Seq<A>, f: spec_fn(A) -> bool, x: A)
    ensures
        s.filter(f).contains(x) <==> s.contains(x) && f(x),
    decreases s.len(),
{
    reveal(Seq::filter);
    if s.len() > 0 {
        let front = s.drop_last();
        lemma_filter_contains(front, f, x);
        assert(s =~= front.push(s.last()));
        lemma_push_contains(front, s.last(), x);
        lemma_push_contains(front.filter(f), s.last(), x);
    } else {
        assert(s.filter(f).len() == 0);
    }
}

proof fn lemma_push_contains<T>(s: Seq<T>, y: T, x: T)
    ensures
        s.push(y).contains(x) <==> s.contains(x) || x == y,
{
    if s.contains(x) {
        let i = choose|i: int| 0 <= i < s.len() && s[i] == x;
        assert(s.push(y)[i] == x);
    }
    assert(s.push(y)[s.len() as int] == y);
    if s.push(y).contains(x) && x != y {
        let i = choose|i: int| 0 <= i < s.push(y).len() && s.push(y)[i] == x;
        assert(s[i] == x);
    }
}

// ---------------------------------------------------------------------------
// The universe
// ---------------------------------------------------------------------------

/// An event about the instrument of that id.
pub open spec fn about(e: Event, id: Seq<char>) -> bool {
    e.instrument matches Some(i) && i.value@ == id
}

/// What an event tells of an instrument that came.
pub open spec fn tells_added(e: Event, i: Instrument) -> bool {
    e.payload == Payload::Reference(ReferencePayload::InstrumentAdded { instrument: i })
}

/// What an event tells of an instrument that changed.
pub open spec fn tells_changed(e: Event, i: Instrument) -> bool {
    e.payload == Payload::Reference(ReferencePayload::InstrumentChanged { instrument: i })
}

/// What an event tells of an instrument that went.
pub open spec fn tells_gone(e: Event, id: Seq<char>) -> bool {
    e.payload matches Payload::Reference(ReferencePayload::InstrumentDelisted { instrument_id })
        && instrument_id.value@ == id
}

/// Some event is about the instrument.
pub open spec fn spoken_of(events: Seq<Event>, id: Seq<char>) -> bool {
    exists|i: int| 0 <= i < events.len() && about(#[trigger] events[i], id)
}

proof fn lemma_spoken_of(
    o: Observation,
    venue: Seq<char>,
    now: Nanos,
    prev: NameMap<Instrument>,
    new: NameMap<Instrument>,
    k: Seq<char>,
)
    requires
        observed(o, venue, now, prev, new),
    ensures
        spoken_of(o.events@, k) <==> to_tell(prev, new).contains(k),
        to_tell(prev, new).contains(k) <==> (new.as_map().dom().contains(k) && (
        !prev.as_map().dom().contains(k) || !prev.as_map()[k].same_as(new.as_map()[k]))) || (
        prev.as_map().dom().contains(k) && !new.as_map().dom().contains(k)),
        forall|i: int|
            0 <= i < o.events@.len() && about(#[trigger] o.events@[i], k) ==> tells(
                o.events@[i],
                venue,
                now,
                k,
                prev.as_map(),
                new.as_map(),
            ),
{
    let p = prev.as_map();
    let n = new.as_map();
    let keys = to_tell(prev, new);
    let a = views(new.names@).filter(is_news(p, n));
    let b = views(prev.names@).filter(is_gone(n));
    lemma_filter_contains(views(new.names@), is_news(p, n), k);
    lemma_filter_contains(views(prev.names@), is_gone(n), k);
    assert(keys.contains(k) <==> a.contains(k) || b.contains(k)) by {
        if a.contains(k) {
            let i = choose|i: int| 0 <= i < a.len() && a[i] == k;
            assert(keys[i] == k);
        }
        if b.contains(k) {
            let i = choose|i: int| 0 <= i < b.len() && b[i] == k;
            assert(keys[a.len() + i] == k);
        }
        if keys.contains(k) {
            let i = choose|i: int| 0 <= i < keys.len() && keys[i] == k;
            if i < a.len() {
                assert(a[i] == k);
            } else {
                assert(b[i - a.len()] == k);
            }
        }
    }
    assert(all_told(o.events@, keys, venue, now, p, n));
    if keys.contains(k) {
        let i = choose|i: int| 0 <= i < keys.len() && keys[i] == k;
        assert(tells(o.events@[i], venue, now, keys[i], p, n));
        assert(about(o.events@[i], k));
    }
    assert forall|i: int| 0 <= i < o.events@.len() && about(#[trigger] o.events@[i], k) implies tells(
        o.events@[i],
        venue,
        now,
        k,
        p,
        n,
    ) by {
        assert(tells(o.events@[i], venue, now, keys[i], p, n));
        assert(keys[i] == k);
    }
    if spoken_of(o.events@, k) {
        let i = choose|i: int| 0 <= i < o.events@.len() && about(#[trigger] o.events@[i], k);
        assert(tells(o.events@[i], venue, now, keys[i], p, n));
        assert(keys[i] == k);
    }
}

/// An instrument that was not listed is told as added, as it is listed now.
pub proof fn law_newcomers_are_told(
    o: Observation,
    venue: Seq<char>,
    now: Nanos,
    prev: NameMap<Instrument>,
    new: NameMap<Instrument>,
    k: Seq<char>,
)
    requires
        observed(o, venue, now, prev, new),
        new.as_map().dom().contains(k),
        !prev.as_map().dom().contains(k),
    ensures
        spoken_of(o.events@, k),
        forall|i: int|
            0 <= i < o.events@.len() && about(#[trigger] o.events@[i], k) ==> tells_added(
                o.events@[i],
                new.as_map()[k],
            ),
{
    lemma_spoken_of(o, venue, now, prev, new, k);
}

/// One that is listed otherwise than before is told as changed, as it is now.
pub proof fn law_differences_are_told(
    o: Observation,
    venue: Seq<char>,
    now: Nanos,
    prev: NameMap<Instrument>,
    new: NameMap<Instrument>,
    k: Seq<char>,
)
    requires
        observed(o, venue, now, prev, new),
        new.as_map().dom().contains(k),
        prev.as_map().dom().contains(k),
        !prev.as_map()[k].same_as(new.as_map()[k]),
    ensures
        spoken_of(o.events@, k),
        forall|i: int|
            0 <= i < o.events@.len() && about(#[trigger] o.events@[i], k) ==> tells_changed(
                o.events@[i],
                new.as_map()[k],
            ),
{
    lemma_spoken_of(o, venue, now, prev, new, k);
}

/// One that is no longer listed is told as delisted.
pub proof fn law_departures_are_told(
    o: Observation,
    venue: Seq<char>,
    now: Nanos,
    prev: NameMap<Instrument>,
    new: NameMap<Instrument>,
    k: Seq<char>,
)
    requires
        observed(o, venue, now, prev, new),
        !new.as_map().dom().contains(k),
        prev.as_map().dom().contains(k),
    ensures
        spoken_of(o.events@, k),
        forall|i: int|
            0 <= i < o.events@.len() && about(#[trigger] o.events@[i], k) ==> tells_gone(
                o.events@[i],
                k,
            ),
{
    lemma_spoken_of(o, venue, now, prev, new, k);
}

/// Of an instrument that stays as it was, and of one that is in neither listing,
/// nothing is told.
pub proof fn law_the_unchanged_is_not_told(
    o: Observation,
    venue: Seq<char>,
    now: Nanos,
    prev: NameMap<Instrument>,
    new: NameMap<Instrument>,
    k: Seq<char>,
)
    requires
        observed(o, venue, now, prev, new),
        new.as_map().dom().contains(k) <==> prev.as_map().dom().contains(k),
        new.as_map().dom().contains(k) ==> prev.as_map()[k].same_as(new.as_map()[k]),
    ensures
        !spoken_of(o.events@, k),
{
    lemma_spoken_of(o, venue, now, prev, new, k);
}

/// Everything told is of the venue and of now, and comes from no connection.
pub proof fn law_told_of_the_venue_now(
    o: Observation,
    venue: Seq<char>,
    now: Nanos,
    prev: NameMap<Instrument>,
    new: NameMap<Instrument>,
    i: int,
)
    requires
        observed(o, venue, now, prev, new),
        0 <= i < o.events@.len(),
    ensures
        o.events@[i].venue.value@ == venue,
        o.events@[i].local_ts == now,
        o.events@[i].venue_ts is None,
        o.events@[i].source.0 == 0,
        o.events@[i].instrument is Some,
{
    assert(tells(
        o.events@[i],
        venue,
        now,
        to_tell(prev, new)[i],
        prev.as_map(),
        new.as_map(),
    ));
}

proof fn lemma_news_splits(
    s: Seq<Seq<char>>,
    p: Map<Seq<char>, Instrument>,
    n: Map<Seq<char>, Instrument>,
)
    ensures
        s.filter(is_news(p, n)).len() == s.filter(is_added(p)).len() + s.filter(
            is_changed(p, n),
        ).len(),
    decreases s.len(),
{
    reveal(Seq::filter);
    if s.len() > 0 {
        lemma_news_splits(s.drop_last(), p, n);
    }
}

/// What is counted is what is told: one event for each instrument that came,
/// changed or went.
pub proof fn law_counts_are_of_events(
    o: Observation,
    venue: Seq<char>,
    now: Nanos,
    prev: NameMap<Instrument>,
    new: NameMap<Instrument>,
)
    requires
        observed(o, venue, now, prev, new),
    ensures
        o.events@.len() == o.changes.added@.len() + o.changes.changed + o.changes.delisted,
{
    lemma_news_splits(views(new.names@), prev.as_map(), new.as_map());
}

/// The ids that came are those of instruments that are listed now and were not.
pub proof fn law_added_ids_are_new(
    o: Observation,
    venue: Seq<char>,
    now: Nanos,
    prev: NameMap<Instrument>,
    new: NameMap<Instrument>,
    k: Seq<char>,
)
    requires
        observed(o, venue, now, prev, new),
        new.as_map().dom().contains(k),
        !prev.as_map().dom().contains(k),
    ensures
        o.changes.added@.contains(new.as_map()[k].id),
{
    let keys = views(new.names@).filter(is_added(prev.as_map()));
    lemma_filter_contains(views(new.names@), is_added(prev.as_map()), k);
    let i = choose|i: int| 0 <= i < keys.len() && keys[i] == k;
    assert(o.changes.added@[i] == new.as_map()[keys[i]].id);
}

/// In a listing the last instrument of an id counts, whatever its case.
pub proof fn law_last_listed_counts(list: Seq<Instrument>, i: int)
    requires
        0 <= i < list.len(),
        forall|j: int|
            i < j < list.len() ==> lowercase((#[trigger] list[j]).id.value@) != lowercase(
                list[i].id.value@,
            ),
    ensures
        listing(list).dom().contains(lowercase(list[i].id.value@)),
        listing(list)[lowercase(list[i].id.value@)] == list[i],
    decreases list.len(),
{
    if i < list.len() - 1 {
        let front = list.drop_last();
        assert(front[i] == list[i]);
        assert forall|j: int| i < j < front.len() implies lowercase((#[trigger] front[j]).id.value@)
            != lowercase(front[i].id.value@) by {
            assert(front[j] == list[j]);
        }
        law_last_listed_counts(front, i);
        assert(list.last() == list[list.len() - 1]);
    }
}

/// A listing holds nothing that was not listed.
pub proof fn law_listing_invents_nothing(list: Seq<Instrument>, k: Seq<char>)
    requires
        listing(list).dom().contains(k),
    ensures
        list.contains(listing(list)[k]),
        lowercase(listing(list)[k].id.value@) == k,
    decreases list.len(),
{
    let front = list.drop_last();
    assert(list =~= front.push(list.last()));
    if lowercase(list.last().id.value@) == k {
        lemma_push_contains(front, list.last(), list.last());
    } else {
        law_listing_invents_nothing(front, k);
        lemma_push_contains(front, list.last(), listing(front)[k]);
    }
}

/// A difference in any field makes two observations of an instrument differ:
/// where they agree, so does every field, decimals as numbers.
pub proof fn law_agreement_is_in_every_field(a: Instrument, b: Instrument)
    ensures
        a.same_as(b) ==> a.id.value@ == b.id.value@ && a.class == b.class && a.lifecycle
            == b.lifecycle && a.linearity == b.linearity && a.funding_interval
            == b.funding_interval && a.base.0@ == b.base.0@ && a.quote.0@ == b.quote.0@,
        a.same_as(b) ==> (a.tick_size is Some <==> b.tick_size is Some) && (a.lot_size is Some
            <==> b.lot_size is Some) && (a.min_notional is Some <==> b.min_notional is Some) && (
        a.contract_multiplier is Some <==> b.contract_multiplier is Some) && (a.settle_ccy is Some
            <==> b.settle_ccy is Some),
        a.same_as(b) && a.tick_size is Some ==> a.tick_size->0.same_as(b.tick_size->0),
        a.same_as(b) && a.lot_size is Some ==> a.lot_size->0.same_as(b.lot_size->0),
        a.same_as(b) && a.min_notional is Some ==> a.min_notional->0.same_as(b.min_notional->0),
        a.same_as(b) && a.contract_multiplier is Some ==> a.contract_multiplier->0.same_as(
            b.contract_multiplier->0,
        ),
        a.same_as(b) && a.settle_ccy is Some ==> (a.settle_ccy->0).0@ == (b.settle_ccy->0).0@,
        a == b ==> a.same_as(b),
{
}

/// The perpetuals that are told of are those that trade, all of them.
pub proof fn law_told_perpetuals_trade(values: Seq<Instrument>, id: Seq<char>)
    ensures
        perp_ids(values).contains(id) <==> exists|i: int|
            0 <= i < values.len() && (#[trigger] values[i]).id.value@ == id && values[i].class
                == InstrumentClass::Perp && values[i].lifecycle == LifecycleState::Trading,
    decreases values.len(),
{
    reveal(Seq::filter);
    if values.len() > 0 {
        let front = values.drop_last();
        let last = values.last();
        let n = values.len() - 1;
        assert(values[n] == last);
        assert(forall|i: int| 0 <= i < front.len() ==> #[trigger] front[i] == values[i]);
        law_told_perpetuals_trade(front, id);
        lemma_push_contains(perp_ids(front), last.id.value@, id);
        if trading_perp(last) {
            assert(perp_ids(values) =~= perp_ids(front).push(last.id.value@));
        } else {
            assert(perp_ids(values) =~= perp_ids(front));
        }
        if exists|i: int|
            0 <= i < values.len() && (#[trigger] values[i]).id.value@ == id && values[i].class
                == InstrumentClass::Perp && values[i].lifecycle == LifecycleState::Trading {
            let i = choose|i: int|
                0 <= i < values.len() && (#[trigger] values[i]).id.value@ == id && values[i].class
                    == InstrumentClass::Perp && values[i].lifecycle == LifecycleState::Trading;
            if i < n {
                assert(front[i] == values[i]);
            }
        }
        if perp_ids(front).contains(id) {
            let i = choose|i: int|
                0 <= i < front.len() && (#[trigger] front[i]).id.value@ == id && front[i].class
                    == InstrumentClass::Perp && front[i].lifecycle == LifecycleState::Trading;
            assert(values[i] == front[i]);
        }
    } else {
        assert(perp_ids(values).len() == 0);
    }
}

/// The first listing ever is a baseline; one that follows another, in memory or
/// saved by an earlier run, is not. Followers are told where the perpetuals are
/// others than were told before.
pub proof fn law_only_the_first_listing_is_a_baseline(
    m: Manager,
    saved: Option<Seq<Instrument>>,
    after: Manager,
    o: Observation,
)
    requires
        m.steps(saved, after, o),
    ensures
        o.changes.baseline <==> m.prev is None && saved is None,
        after.prev is Some,
        m.prev is Some ==> earlier(m.prev, saved) == Some(m.prev->0.as_map()),
        m.prev is None && saved is Some ==> earlier(m.prev, saved) == Some(listing(saved->0)),
        o.perps_changed <==> views(m.perps@) != views(after.perps@),
        views(after.perps@) == perp_ids(after.prev->0.values@),
{
}

/// What is worth following came with this listing and is a perpetual that trades;
/// of a baseline nothing is.
pub proof fn law_candidates_came_and_trade(m: Manager, changes: UniverseChanges, id: InstrumentId)
    ensures
        changes.baseline ==> m.candidates(changes).len() == 0,
        m.candidates(changes).contains(id) ==> changes.added@.contains(id) && m.prev is Some,
        !changes.baseline && m.prev is Some ==> (m.candidates(changes).contains(id)
            <==> changes.added@.contains(id) && m.prev->0.as_map().dom().contains(
            lowercase(id.value@),
        ) && m.prev->0.as_map()[lowercase(id.value@)].class == InstrumentClass::Perp
            && m.prev->0.as_map()[lowercase(id.value@)].lifecycle == LifecycleState::Trading),
{
    if !changes.baseline && m.prev is Some {
        let keep = |x: InstrumentId|
            m.prev->0.as_map().dom().contains(lowercase(x.value@)) && trading_perp(
                m.prev->0.as_map()[lowercase(x.value@)],
            );
        lemma_filter_contains(changes.added@, keep, id);
        assert(m.candidates(changes) == changes.added@.filter(keep));
    }
}

/// A subscription that was not asked for covers the instruments that came and
/// every wanted type of data, in order; it is not made where either is missing.
pub proof fn law_newcomers_are_followed(
    fresh: Vec<InstrumentId>,
    data: Seq<DataTypeCfg>,
    r: Option<Subscription>,
    i: int,
)
    requires
        follows(fresh, data, r),
    ensures
        r is Some <==> fresh@.len() > 0 && data.len() > 0,
        r matches Some(s) ==> s.scope == Scope::Instruments(fresh) && s.data@.len() == data.len(),
        r is Some && 0 <= i < data.len() ==> (match data[i] {
            DataTypeCfg::BookTicker => r->0.data@[i] == DataType::BookTicker,
            DataTypeCfg::BookDepth => r->0.data@[i] == DataType::BookDepth,
            DataTypeCfg::Trade => r->0.data@[i] == DataType::Trade,
            DataTypeCfg::FundingRate => r->0.data@[i] == DataType::FundingRate,
            DataTypeCfg::MarkPrice => r->0.data@[i] == DataType::MarkPrice,
            DataTypeCfg::IndexPrice => r->0.data@[i] == DataType::IndexPrice,
            DataTypeCfg::Liquidation => r->0.data@[i] == DataType::Liquidation,
            DataTypeCfg::OpenInterest => r->0.data@[i] == DataType::OpenInterest,
        }),
{
}

// ---------------------------------------------------------------------------
// Start
// ---------------------------------------------------------------------------

/// A configured instrument stops the process where the venue lists none of its
/// lowercased id, and only there.
pub proof fn law_unlisted_instruments_are_found(
    configured: Seq<String>,
    instruments: Seq<Instrument>,
    id: String,
)
    ensures
        unlisted(configured, instruments).contains(id) <==> configured.contains(id) && forall|i: int|
            0 <= i < instruments.len() ==> lowercase((#[trigger] instruments[i]).id.value@) != id@,
    decreases configured.len(),
{
    reveal(Seq::filter);
    if configured.len() > 0 {
        let front = configured.drop_last();
        let last = configured.last();
        law_unlisted_instruments_are_found(front, instruments, id);
        assert(configured =~= front.push(last));
        lemma_push_contains(front, last, id);
        lemma_push_contains(unlisted(front, instruments), last, id);
        if lists(instruments, last@) {
            assert(unlisted(configured, instruments) =~= unlisted(front, instruments));
        } else {
            assert(unlisted(configured, instruments) =~= unlisted(front, instruments).push(last));
        }
    } else {
        assert(unlisted(configured, instruments).len() == 0);
    }
}

/// A listing is dumped once a day: it is due until it was dumped, and not again
/// before the next day.
pub proof fn law_one_dump_a_day(today: Date, next: Date)
    requires
        today != next,
    ensures
        undumped(None, today),
        !undumped(Some(today), today),
        undumped(Some(today), next),
{
}

// ---------------------------------------------------------------------------
// The heartbeat
// ---------------------------------------------------------------------------

/// Every kind that had events since is told with how many, and no other is.
pub proof fn law_growth_is_told(prev: Seq<u64>, snap: Seq<u64>, k: nat, i: int)
    requires
        0 <= i < k,
    ensures
        snap[i] > prev[i] ==> growth(prev, snap, k).contains(
            (kind_at(i), (snap[i] - prev[i]) as u64),
        ),
    decreases k,
{
    let front = growth(prev, snap, (k - 1) as nat);
    let e = (kind_at(k - 1), (snap[k - 1] - prev[k - 1]) as u64);
    let told = (kind_at(i), (snap[i] - prev[i]) as u64);
    if i < k - 1 {
        law_growth_is_told(prev, snap, (k - 1) as nat, i);
    }
    lemma_push_contains(front, e, told);
}

/// What is told grew.
pub proof fn law_only_growth_is_told(prev: Seq<u64>, snap: Seq<u64>, k: nat, e: (EventKind, u64))
    requires
        growth(prev, snap, k).contains(e),
    ensures
        e.1 > 0,
        exists|i: int|
            0 <= i < k && e.0 == #[trigger] kind_at(i) && snap[i] - prev[i] == e.1,
    decreases k,
{
    if k > 0 {
        let front = growth(prev, snap, (k - 1) as nat);
        let last = (kind_at(k - 1), (snap[k - 1] - prev[k - 1]) as u64);
        lemma_push_contains(front, last, e);
        if front.contains(e) {
            law_only_growth_is_told(prev, snap, (k - 1) as nat, e);
            let i = choose|i: int|
                0 <= i < k - 1 && e.0 == #[trigger] kind_at(i) && snap[i] - prev[i] == e.1;
            assert(e.0 == kind_at(i));
        } else {
            assert(e.0 == kind_at(k - 1));
        }
    }
}

/// A kind that never had an event has no entry; another has the whole seconds
/// since its last.
pub proof fn law_silence_is_told_in_seconds(v: CaptureView, now: u64, i: int)
    ensures
        v.by_kind[i] == 0 ==> stale_entry(v, now, i) is None,
        v.by_kind[i] > 0 ==> (stale_entry(v, now, i) is Some <==> age(
            v.last_event_unix_ns[i],
            now,
        ) is Some),
        stale_entry(v, now, i) matches Some(e) ==> e == kind_name(kind_at(i)) + "="@ + dec(
            (age(v.last_event_unix_ns[i], now)->0 / 1_000_000_000) as nat,
        ) + "s"@,
{
}

/// The line holds the entries of the kinds, one behind the other: another kind
/// leaves what stands and adds its own at the end.
pub proof fn law_line_grows_by_entries(v: CaptureView, now: u64, k: nat)
    ensures
        stale_text(v, now, k).is_prefix_of(stale_text(v, now, k + 1)),
        stale_entry(v, now, k as int) is None ==> stale_text(v, now, k + 1) == stale_text(v, now, k),
        stale_entry(v, now, k as int) matches Some(e) ==> stale_text(v, now, k + 1).len()
            == stale_text(v, now, k).len() + e.len() + (if stale_text(v, now, k).len() == 0 {
            0int
        } else {
            1
        }) && e.is_suffix_of(stale_text(v, now, k + 1)),
{
    reveal_strlit(" ");
    let a = stale_text(v, now, k);
    let b = stale_text(v, now, k + 1);
    assert(stale_entry(v, now, (k + 1) - 1) == stale_entry(v, now, k as int));
    match stale_entry(v, now, k as int) {
        Some(e) => {
            if a.len() == 0 {
                assert(b == e);
                assert(a =~= b.take(0));
                assert(e =~= b.skip(0));
            } else {
                assert(b == a + " "@ + e);
                assert(a =~= b.take(a.len() as int));
            }
        },
        None => {
            assert(a =~= b.take(a.len() as int));
        },
    }
}

} // verus!
