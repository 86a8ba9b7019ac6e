//! The universe of a venue: each full listing is held against the one before,
//! and what came, changed or went is recorded as reference events.
//!
//! Listings are compared as normalized instruments, so noise in the venue's
//! documents cannot pass for a change. The listing of an earlier run is read
//! back at the start; where there is none, every instrument is told once.
use crate::adapter::{DataType, Scope, Subscription};
use crate::config::DataTypeCfg;
use crate::events::Event;
use crate::order::NameMap;
use crate::payloads::{Payload, ReferencePayload};
use crate::text::{lowercase, same, to_lower, views};
use crate::types::{
    Instrument, InstrumentClass, InstrumentId, LifecycleState, Nanos, SourceId, VenueId,
};
use vstd::prelude::*;
use vstd::string::*;

verus! {

/// What one comparison found.
#[derive(Debug)]
pub struct UniverseChanges {
    pub added: Vec<InstrumentId>,
    pub changed: usize,
    pub delisted: usize,
    /// There was no earlier listing.
    pub baseline: bool,
}

/// The instruments of a listing by lowercased id; of two with one id the later
/// counts.
pub open spec fn listing(list: Seq<Instrument>) -> Map<Seq<char>, Instrument>
    decreases list.len(),
{
    if list.len() == 0 {
        Map::empty()
    } else {
        listing(list.drop_last()).insert(lowercase(list.last().id.value@), list.last())
    }
}

/// Every instrument stands under its own lowercased id.
pub open spec fn keyed(m: Map<Seq<char>, Instrument>) -> bool {
    forall|k: Seq<char>| #[trigger]
        m.dom().contains(k) ==> lowercase(m[k].id.value@) == k
}

/// The instruments of a listing, in the order of their lowercased ids.
pub fn index(list: Vec<Instrument>) -> (r: NameMap<Instrument>)
    ensures
        r.wf(),
        r.as_map() == listing(list@),
        keyed(r.as_map()),
{
    let mut r: NameMap<Instrument> = NameMap::new();
    let mut i: usize = 0;
    assert(list@.take(0) =~= Seq::<Instrument>::empty());
    while i < list.len()
        invariant
            i <= list@.len(),
            r.wf(),
            r.as_map() == listing(list@.take(i as int)),
            keyed(r.as_map()),
        decreases list@.len() - i,
    {
        proof {
            let t = list@.take(i + 1);
            assert(t.drop_last() =~= list@.take(i as int));
            assert(t.last() == list@[i as int]);
        }
        let key: String = to_lower(list[i].id.value.as_str());
        r.put(key, list[i].clone());
        i = i + 1;
    }
    assert(list@.take(list@.len() as int) =~= list@);
    r
}

/// The instrument was not listed before, or differs from what it was.
pub open spec fn is_news(
    prev: Map<Seq<char>, Instrument>,
    new: Map<Seq<char>, Instrument>,
) -> spec_fn(Seq<char>) -> bool {
    |k: Seq<char>| !prev.dom().contains(k) || !prev[k].same_as(new[k])
}

/// The instrument was not listed before.
pub open spec fn is_added(prev: Map<Seq<char>, Instrument>) -> spec_fn(Seq<char>) -> bool {
    |k: Seq<char>| !prev.dom().contains(k)
}

/// The instrument was listed before and differs from what it was.
pub open spec fn is_changed(
    prev: Map<Seq<char>, Instrument>,
    new: Map<Seq<char>, Instrument>,
) -> spec_fn(Seq<char>) -> bool {
    |k: Seq<char>| prev.dom().contains(k) && !prev[k].same_as(new[k])
}

/// The instrument is no longer listed.
pub open spec fn is_gone(new: Map<Seq<char>, Instrument>) -> spec_fn(Seq<char>) -> bool {
    |k: Seq<char>| !new.dom().contains(k)
}

/// The instruments to tell of: news in the order of the new listing, then those
/// that went, in the order of the old one.
pub open spec fn to_tell(prev: NameMap<Instrument>, new: NameMap<Instrument>) -> Seq<Seq<char>> {
    views(new.names@).filter(is_news(prev.as_map(), new.as_map())) + views(prev.names@).filter(
        is_gone(new.as_map()),
    )
}

/// `e` tells what became of the instrument.
pub open spec fn tells(
    e: Event,
    venue: Seq<char>,
    now: Nanos,
    key: Seq<char>,
    prev: Map<Seq<char>, Instrument>,
    new: Map<Seq<char>, Instrument>,
) -> bool {
    &&& e.enveloped(venue, Some(key), None, now, SourceId(0))
    &&& if !new.dom().contains(key) {
        e.payload matches Payload::Reference(
            ReferencePayload::InstrumentDelisted { instrument_id },
        ) && instrument_id.value@ == key
    } else if !prev.dom().contains(key) {
        e.payload == Payload::Reference(
            ReferencePayload::InstrumentAdded { instrument: new[key] },
        )
    } else {
        e.payload == Payload::Reference(
            ReferencePayload::InstrumentChanged { instrument: new[key] },
        )
    }
}

pub open spec fn all_told(
    events: Seq<Event>,
    keys: Seq<Seq<char>>,
    venue: Seq<char>,
    now: Nanos,
    prev: Map<Seq<char>, Instrument>,
    new: Map<Seq<char>, Instrument>,
) -> bool {
    &&& events.len() == keys.len()
    &&& forall|i: int|
        0 <= i < events.len() ==> tells(#[trigger] events[i], venue, now, keys[i], prev, new)
}

/// The ids of the instruments at `keys`.
pub open spec fn ids_at(
    ids: Seq<InstrumentId>,
    keys: Seq<Seq<char>>,
    new: Map<Seq<char>, Instrument>,
) -> bool {
    &&& ids.len() == keys.len()
    &&& forall|i: int| 0 <= i < ids.len() ==> #[trigger] ids[i] == new[keys[i]].id
}

fn reference_event(venue: &VenueId, now: Nanos, key: &str, payload: ReferencePayload) -> (r: Event)
    ensures
        r.enveloped(venue.value@, Some(key@), None, now, SourceId(0)),
        r.payload == Payload::Reference(payload),
{
    Event {
        venue: venue.clone(),
        instrument: Some(InstrumentId { value: key.to_owned() }),
        venue_ts: None,
        local_ts: now,
        source: SourceId::rest(),
        provenance: None,
        payload: Payload::Reference(payload),
    }
}

fn tell_news(
    venue: &VenueId,
    now: Nanos,
    prev: &NameMap<Instrument>,
    new: &NameMap<Instrument>,
) -> (r: (Vec<Event>, Vec<InstrumentId>, usize))
    requires
        prev.wf(),
        new.wf(),
    ensures
        all_told(
            r.0@,
            views(new.names@).filter(is_news(prev.as_map(), new.as_map())),
            venue.value@,
            now,
            prev.as_map(),
            new.as_map(),
        ),
        ids_at(r.1@, views(new.names@).filter(is_added(prev.as_map())), new.as_map()),
        r.2 == views(new.names@).filter(is_changed(prev.as_map(), new.as_map())).len(),
{
    let ghost p = prev.as_map();
    let ghost n = new.as_map();
    let ghost ks = views(new.names@);
    let mut events: Vec<Event> = Vec::new();
    let mut added: Vec<InstrumentId> = Vec::new();
    let mut changed: usize = 0;
    let mut i: usize = 0;
    proof {
        reveal(Seq::filter);
    }
    while i < new.names.len()
        invariant
            prev.wf(),
            new.wf(),
            i <= new.names@.len(),
            p == prev.as_map(),
            n == new.as_map(),
            ks == views(new.names@),
            all_told(events@, ks.take(i as int).filter(is_news(p, n)), venue.value@, now, p, n),
            ids_at(added@, ks.take(i as int).filter(is_added(p)), n),
            changed <= i,
            changed == ks.take(i as int).filter(is_changed(p, n)).len(),
        decreases new.names@.len() - i,
    {
        proof {
            reveal(Seq::filter);
            let t = ks.take(i + 1);
            assert(t.drop_last() =~= ks.take(i as int));
            assert(t.last() == new.names@[i as int]@);
            new.lemma_entry(i as int);
        }
        let key: &str = new.names[i].as_str();
        match prev.get(key) {
            None => {
                added.push(new.values[i].id.clone());
                events.push(
                    reference_event(
                        venue,
                        now,
                        key,
                        ReferencePayload::InstrumentAdded { instrument: new.values[i].clone() },
                    ),
                );
            },
            Some(old_one) => {
                if !old_one.same_observation(&new.values[i]) {
                    changed = changed + 1;
                    events.push(
                        reference_event(
                            venue,
                            now,
                            key,
                            ReferencePayload::InstrumentChanged {
                                instrument: new.values[i].clone(),
                            },
                        ),
                    );
                }
            },
        }
        i = i + 1;
    }
    assert(ks.take(ks.len() as int) =~= ks);
    (events, added, changed)
}

fn tell_gone(
    venue: &VenueId,
    now: Nanos,
    prev: &NameMap<Instrument>,
    new: &NameMap<Instrument>,
) -> (r: Vec<Event>)
    requires
        prev.wf(),
        new.wf(),
    ensures
        all_told(
            r@,
            views(prev.names@).filter(is_gone(new.as_map())),
            venue.value@,
            now,
            prev.as_map(),
            new.as_map(),
        ),
{
    let ghost p = prev.as_map();
    let ghost n = new.as_map();
    let ghost ks = views(prev.names@);
    let mut events: Vec<Event> = Vec::new();
    let mut i: usize = 0;
    proof {
        reveal(Seq::filter);
    }
    while i < prev.names.len()
        invariant
            new.wf(),
            i <= prev.names@.len(),
            n == new.as_map(),
            ks == views(prev.names@),
            all_told(events@, ks.take(i as int).filter(is_gone(n)), venue.value@, now, p, n),
        decreases prev.names@.len() - i,
    {
        proof {
            reveal(Seq::filter);
            let t = ks.take(i + 1);
            assert(t.drop_last() =~= ks.take(i as int));
            assert(t.last() == prev.names@[i as int]@);
        }
        let key: &str = prev.names[i].as_str();
        if !new.contains(key) {
            events.push(
                reference_event(
                    venue,
                    now,
                    key,
                    ReferencePayload::InstrumentDelisted {
                        instrument_id: InstrumentId { value: key.to_owned() },
                    },
                ),
            );
        }
        i = i + 1;
    }
    assert(ks.take(ks.len() as int) =~= ks);
    events
}

/// A perpetual that trades.
pub open spec fn trading_perp(i: Instrument) -> bool {
    i.class == InstrumentClass::Perp && i.lifecycle == LifecycleState::Trading
}

fn is_trading_perp(i: &Instrument) -> (r: bool)
    ensures
        r == trading_perp(*i),
{
    i.class == InstrumentClass::Perp && i.lifecycle == LifecycleState::Trading
}

/// The ids of the perpetuals that trade, in the order of the listing.
pub open spec fn perp_ids(values: Seq<Instrument>) -> Seq<Seq<char>> {
    values.filter(|i: Instrument| trading_perp(i)).map_values(|i: Instrument| i.id.value@)
}

fn perps_of(new: &NameMap<Instrument>) -> (r: Vec<String>)
    ensures
        views(r@) == perp_ids(new.values@),
{
    let ghost keep = |i: Instrument| trading_perp(i);
    let mut r: Vec<String> = Vec::new();
    let mut i: usize = 0;
    proof {
        reveal(Seq::filter);
    }
    assert(views(r@) =~= perp_ids(new.values@.take(0)));
    while i < new.values.len()
        invariant
            i <= new.values@.len(),
            keep == (|i: Instrument| trading_perp(i)),
            views(r@) == perp_ids(new.values@.take(i as int)),
        decreases new.values@.len() - i,
    {
        let ghost o = r@;
        proof {
            reveal(Seq::filter);
            let t = new.values@.take(i + 1);
            assert(t.drop_last() =~= new.values@.take(i as int));
            assert(t.last() == new.values@[i as int]);
        }
        if is_trading_perp(&new.values[i]) {
            r.push(new.values[i].id.value.clone());
            proof {
                let t = new.values@.take(i + 1);
                assert(views(r@) =~= views(o).push(t.last().id.value@));
                assert(perp_ids(t) =~= perp_ids(t.drop_last()).push(t.last().id.value@));
            }
        }
        i = i + 1;
    }
    assert(new.values@.take(new.values@.len() as int) =~= new.values@);
    r
}

fn same_list(a: &Vec<String>, b: &Vec<String>) -> (r: bool)
    ensures
        r == (views(a@) == views(b@)),
{
    if a.len() != b.len() {
        assert(views(a@).len() != views(b@).len());
        return false;
    }
    let mut i: usize = 0;
    while i < a.len()
        invariant
            a@.len() == b@.len(),
            i <= a@.len(),
            forall|j: int| 0 <= j < i ==> (#[trigger] a@[j])@ == b@[j]@,
        decreases a@.len() - i,
    {
        if !same(a[i].as_str(), b[i].as_str()) {
            assert(views(a@)[i as int] != views(b@)[i as int]);
            return false;
        }
        i = i + 1;
    }
    assert(views(a@) =~= views(b@));
    true
}

/// What came of one listing.
#[derive(Debug)]
pub struct Observation {
    pub changes: UniverseChanges,
    /// To be recorded, in order.
    pub events: Vec<Event>,
    /// The perpetuals changed: those that follow them are to be told.
    pub perps_changed: bool,
}

/// Keeps the last listing of a venue.
pub struct Manager {
    pub venue_id: VenueId,
    pub prev: Option<NameMap<Instrument>>,
    /// The perpetuals that trade, as last told.
    pub perps: Vec<String>,
}

/// The listing that a new one is held against.
pub open spec fn earlier(
    prev: Option<NameMap<Instrument>>,
    saved: Option<Seq<Instrument>>,
) -> Option<Map<Seq<char>, Instrument>> {
    match prev {
        Some(p) => Some(p.as_map()),
        None => match saved {
            Some(list) => Some(listing(list)),
            None => None,
        },
    }
}

pub open spec fn saved_view(saved: Option<Vec<Instrument>>) -> Option<Seq<Instrument>> {
    match saved {
        Some(v) => Some(v@),
        None => None,
    }
}

/// What is told of the step from `prev` to `new`.
pub open spec fn observed(
    o: Observation,
    venue: Seq<char>,
    now: Nanos,
    prev: NameMap<Instrument>,
    new: NameMap<Instrument>,
) -> bool {
    let p = prev.as_map();
    let n = new.as_map();
    &&& all_told(o.events@, to_tell(prev, new), venue, now, p, n)
    &&& ids_at(o.changes.added@, views(new.names@).filter(is_added(p)), n)
    &&& o.changes.changed == views(new.names@).filter(is_changed(p, n)).len()
    &&& o.changes.delisted == views(prev.names@).filter(is_gone(n)).len()
}

impl Manager {
    pub open spec fn wf(self) -> bool {
        self.prev matches Some(p) ==> p.wf() && keyed(p.as_map())
    }

    /// Where one listing leads: what is kept for the next, and what is told of
    /// the perpetuals and of the first listing ever.
    pub open spec fn steps(
        self,
        saved: Option<Seq<Instrument>>,
        after: Manager,
        o: Observation,
    ) -> bool {
        &&& after.venue_id == self.venue_id
        &&& after.prev is Some
        &&& o.changes.baseline == (earlier(self.prev, saved) is None)
        &&& views(after.perps@) == perp_ids(after.prev->0.values@)
        &&& o.perps_changed == (views(self.perps@) != views(after.perps@))
    }

    /// The instruments that came and are worth following.
    pub open spec fn candidates(self, changes: UniverseChanges) -> Seq<InstrumentId> {
        if changes.baseline || self.prev is None {
            Seq::<InstrumentId>::empty()
        } else {
            changes.added@.filter(
                |id: InstrumentId|
                    self.prev->0.as_map().dom().contains(lowercase(id.value@)) && trading_perp(
                        self.prev->0.as_map()[lowercase(id.value@)],
                    ),
            )
        }
    }

    pub fn new(venue_id: VenueId) -> (r: Manager)
        ensures
            r.wf(),
            r.venue_id == venue_id,
            r.prev is None,
            r.perps@.len() == 0,
    {
        Manager { venue_id, prev: None, perps: Vec::new() }
    }

    /// Whether the listing of an earlier run is to be read.
    pub fn needs_state(&self) -> (r: bool)
        ensures
            r == (self.prev is None),
    {
        self.prev.is_none()
    }

    /// Hold a listing against the one before: the one in memory or, at the
    /// start, the saved one. It becomes the listing to be saved and to hold the
    /// next one against.
    pub fn apply(
        &mut self,
        instruments: Vec<Instrument>,
        saved: Option<Vec<Instrument>>,
        now: Nanos,
    ) -> (r: Observation)
        requires
            old(self).wf(),
        ensures
            final(self).wf(),
            final(self).venue_id == old(self).venue_id,
            final(self).prev is Some,
            final(self).prev->0.as_map() == listing(instruments@),
            exists|prev: NameMap<Instrument>|
                prev.wf() && prev.as_map() == (match earlier(old(self).prev, saved_view(saved)) {
                    Some(m) => m,
                    None => Map::<Seq<char>, Instrument>::empty(),
                }) && #[trigger] observed(
                    r,
                    old(self).venue_id.value@,
                    now,
                    prev,
                    final(self).prev->0,
                ),
            r.changes.baseline == (earlier(old(self).prev, saved_view(saved)) is None),
            views(final(self).perps@) == perp_ids(final(self).prev->0.values@),
            r.perps_changed == (views(old(self).perps@) != perp_ids(
                final(self).prev->0.values@,
            )),
            old(self).steps(saved_view(saved), *final(self), r),
    {
        let new: NameMap<Instrument> = index(instruments);
        let held: Option<NameMap<Instrument>> = match self.prev.take() {
            Some(p) => Some(p),
            None => match saved {
                Some(list) => Some(index(list)),
                None => None,
            },
        };
        let baseline: bool = held.is_none();
        let prev: NameMap<Instrument> = match held {
            Some(p) => p,
            None => NameMap::new(),
        };
        let news: (Vec<Event>, Vec<InstrumentId>, usize) = tell_news(
            &self.venue_id,
            now,
            &prev,
            &new,
        );
        let mut events: Vec<Event> = news.0;
        let mut gone: Vec<Event> = tell_gone(&self.venue_id, now, &prev, &new);
        let delisted: usize = gone.len();
        events.append(&mut gone);
        let changes: UniverseChanges = UniverseChanges {
            added: news.1,
            changed: news.2,
            delisted,
            baseline,
        };
        let perps: Vec<String> = perps_of(&new);
        let perps_changed: bool = !same_list(&self.perps, &perps);
        if perps_changed {
            self.perps = perps;
        }
        self.prev = Some(new);
        let r: Observation = Observation { changes, events, perps_changed };
        assert(observed(r, self.venue_id.value@, now, prev, self.prev->0));
        r
    }

    /// Perpetuals that came and trade: worth subscribing to without being asked.
    /// There are none where every instrument was told for the first time, since
    /// the configured subscriptions cover that.
    pub fn auto_subscribe_candidates(&self, changes: &UniverseChanges) -> (r: Vec<InstrumentId>)
        requires
            self.wf(),
        ensures
            r@ == (if changes.baseline || self.prev is None {
                Seq::<InstrumentId>::empty()
            } else {
                changes.added@.filter(
                    |id: InstrumentId|
                        self.prev->0.as_map().dom().contains(lowercase(id.value@))
                            && trading_perp(self.prev->0.as_map()[lowercase(id.value@)]),
                )
            }),
            r@ == self.candidates(*changes),
    {
        let mut r: Vec<InstrumentId> = Vec::new();
        if changes.baseline {
            return r;
        }
        if let Some(state) = &self.prev {
            let ghost m = state.as_map();
            let ghost keep = |id: InstrumentId|
                m.dom().contains(lowercase(id.value@)) && trading_perp(m[lowercase(id.value@)]);
            let mut i: usize = 0;
            proof {
                reveal(Seq::filter);
            }
            while i < changes.added.len()
                invariant
                    i <= changes.added@.len(),
                    state.wf(),
                    m == state.as_map(),
                    keep == (|id: InstrumentId|
                        m.dom().contains(lowercase(id.value@)) && trading_perp(
                            m[lowercase(id.value@)],
                        )),
                    r@ == changes.added@.take(i as int).filter(keep),
                decreases changes.added@.len() - i,
            {
                proof {
                    reveal(Seq::filter);
                    let t = changes.added@.take(i + 1);
                    assert(t.drop_last() =~= changes.added@.take(i as int));
                    assert(t.last() == changes.added@[i as int]);
                }
                let key: String = to_lower(changes.added[i].value.as_str());
                if let Some(found) = state.get(key.as_str()) {
                    if is_trading_perp(found) {
                        r.push(changes.added[i].clone());
                    }
                }
                i = i + 1;
            }
            assert(changes.added@.take(changes.added@.len() as int) =~= changes.added@);
        }
        r
    }
}

proof fn lemma_filter_none<A>(s: Seq<A>, f: spec_fn(A) -> bool)
    requires
        forall|i: int| 0 <= i < s.len() ==> !f(#[trigger] s[i]),
    ensures
        s.filter(f).len() == 0,
    decreases s.len(),
{
    reveal(Seq::filter);
    if s.len() > 0 {
        lemma_filter_none(s.drop_last(), f);
    }
}

/// What following instruments that came takes.
pub open spec fn follows(
    fresh: Vec<InstrumentId>,
    data: Seq<DataTypeCfg>,
    r: Option<Subscription>,
) -> bool {
    match r {
        Some(s) => fresh@.len() > 0 && data.len() > 0 && s.scope == Scope::Instruments(fresh)
            && s.data@ == data.map_values(|d: DataTypeCfg| d.data_type()),
        None => fresh@.len() == 0 || data.len() == 0,
    }
}

/// What to subscribe to without being asked: the data types that are wanted for
/// instruments that came, of exactly these; nothing where either is empty.
pub fn auto_subscription(fresh: Vec<InstrumentId>, data: &Vec<DataTypeCfg>) -> (r: Option<
    Subscription,
>)
    ensures
        r is None <==> fresh@.len() == 0 || data@.len() == 0,
        r matches Some(s) ==> s.scope == Scope::Instruments(fresh) && s.data@ == data@.map_values(
            |d: DataTypeCfg| d.data_type(),
        ),
        follows(fresh, data@, r),
{
    if fresh.len() == 0 || data.len() == 0 {
        return None;
    }
    let mut wanted: Vec<DataType> = Vec::new();
    let mut i: usize = 0;
    while i < data.len()
        invariant
            i <= data@.len(),
            wanted@ == data@.take(i as int).map_values(|d: DataTypeCfg| d.data_type()),
        decreases data@.len() - i,
    {
        wanted.push(data[i].to_data_type());
        i = i + 1;
        assert(wanted@ =~= data@.take(i as int).map_values(|d: DataTypeCfg| d.data_type()));
    }
    assert(data@.take(i as int) =~= data@);
    Some(Subscription { scope: Scope::Instruments(fresh), data: wanted })
}

/// The two list the same instruments, none of which differs from what it was.
pub open spec fn unchanged(
    prev: Map<Seq<char>, Instrument>,
    new: Map<Seq<char>, Instrument>,
) -> bool {
    &&& prev.dom() == new.dom()
    &&& forall|k: Seq<char>| #[trigger] new.dom().contains(k) ==> prev[k].same_as(new[k])
}

/// A listing that says what the one before said tells nothing.
pub proof fn law_unchanged_universe_is_silent(
    prev: NameMap<Instrument>,
    new: NameMap<Instrument>,
)
    requires
        prev.wf(),
        new.wf(),
        unchanged(prev.as_map(), new.as_map()),
    ensures
        to_tell(prev, new).len() == 0,
{
    let p = prev.as_map();
    let n = new.as_map();
    assert forall|i: int| 0 <= i < new.names@.len() implies !is_news(p, n)(
        #[trigger] views(new.names@)[i],
    ) by {
        new.lemma_entry(i);
        assert(n.dom().contains(new.names@[i]@));
    }
    lemma_filter_none(views(new.names@), is_news(p, n));
    assert forall|i: int| 0 <= i < prev.names@.len() implies !is_gone(n)(
        #[trigger] views(prev.names@)[i],
    ) by {
        prev.lemma_entry(i);
        assert(p.dom().contains(prev.names@[i]@));
    }
    lemma_filter_none(views(prev.names@), is_gone(n));
}

proof fn lemma_listing_back(m: NameMap<Instrument>, n: int)
    requires
        m.wf(),
        keyed(m.as_map()),
        0 <= n <= m.names@.len(),
    ensures
        forall|k: Seq<char>| #[trigger]
            listing(m.values@.take(n)).dom().contains(k) <==> views(m.names@.take(n)).contains(k),
        forall|k: Seq<char>|
            listing(m.values@.take(n)).dom().contains(k) ==> #[trigger] listing(
                m.values@.take(n),
            )[k] == m.as_map()[k],
    decreases n,
{
    let t = m.values@.take(n);
    if n == 0 {
    } else {
        lemma_listing_back(m, n - 1);
        assert(t.drop_last() =~= m.values@.take(n - 1));
        m.lemma_entry(n - 1);
        let last = m.names@[n - 1]@;
        assert(lowercase(t.last().id.value@) == last);
        assert(views(m.names@.take(n)) =~= views(m.names@.take(n - 1)).push(last));
        let before = listing(m.values@.take(n - 1));
        assert(m.as_map().dom().contains(last) && m.as_map()[last] == t.last());
        assert(t.last() == m.values@[n - 1]);
        assert(listing(t) == before.insert(last, t.last()));
        assert forall|k: Seq<char>| listing(t).dom().contains(k) implies #[trigger] listing(t)[k]
            == m.as_map()[k] by {
            if k != last {
                assert(before.dom().contains(k));
                assert(before[k] == m.as_map()[k]);
            }
        }
        assert forall|k: Seq<char>| #[trigger] listing(t).dom().contains(k) <==> views(
            m.names@.take(n),
        ).contains(k) by {
            let s = views(m.names@.take(n - 1));
            assert(before.dom().contains(k) <==> s.contains(k));
            assert(s.push(last)[n - 1] == last);
            if s.contains(k) {
                let j = s.index_of(k);
                assert(s.push(last)[j] == k);
            }
            if s.push(last).contains(k) && k != last {
                let j = s.push(last).index_of(k);
                assert(s[j] == k);
            }
        }
    }
}

/// The instruments that were saved, read back, are the listing that was kept.
pub proof fn law_saved_state_reads_back(m: NameMap<Instrument>)
    requires
        m.wf(),
        keyed(m.as_map()),
    ensures
        listing(m.values@) == m.as_map(),
{
    let n = m.names@.len() as int;
    lemma_listing_back(m, n);
    assert(m.values@.take(n) =~= m.values@);
    assert(m.names@.take(n) =~= m.names@);
    assert(listing(m.values@) =~= m.as_map());
}

/// After a restart, a listing that says what was saved tells nothing.
pub proof fn law_restart_is_silent(
    kept: NameMap<Instrument>,
    prev: NameMap<Instrument>,
    new: NameMap<Instrument>,
)
    requires
        kept.wf(),
        keyed(kept.as_map()),
        prev.wf(),
        prev.as_map() == listing(kept.values@),
        new.wf(),
        unchanged(kept.as_map(), new.as_map()),
    ensures
        to_tell(prev, new).len() == 0,
{
    law_saved_state_reads_back(kept);
    law_unchanged_universe_is_silent(prev, new);
}

} // verus!
