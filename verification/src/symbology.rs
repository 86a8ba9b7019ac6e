//! Canonical symbology: the versioned mapping between a venue's own instrument
//! keys and canonical instruments. Events stay keyed by the venue's keys; a join
//! is one lookup, at a point in time.
pub mod fees;
pub mod laws;
pub mod mapping;
pub mod mapping_laws;
pub mod scd;

use crate::order::{ascending, NameMap};
use crate::text::{lowercase, quote, quoted, same, to_lower, views};
use crate::types::{Asset, CanonicalInstrumentId, InstrumentClass, InstrumentId, Nanos, VenueId};
use vstd::prelude::*;
use vstd::string::*;

verus! {

#[derive(Debug)]
pub enum SymbologyError {
    Io(String),
    Parse(String),
    Invalid(String),
}

impl SymbologyError {
    /// The message an operator sees.
    pub open spec fn text(self) -> Seq<char> {
        match self {
            SymbologyError::Io(e) => "io: "@ + e@,
            SymbologyError::Parse(e) => "parse: "@ + e@,
            SymbologyError::Invalid(e) => "invalid: "@ + e@,
        }
    }

    pub fn message(&self) -> (r: String)
        ensures
            r@ == self.text(),
    {
        match self {
            SymbologyError::Io(e) => "io: ".to_owned().concat(e.as_str()),
            SymbologyError::Parse(e) => "parse: ".to_owned().concat(e.as_str()),
            SymbologyError::Invalid(e) => "invalid: ".to_owned().concat(e.as_str()),
        }
    }
}

/// How a class is written.
pub open spec fn class_text(c: InstrumentClass) -> Seq<char> {
    match c {
        InstrumentClass::Spot => "spot"@,
        InstrumentClass::Perp => "perp"@,
        InstrumentClass::Future { .. } => "future"@,
        InstrumentClass::PredictionOutcome => "prediction_outcome"@,
        InstrumentClass::Pool => "pool"@,
    }
}

pub fn class_str(class: &InstrumentClass) -> (r: &'static str)
    ensures
        r@ == class_text(*class),
{
    match class {
        InstrumentClass::Spot => "spot",
        InstrumentClass::Perp => "perp",
        InstrumentClass::Future { .. } => "future",
        InstrumentClass::PredictionOutcome => "prediction_outcome",
        InstrumentClass::Pool => "pool",
    }
}

/// What a class in a mapping row is read as.
pub open spec fn class_read(s: Seq<char>, r: Result<InstrumentClass, SymbologyError>) -> bool {
    match r {
        Ok(c) => (c == InstrumentClass::Spot || c == InstrumentClass::Perp) && s == class_text(c),
        Err(_) => s != "spot"@ && s != "perp"@,
    }
}

/// The class a mapping row names. Dated futures carry expiries that the mapping
/// does not encode, so they have no place in it.
pub fn class_from_str(s: &str) -> (r: Result<InstrumentClass, SymbologyError>)
    ensures
        match r {
            Ok(c) => (c == InstrumentClass::Spot || c == InstrumentClass::Perp) && s@
                == class_text(c),
            Err(e) => s@ != "spot"@ && s@ != "perp"@ && (e matches SymbologyError::Parse(t) && t@
                == "unsupported class "@ + quoted(s@) + " in mapping"@),
        },
        class_read(s@, r),
{
    if same(s, "spot") {
        Ok(InstrumentClass::Spot)
    } else if same(s, "perp") {
        Ok(InstrumentClass::Perp)
    } else {
        Err(
            SymbologyError::Parse(
                "unsupported class ".to_owned().concat(quote(s).as_str()).concat(" in mapping"),
            ),
        )
    }
}

/// The text a canonical instrument is joined by: `BASE-QUOTE-class-SETTLE`.
pub open spec fn key_text(c: CanonicalInstrumentId) -> Seq<char> {
    c.base.0@ + "-"@ + c.quote.0@ + "-"@ + class_text(c.class) + "-"@ + c.settle.0@
}

pub fn canonical_key(c: &CanonicalInstrumentId) -> (r: String)
    ensures
        r@ == key_text(*c),
{
    c.base.0.clone().concat("-").concat(c.quote.0.as_str()).concat("-").concat(
        class_str(&c.class),
    ).concat("-").concat(c.settle.0.as_str())
}

/// The canonical perpetual of its assets.
pub fn make_canonical(base: &str, quote: &str, settle: &str) -> (r: CanonicalInstrumentId)
    ensures
        r.base.0@ == base@,
        r.quote.0@ == quote@,
        r.class == InstrumentClass::Perp,
        r.settle.0@ == settle@,
{
    CanonicalInstrumentId {
        base: Asset(base.to_owned()),
        quote: Asset(quote.to_owned()),
        class: InstrumentClass::Perp,
        settle: Asset(settle.to_owned()),
    }
}

/// One validity window of a venue instrument's canonical assignment.
#[derive(Debug)]
pub struct MappingRow {
    pub venue: String,
    /// The venue's key in lower case.
    pub instrument: String,
    pub canonical: CanonicalInstrumentId,
    pub valid_from: Nanos,
    /// Absent while the assignment stands.
    pub valid_to: Option<Nanos>,
    /// Derived, or from an override.
    pub origin: String,
}

impl Clone for MappingRow {
    fn clone(&self) -> (r: Self)
        ensures
            r == *self,
    {
        MappingRow {
            venue: self.venue.clone(),
            instrument: self.instrument.clone(),
            canonical: self.canonical.clone(),
            valid_from: self.valid_from,
            valid_to: self.valid_to,
            origin: self.origin.clone(),
        }
    }
}

impl MappingRow {
    /// The window holds the instant: it begins no later and has not ended.
    pub open spec fn holds_at(self, at: Nanos) -> bool {
        at >= self.valid_from && (match self.valid_to {
            Some(to) => at < to,
            None => true,
        })
    }

    pub fn covers(&self, at: Nanos) -> (r: bool)
        ensures
            r == self.holds_at(at),
    {
        at >= self.valid_from && match self.valid_to {
            Some(to) => at < to,
            None => true,
        }
    }

    /// The row assigns the venue's instrument at the instant.
    pub open spec fn assigns(self, venue: Seq<char>, instrument: Seq<char>, at: Nanos) -> bool {
        self.venue@ == venue && self.instrument@ == instrument && self.holds_at(at)
    }

    /// The row puts the canonical key on the venue at the instant.
    pub open spec fn carries(self, key: Seq<char>, venue: Seq<char>, at: Nanos) -> bool {
        key_text(self.canonical) == key && self.venue@ == venue && self.holds_at(at)
    }
}

/// The first row that assigns a venue's instrument at an instant.
pub open spec fn first_assigned(
    rows: Seq<MappingRow>,
    venue: Seq<char>,
    instrument: Seq<char>,
    at: Nanos,
    i: int,
) -> bool {
    &&& 0 <= i < rows.len()
    &&& rows[i].assigns(venue, instrument, at)
    &&& forall|j: int| 0 <= j < i ==> !(#[trigger] rows[j]).assigns(venue, instrument, at)
}

/// The first row that carries a canonical instrument on a venue at an instant.
pub open spec fn first_carried(
    rows: Seq<MappingRow>,
    key: Seq<char>,
    venue: Seq<char>,
    at: Nanos,
    i: int,
) -> bool {
    &&& 0 <= i < rows.len()
    &&& rows[i].carries(key, venue, at)
    &&& forall|j: int| 0 <= j < i ==> !(#[trigger] rows[j]).carries(key, venue, at)
}

/// A venue's instrument, in lower case, is found to have this canonical key.
pub open spec fn named(
    rows: Seq<MappingRow>,
    venue: Seq<char>,
    instrument: Seq<char>,
    at: Nanos,
    key: Seq<char>,
) -> bool {
    exists|i: int| #[trigger]
        first_assigned(rows, venue, instrument, at, i) && key_text(rows[i].canonical) == key
}

/// A canonical key is found to be this instrument on a venue.
pub open spec fn located(
    rows: Seq<MappingRow>,
    key: Seq<char>,
    venue: Seq<char>,
    at: Nanos,
    instrument: Seq<char>,
) -> bool {
    exists|i: int| #[trigger]
        first_carried(rows, key, venue, at, i) && rows[i].instrument@ == instrument
}

/// A row of the mapping puts the key on the venue at the instant.
pub open spec fn carried(
    rows: Seq<MappingRow>,
    key: Seq<char>,
    venue: Seq<char>,
    at: Nanos,
) -> bool {
    exists|i: int| 0 <= i < rows.len() && (#[trigger] rows[i]).carries(key, venue, at)
}

/// There are venues, and the key is listed on every one of them at the instant.
pub open spec fn matched(
    rows: Seq<MappingRow>,
    venues: Seq<&str>,
    key: Seq<char>,
    at: Nanos,
) -> bool {
    venues.len() > 0 && forall|v: int|
        0 <= v < venues.len() ==> carried(rows, key, (#[trigger] venues[v])@, at)
}

/// Point-in-time lookup over a mapping, in both directions.
#[derive(Debug)]
pub struct Registry {
    pub rows: Vec<MappingRow>,
}

impl Registry {
    pub fn from_rows(rows: Vec<MappingRow>) -> (r: Registry)
        ensures
            r.rows == rows,
    {
        Registry { rows }
    }

    pub fn len(&self) -> (r: usize)
        ensures
            r == self.rows@.len(),
    {
        self.rows.len()
    }

    pub fn is_empty(&self) -> (r: bool)
        ensures
            r == (self.rows@.len() == 0),
    {
        self.rows.len() == 0
    }

    /// The canonical instrument of a venue's instrument at an instant: that of
    /// the first row that assigns it.
    pub fn canonical(&self, venue: &VenueId, instrument: &InstrumentId, at: Nanos) -> (r: Option<
        &CanonicalInstrumentId,
    >)
        ensures
            match r {
                Some(c) => exists|i: int| #[trigger]
                    first_assigned(
                        self.rows@,
                        venue.value@,
                        lowercase(instrument.value@),
                        at,
                        i,
                    ) && *c == self.rows@[i].canonical,
                None => forall|i: int|
                    0 <= i < self.rows@.len() ==> !(#[trigger] self.rows@[i]).assigns(
                        venue.value@,
                        lowercase(instrument.value@),
                        at,
                    ),
            },
    {
        let key: String = to_lower(instrument.value.as_str());
        let mut i: usize = 0;
        while i < self.rows.len()
            invariant
                i <= self.rows@.len(),
                key@ == lowercase(instrument.value@),
                forall|j: int|
                    0 <= j < i ==> !(#[trigger] self.rows@[j]).assigns(venue.value@, key@, at),
            decreases self.rows@.len() - i,
        {
            let row: &MappingRow = &self.rows[i];
            if row.covers(at) && same(row.venue.as_str(), venue.value.as_str()) && same(
                row.instrument.as_str(),
                key.as_str(),
            ) {
                assert(first_assigned(self.rows@, venue.value@, key@, at, i as int));
                return Some(&row.canonical);
            }
            i = i + 1;
        }
        None
    }

    /// The venue's instrument that carries a canonical one at an instant: that
    /// of the first row that does.
    pub fn venue_instrument(
        &self,
        canonical: &CanonicalInstrumentId,
        venue: &VenueId,
        at: Nanos,
    ) -> (r: Option<InstrumentId>)
        ensures
            match r {
                Some(id) => located(self.rows@, key_text(*canonical), venue.value@, at, id.value@),
                None => !carried(self.rows@, key_text(*canonical), venue.value@, at),
            },
    {
        let key: String = canonical_key(canonical);
        let mut i: usize = 0;
        while i < self.rows.len()
            invariant
                i <= self.rows@.len(),
                key@ == key_text(*canonical),
                forall|j: int|
                    0 <= j < i ==> !(#[trigger] self.rows@[j]).carries(key@, venue.value@, at),
            decreases self.rows@.len() - i,
        {
            let row: &MappingRow = &self.rows[i];
            if row.covers(at) && same(row.venue.as_str(), venue.value.as_str()) && same(
                canonical_key(&row.canonical).as_str(),
                key.as_str(),
            ) {
                assert(first_carried(self.rows@, key@, venue.value@, at, i as int));
                return Some(InstrumentId { value: row.instrument.clone() });
            }
            i = i + 1;
        }
        None
    }

    fn has_key(&self, key: &str, venue: &str, at: Nanos) -> (r: bool)
        ensures
            r == carried(self.rows@, key@, venue@, at),
    {
        let mut i: usize = 0;
        while i < self.rows.len()
            invariant
                i <= self.rows@.len(),
                forall|j: int|
                    0 <= j < i ==> !(#[trigger] self.rows@[j]).carries(key@, venue@, at),
            decreases self.rows@.len() - i,
        {
            let row: &MappingRow = &self.rows[i];
            if row.covers(at) && same(row.venue.as_str(), venue) && same(
                canonical_key(&row.canonical).as_str(),
                key,
            ) {
                assert(self.rows@[i as int].carries(key@, venue@, at));
                return true;
            }
            i = i + 1;
        }
        false
    }

    fn on_all(&self, key: &str, venues: &[&str], at: Nanos) -> (r: bool)
        ensures
            r == (forall|v: int|
                0 <= v < venues@.len() ==> carried(
                    self.rows@,
                    key@,
                    (#[trigger] venues@[v])@,
                    at,
                )),
    {
        let mut v: usize = 0;
        while v < venues.len()
            invariant
                v <= venues@.len(),
                forall|u: int|
                    0 <= u < v ==> carried(self.rows@, key@, (#[trigger] venues@[u])@, at),
            decreases venues@.len() - v,
        {
            if !self.has_key(key, venues[v], at) {
                assert(!carried(self.rows@, key@, venues@[v as int]@, at));
                return false;
            }
            v = v + 1;
        }
        true
    }

    /// The canonical keys that are listed on every one of the venues at an
    /// instant, in dictionary order: what can be joined across them. A venue may
    /// be named more than once; across no venues there is nothing to join.
    pub fn matched_keys(&self, venues: &[&str], at: Nanos) -> (r: Vec<String>)
        ensures
            ascending(views(r@)),
            forall|k: Seq<char>| #[trigger]
                views(r@).contains(k) <==> matched(self.rows@, venues@, k, at),
    {
        let mut keys: NameMap<()> = NameMap::new();
        if venues.len() == 0 {
            assert(views(keys.names@) =~= Seq::<Seq<char>>::empty());
            return keys.names;
        }
        let mut i: usize = 0;
        while i < self.rows.len()
            invariant
                i <= self.rows@.len(),
                venues@.len() > 0,
                keys.wf(),
                forall|k: Seq<char>| #[trigger]
                    keys.as_map().dom().contains(k) ==> matched(self.rows@, venues@, k, at),
                forall|j: int|
                    0 <= j < i && matched(
                        self.rows@,
                        venues@,
                        key_text((#[trigger] self.rows@[j]).canonical),
                        at,
                    ) ==> keys.as_map().dom().contains(key_text(self.rows@[j].canonical)),
            decreases self.rows@.len() - i,
        {
            let key: String = canonical_key(&self.rows[i].canonical);
            let all: bool = self.on_all(key.as_str(), venues, at);
            assert(all == matched(self.rows@, venues@, key@, at));
            if all {
                keys.put(key, ());
            }
            i = i + 1;
        }
        proof {
            assert forall|k: Seq<char>| #[trigger]
                views(keys.names@).contains(k) <==> matched(self.rows@, venues@, k, at) by {
                if matched(self.rows@, venues@, k, at) {
                    assert(carried(self.rows@, k, venues@[0]@, at));
                    let j = choose|j: int|
                        0 <= j < self.rows@.len() && (#[trigger] self.rows@[j]).carries(
                            k,
                            venues@[0]@,
                            at,
                        );
                    assert(key_text(self.rows@[j].canonical) == k);
                    assert(keys.as_map().dom().contains(k));
                }
                if views(keys.names@).contains(k) {
                    assert(keys.as_map().dom().contains(k));
                }
            }
        }
        keys.names
    }
}

/// What an instrument is found to be at an instant is found on its venue at that
/// instant: a lookup there and back never comes up empty.
pub proof fn law_assigned_is_carried(
    rows: Seq<MappingRow>,
    venue: Seq<char>,
    instrument: Seq<char>,
    at: Nanos,
    i: int,
)
    requires
        0 <= i < rows.len(),
        rows[i].assigns(venue, instrument, at),
    ensures
        carried(rows, key_text(rows[i].canonical), venue, at),
{
    assert(rows[i].carries(key_text(rows[i].canonical), venue, at));
}

/// Of the rows that hold at the instant, no two are of one instrument of a venue,
/// and no two of one canonical instrument on a venue.
pub open spec fn one_to_one(rows: Seq<MappingRow>, at: Nanos) -> bool {
    forall|i: int, j: int|
        0 <= i < j < rows.len() && (#[trigger] rows[i]).holds_at(at) && (#[trigger]
        rows[j]).holds_at(at) && rows[i].venue@ == rows[j].venue@ ==> rows[i].instrument@
            != rows[j].instrument@ && key_text(rows[i].canonical) != key_text(rows[j].canonical)
}

/// Where the rows that hold are one to one, each lookup inverts the other: an
/// instrument of a venue is found to be a canonical instrument exactly where that
/// one is found to be the instrument on the venue.
pub proof fn law_lookups_invert(
    rows: Seq<MappingRow>,
    venue: Seq<char>,
    instrument: Seq<char>,
    key: Seq<char>,
    at: Nanos,
)
    requires
        one_to_one(rows, at),
    ensures
        named(rows, venue, instrument, at, key) <==> located(rows, key, venue, at, instrument),
{
    if named(rows, venue, instrument, at, key) {
        let i = choose|i: int| #[trigger]
            first_assigned(rows, venue, instrument, at, i) && key_text(rows[i].canonical) == key;
        assert(first_carried(rows, key, venue, at, i));
    }
    if located(rows, key, venue, at, instrument) {
        let i = choose|i: int| #[trigger]
            first_carried(rows, key, venue, at, i) && rows[i].instrument@ == instrument;
        assert(first_assigned(rows, venue, instrument, at, i));
    }
}

/// A row stops holding at the instant the next window of the same instrument
/// begins: where windows meet, exactly one of the two holds at every instant from
/// the beginning of the first to the end of the second.
pub proof fn law_windows_meet(a: MappingRow, b: MappingRow, at: Nanos)
    requires
        a.valid_to == Some(b.valid_from),
        a.valid_from <= b.valid_from,
        a.valid_from <= at,
        b.valid_to matches Some(to) ==> at < to,
    ensures
        a.holds_at(at) != b.holds_at(at),
{
}

} // verus!
