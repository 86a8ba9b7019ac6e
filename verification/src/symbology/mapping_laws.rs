//! What the mapping and the fee schedules are for: who is found under which
//! name, and what of a dump, an override or a schedule ends up in a row.
use super::fees::{entry_fault, rate_fault, FeeEntry, FeeRow, RateReading, VenueRows};
use super::mapping::{
    binance_from, binance_perps, bybit_from, bybit_perps, concerns, corrected, counts, derived,
    dump_day, excluded_among, is_excluded, is_overridden, latest, matched_on_both, name_ns, of_venue,
    overridden_among, override_for, staying, BinanceSymbol, BybitSymbol, OverrideEntry,
};
use super::{
    carried, class_read, class_text, key_text, located, matched, named, MappingRow, SymbologyError,
};
use crate::calendar::{as_date, iso_date, written_day};
use crate::order::stable_sort_of;
use crate::text::{lex_lt, lowercase, parse_uint};
use crate::types::{CanonicalInstrumentId, InstrumentClass, Nanos};
use vstd::prelude::*;
use vstd::string::*;

verus! {

// ---------------------------------------------------------------------------
// Lookups
// ---------------------------------------------------------------------------

/// The row is of the venue's instrument and its window holds the instant: begun,
/// and not ended yet.
pub open spec fn stands_for(
    row: MappingRow,
    venue: Seq<char>,
    instrument: Seq<char>,
    at: Nanos,
) -> bool {
    &&& row.venue@ == venue
    &&& row.instrument@ == instrument
    &&& row.valid_from <= at
    &&& row.valid_to matches Some(to) ==> at < to
}

/// An instrument is found under the key of a row that stands for it, and no row
/// in front of that one stands for it.
pub proof fn law_named_by_the_first_row(
    rows: Seq<MappingRow>,
    venue: Seq<char>,
    instrument: Seq<char>,
    at: Nanos,
    key: Seq<char>,
)
    ensures
        named(rows, venue, instrument, at, key) <==> exists|i: int|
            0 <= i < rows.len() && #[trigger] stands_for(rows[i], venue, instrument, at)
                && key_text(rows[i].canonical) == key && forall|j: int|
                0 <= j < i ==> !#[trigger] stands_for(rows[j], venue, instrument, at),
{
    if named(rows, venue, instrument, at, key) {
        let i = choose|i: int| #[trigger]
            super::first_assigned(rows, venue, instrument, at, i) && key_text(rows[i].canonical)
                == key;
        assert(stands_for(rows[i], venue, instrument, at));
        assert forall|j: int| 0 <= j < i implies !#[trigger] stands_for(
            rows[j],
            venue,
            instrument,
            at,
        ) by {
            assert(!rows[j].assigns(venue, instrument, at));
        }
    }
    if exists|i: int|
        0 <= i < rows.len() && #[trigger] stands_for(rows[i], venue, instrument, at) && key_text(
            rows[i].canonical,
        ) == key && forall|j: int|
            0 <= j < i ==> !#[trigger] stands_for(rows[j], venue, instrument, at) {
        let i = choose|i: int|
            0 <= i < rows.len() && #[trigger] stands_for(rows[i], venue, instrument, at)
                && key_text(rows[i].canonical) == key && forall|j: int|
                0 <= j < i ==> !#[trigger] stands_for(rows[j], venue, instrument, at);
        assert forall|j: int| 0 <= j < i implies !(#[trigger] rows[j]).assigns(
            venue,
            instrument,
            at,
        ) by {
            assert(!stands_for(rows[j], venue, instrument, at));
        }
        assert(super::first_assigned(rows, venue, instrument, at, i));
    }
}

/// A key is found as an instrument on a venue only through a row of that key that
/// stands for the instrument there.
pub proof fn law_located_through_a_row(
    rows: Seq<MappingRow>,
    key: Seq<char>,
    venue: Seq<char>,
    at: Nanos,
    instrument: Seq<char>,
)
    requires
        located(rows, key, venue, at, instrument),
    ensures
        exists|i: int|
            0 <= i < rows.len() && #[trigger] stands_for(rows[i], venue, instrument, at)
                && key_text(rows[i].canonical) == key,
{
    let i = choose|i: int| #[trigger]
        super::first_carried(rows, key, venue, at, i) && rows[i].instrument@ == instrument;
    assert(stands_for(rows[i], venue, instrument, at));
}

/// A key is carried by a venue where a row of the key stands for some instrument
/// of it.
pub proof fn law_carried_by_a_standing_row(
    rows: Seq<MappingRow>,
    key: Seq<char>,
    venue: Seq<char>,
    at: Nanos,
)
    ensures
        carried(rows, key, venue, at) <==> exists|i: int|
            0 <= i < rows.len() && #[trigger] stands_for(
                rows[i],
                venue,
                rows[i].instrument@,
                at,
            ) && key_text(rows[i].canonical) == key,
{
    if carried(rows, key, venue, at) {
        let i = choose|i: int| 0 <= i < rows.len() && (#[trigger] rows[i]).carries(key, venue, at);
        assert(stands_for(rows[i], venue, rows[i].instrument@, at));
    }
    if exists|i: int|
        0 <= i < rows.len() && #[trigger] stands_for(rows[i], venue, rows[i].instrument@, at)
            && key_text(rows[i].canonical) == key {
        let i = choose|i: int|
            0 <= i < rows.len() && #[trigger] stands_for(rows[i], venue, rows[i].instrument@, at)
                && key_text(rows[i].canonical) == key;
        assert(rows[i].carries(key, venue, at));
    }
}

/// A key that is matched across venues is carried by each of them, and by each
/// it has to be: one venue more can only take keys away.
pub proof fn law_matched_on_each_venue(
    rows: Seq<MappingRow>,
    venues: Seq<&str>,
    more: &str,
    key: Seq<char>,
    at: Nanos,
)
    ensures
        matched(rows, venues.push(more), key, at) <==> carried(rows, key, more@, at) && (
        venues.len() == 0 || matched(rows, venues, key, at)),
        !matched(rows, Seq::empty(), key, at),
{
    let all = venues.push(more);
    if matched(rows, all, key, at) {
        assert(all[venues.len() as int] == more);
        assert forall|v: int| 0 <= v < venues.len() implies carried(
            rows,
            key,
            (#[trigger] venues[v])@,
            at,
        ) by {
            assert(all[v] == venues[v]);
        }
    }
    if carried(rows, key, more@, at) && (venues.len() == 0 || matched(rows, venues, key, at)) {
        assert forall|v: int| 0 <= v < all.len() implies carried(
            rows,
            key,
            (#[trigger] all[v])@,
            at,
        ) by {
            if v < venues.len() {
                assert(all[v] == venues[v]);
            }
        }
    }
}

/// The keys that are counted as matched are those both venues carry.
pub proof fn law_matched_keys_are_on_both(
    rows: Seq<MappingRow>,
    at: Nanos,
    keys: Seq<Seq<char>>,
    key: Seq<char>,
)
    requires
        matched_on_both(rows, at, keys),
    ensures
        keys.contains(key) <==> carried(rows, key, "binance"@, at) && carried(
            rows,
            key,
            "bybit"@,
            at,
        ),
        keys.no_duplicates(),
{
    assert forall|i: int, j: int| 0 <= i < keys.len() && 0 <= j < keys.len() && i != j implies
        keys[i] != keys[j] by {
        crate::text::law_lex_total(keys[i], keys[j]);
    }
}

proof fn lemma_cancel(a: Seq<char>, x: Seq<char>, y: Seq<char>, b: Seq<char>)
    ensures
        a + x + b == a + y + b <==> x == y,
{
    if a + x + b == a + y + b {
        let s = a + x + b;
        let t = a + y + b;
        assert(s.len() == t.len());
        assert(x.len() == y.len());
        assert forall|i: int| 0 <= i < x.len() implies x[i] == y[i] by {
            assert(s[a.len() + i] == x[i]);
            assert(t[a.len() + i] == y[i]);
        }
        assert(x =~= y);
    }
}

/// Each part of a canonical instrument counts in its key: two that differ in one
/// part only have different keys.
pub proof fn law_each_part_counts_in_the_key(c: CanonicalInstrumentId, d: CanonicalInstrumentId)
    ensures
        c.quote.0@ == d.quote.0@ && c.class == d.class && c.settle.0@ == d.settle.0@ ==> (key_text(c)
            == key_text(d) <==> c.base.0@ == d.base.0@),
        c.base.0@ == d.base.0@ && c.class == d.class && c.settle.0@ == d.settle.0@ ==> (key_text(c)
            == key_text(d) <==> c.quote.0@ == d.quote.0@),
        c.base.0@ == d.base.0@ && c.quote.0@ == d.quote.0@ && c.class == d.class ==> (key_text(c)
            == key_text(d) <==> c.settle.0@ == d.settle.0@),
        c.base.0@ == d.base.0@ && c.quote.0@ == d.quote.0@ && c.settle.0@ == d.settle.0@ && c.class
            == InstrumentClass::Perp && d.class == InstrumentClass::Spot ==> key_text(c)
            != key_text(d),
{
    let e = Seq::<char>::empty();
    let tail = "-"@ + d.quote.0@ + "-"@ + class_text(d.class) + "-"@ + d.settle.0@;
    if c.quote.0@ == d.quote.0@ && c.class == d.class && c.settle.0@ == d.settle.0@ {
        lemma_cancel(e, c.base.0@, d.base.0@, tail);
        assert(key_text(c) =~= e + c.base.0@ + tail);
        assert(key_text(d) =~= e + d.base.0@ + tail);
    }
    if c.base.0@ == d.base.0@ && c.class == d.class && c.settle.0@ == d.settle.0@ {
        let head = d.base.0@ + "-"@;
        let rest = "-"@ + class_text(d.class) + "-"@ + d.settle.0@;
        lemma_cancel(head, c.quote.0@, d.quote.0@, rest);
        assert(key_text(c) =~= head + c.quote.0@ + rest);
        assert(key_text(d) =~= head + d.quote.0@ + rest);
    }
    if c.base.0@ == d.base.0@ && c.quote.0@ == d.quote.0@ && c.class == d.class {
        let head = d.base.0@ + "-"@ + d.quote.0@ + "-"@ + class_text(d.class) + "-"@;
        lemma_cancel(head, c.settle.0@, d.settle.0@, e);
        assert(key_text(c) =~= head + c.settle.0@ + e);
        assert(key_text(d) =~= head + d.settle.0@ + e);
    }
    if c.base.0@ == d.base.0@ && c.quote.0@ == d.quote.0@ && c.settle.0@ == d.settle.0@ && c.class
        == InstrumentClass::Perp && d.class == InstrumentClass::Spot {
        let head = d.base.0@ + "-"@ + d.quote.0@ + "-"@;
        let rest = "-"@ + d.settle.0@;
        lemma_cancel(head, "perp"@, "spot"@, rest);
        assert(key_text(c) =~= head + "perp"@ + rest);
        assert(key_text(d) =~= head + "spot"@ + rest);
        reveal_strlit("perp");
        reveal_strlit("spot");
        assert("perp"@[0] != "spot"@[0]);
    }
}

/// A mapping row names spot or perpetual, and nothing else is a class there; what
/// is written is read back.
pub proof fn law_classes_are_read(s: Seq<char>, r: Result<InstrumentClass, SymbologyError>)
    requires
        class_read(s, r),
    ensures
        r == Ok::<InstrumentClass, SymbologyError>(InstrumentClass::Spot) <==> s == "spot"@,
        r == Ok::<InstrumentClass, SymbologyError>(InstrumentClass::Perp) <==> s == "perp"@,
        r is Err <==> s != "spot"@ && s != "perp"@,
        r matches Ok(c) ==> class_text(c) == s,
{
    reveal_strlit("perp");
    reveal_strlit("spot");
    assert("perp"@[0] != "spot"@[0]);
}

/// A dump's name is dated by its first ten bytes.
pub proof fn law_names_are_dated_in_front(day: Seq<char>, tail: Seq<char>)
    requires
        day.len() == 10,
        forall|i: int| 0 <= i < 10 ==> (#[trigger] day[i] as u32) < 0x80,
    ensures
        as_date(iso_date(day)) matches Ok(d) ==> name_ns(day + tail) == d.start_ns(),
        as_date(iso_date(day)) is Err ==> name_ns(day + tail) == 0,
{
    crate::text::laws::law_first_bytes_of_ascii(day, tail);
}

// ---------------------------------------------------------------------------
// Dumps
// ---------------------------------------------------------------------------

/// The latest dump is one of the names, a day in front of the suffix, and no
/// other name has a later day in front of it.
pub proof fn law_latest_dump_is_of_the_last_day(
    names: Seq<String>,
    suffix: Seq<char>,
    n: Seq<char>,
    day: Seq<char>,
    i: int,
)
    requires
        latest(names, suffix, n),
        0 <= i < names.len(),
        names[i]@ == day + suffix,
        written_day(day) is Some,
    ensures
        exists|d: Seq<char>|
            n == d + suffix && (#[trigger] written_day(d)) is Some && !written_day(d)->0.precedes(
                written_day(day)->0,
            ),
        exists|j: int| 0 <= j < names.len() && (#[trigger] names[j])@ == n,
{
    let v = crate::text::views(names);
    let j = choose|j: int| 0 <= j < v.len() && v[j] == n;
    assert(names[j]@ == n);
    let name = names[i]@;
    assert(name.take(name.len() - suffix.len()) =~= day);
    assert(crate::text::ends_in(name, suffix)) by {
        assert(name.subrange(name.len() - suffix.len(), name.len() as int) =~= suffix);
    }
    assert(dump_day(name, suffix) == written_day(day));
    let d = n.take(n.len() - suffix.len());
    assert(n =~= d + suffix);
    assert(written_day(d) == dump_day(n, suffix));
}

/// A derived row tells what the dump says of a symbol: a perpetual of its assets
/// that stands from its listing on, settled in the quote asset where the dump
/// does not say.
pub proof fn law_derived_row_tells_the_dump(
    r: MappingRow,
    venue: Seq<char>,
    symbol: Seq<char>,
    base: Seq<char>,
    quote: Seq<char>,
    settle: Option<Seq<char>>,
    valid_from: Nanos,
    at: Nanos,
)
    requires
        derived(r, venue, symbol, base, quote, settle, valid_from as int),
    ensures
        r.canonical.base.0@ == base,
        r.canonical.quote.0@ == quote,
        settle matches Some(s) ==> r.canonical.settle.0@ == s,
        settle is None ==> r.canonical.settle.0@ == quote,
        r.canonical.class is Perp,
        r.origin@ == "derived"@,
        stands_for(r, venue, lowercase(symbol), at) <==> at >= valid_from,
{
}

/// A listing time is in milliseconds; where there is none, or none that is a
/// number, the dump's own day takes its place.
pub proof fn law_listing_times(b: BinanceSymbol, y: BybitSymbol, fallback: Nanos)
    ensures
        b.onboard_date matches Some(ms) ==> binance_from(b, fallback) / 1_000_000 == ms
            && binance_from(b, fallback) % 1_000_000 == 0,
        b.onboard_date is None ==> binance_from(b, fallback) == fallback,
        y.launch_time is None ==> bybit_from(y, fallback) == fallback,
        y.launch_time matches Some(t) ==> (match parse_uint(t@, u64::MAX as nat) {
            Some(ms) => bybit_from(y, fallback) / 1_000_000 == ms && bybit_from(y, fallback)
                % 1_000_000 == 0,
            None => bybit_from(y, fallback) == fallback,
        }),
{
}

proof fn lemma_push_contains<T>(s: Seq<T>, y: T, x: T)
    ensures
        s.push(y).contains(x) <==> s.contains(x) || x == y,
{
    if s.contains(x) {
        let i = choose|i: int| 0 <= i < s.len() && s[i] == x;
        assert(s.push(y)[i] == x);
    }
    assert(s.push(y)[s.len() as int] == y);
    if s.push(y).contains(x) && x != y {
        let i = choose|i: int| 0 <= i < s.push(y).len() && s.push(y)[i] == x;
        assert(s[i] == x);
    }
}

/// Rows are derived of the perpetuals of a dump: of all of them, and of nothing
/// else.
pub proof fn law_perpetuals_get_rows(symbols: Seq<BinanceSymbol>, s: BinanceSymbol)
    ensures
        binance_perps(symbols).contains(s) <==> symbols.contains(s) && s.contract_type@
            == "PERPETUAL"@,
    decreases symbols.len(),
{
    reveal(Seq::filter);
    if symbols.len() > 0 {
        let front = symbols.drop_last();
        let last = symbols.last();
        law_perpetuals_get_rows(front, s);
        assert(symbols =~= front.push(last));
        lemma_push_contains(front, last, s);
        lemma_push_contains(binance_perps(front), last, s);
        if last.contract_type@ == "PERPETUAL"@ {
            assert(binance_perps(symbols) =~= binance_perps(front).push(last));
        } else {
            assert(binance_perps(symbols) =~= binance_perps(front));
        }
    } else {
        assert(binance_perps(symbols).len() == 0);
    }
}

/// The same of the other venue's linear perpetuals.
pub proof fn law_linear_perpetuals_get_rows(symbols: Seq<BybitSymbol>, s: BybitSymbol)
    ensures
        bybit_perps(symbols).contains(s) <==> symbols.contains(s) && s.contract_type@
            == "LinearPerpetual"@,
    decreases symbols.len(),
{
    reveal(Seq::filter);
    if symbols.len() > 0 {
        let front = symbols.drop_last();
        let last = symbols.last();
        law_linear_perpetuals_get_rows(front, s);
        assert(symbols =~= front.push(last));
        lemma_push_contains(front, last, s);
        lemma_push_contains(bybit_perps(front), last, s);
        if last.contract_type@ == "LinearPerpetual"@ {
            assert(bybit_perps(symbols) =~= bybit_perps(front).push(last));
        } else {
            assert(bybit_perps(symbols) =~= bybit_perps(front));
        }
    } else {
        assert(bybit_perps(symbols).len() == 0);
    }
}

// ---------------------------------------------------------------------------
// Overrides
// ---------------------------------------------------------------------------

/// The entry names the row's venue and, in whatever case, its instrument.
pub open spec fn names_row(o: OverrideEntry, row: MappingRow) -> bool {
    o.venue@ == row.venue@ && lowercase(o.instrument@) == row.instrument@
}

/// Of the entries that name a row the last counts; none, none.
pub proof fn law_last_override_counts(overrides: Seq<OverrideEntry>, row: MappingRow)
    ensures
        match override_for(overrides, row) {
            Some(o) => exists|i: int|
                0 <= i < overrides.len() && overrides[i] == o && #[trigger] names_row(
                    overrides[i],
                    row,
                ) && forall|j: int|
                    i < j < overrides.len() ==> !#[trigger] names_row(overrides[j], row),
            None => forall|j: int|
                0 <= j < overrides.len() ==> !#[trigger] names_row(overrides[j], row),
        },
    decreases overrides.len(),
{
    if overrides.len() > 0 {
        let n = overrides.len() - 1;
        let front = overrides.drop_last();
        assert(overrides.last() == overrides[n]);
        if concerns(overrides.last(), row) {
            assert(names_row(overrides[n], row));
        } else {
            law_last_override_counts(front, row);
            assert(!names_row(overrides[n], row));
            match override_for(front, row) {
                Some(o) => {
                    let i = choose|i: int|
                        0 <= i < front.len() && front[i] == o && #[trigger] names_row(
                            front[i],
                            row,
                        ) && forall|j: int|
                            i < j < front.len() ==> !#[trigger] names_row(front[j], row);
                    assert(overrides[i] == front[i]);
                    assert(names_row(overrides[i], row));
                    assert forall|j: int| i < j < overrides.len() implies !#[trigger] names_row(
                        overrides[j],
                        row,
                    ) by {
                        if j < n {
                            assert(front[j] == overrides[j]);
                            assert(!names_row(front[j], row));
                        }
                    }
                },
                None => {
                    assert forall|j: int| 0 <= j < overrides.len() implies !#[trigger] names_row(
                        overrides[j],
                        row,
                    ) by {
                        if j < n {
                            assert(front[j] == overrides[j]);
                            assert(!names_row(front[j], row));
                        }
                    }
                },
            }
        }
    }
}

/// Only an entry that says so takes a row out; every other row stays, and every
/// row of the dumps stays or is taken out.
pub proof fn law_rows_stay_or_are_taken_out(
    overrides: Seq<OverrideEntry>,
    rows: Seq<MappingRow>,
    row: MappingRow,
)
    ensures
        staying(overrides, rows).contains(row) <==> rows.contains(row) && !(override_for(
            overrides,
            row,
        ) is Some && override_for(overrides, row)->0.exclude),
        staying(overrides, rows).len() + excluded_among(overrides, rows).len() == rows.len(),
    decreases rows.len(),
{
    reveal(Seq::filter);
    if rows.len() > 0 {
        let front = rows.drop_last();
        let last = rows.last();
        law_rows_stay_or_are_taken_out(overrides, front, row);
        assert(rows =~= front.push(last));
        lemma_push_contains(front, last, row);
        lemma_push_contains(staying(overrides, front), last, row);
        if is_excluded(overrides, last) {
            assert(staying(overrides, rows) =~= staying(overrides, front));
            assert(excluded_among(overrides, rows) =~= excluded_among(overrides, front).push(last));
        } else {
            assert(staying(overrides, rows) =~= staying(overrides, front).push(last));
            assert(excluded_among(overrides, rows) =~= excluded_among(overrides, front));
        }
    } else {
        assert(staying(overrides, rows).len() == 0);
        assert(excluded_among(overrides, rows).len() == 0);
    }
}

/// One more row adds one to the count of corrected rows if an entry that does not
/// take it out counts for it, and nothing else.
pub proof fn law_corrections_are_counted(
    overrides: Seq<OverrideEntry>,
    rows: Seq<MappingRow>,
    row: MappingRow,
)
    ensures
        overridden_among(overrides, rows.push(row)).len() == overridden_among(overrides, rows).len()
            + (if override_for(overrides, row) is Some && !override_for(overrides, row)->0.exclude {
            1int
        } else {
            0
        }),
        overridden_among(overrides, Seq::empty()).len() == 0,
{
    reveal(Seq::filter);
    assert(rows.push(row).drop_last() =~= rows);
    assert(is_overridden(overrides, row) || !is_overridden(overrides, row));
}

/// A corrected row takes from the entry what it names and keeps the rest; a row
/// that no entry names is kept as it is.
pub proof fn law_correction_changes_what_it_names(
    overrides: Seq<OverrideEntry>,
    row: MappingRow,
    r: MappingRow,
)
    requires
        corrected(overrides, row, r),
    ensures
        override_for(overrides, row) is None ==> r == row,
        override_for(overrides, row) matches Some(o) ==> {
            &&& r.canonical.base.0@ == (match o.base {
                Some(a) => a@,
                None => row.canonical.base.0@,
            })
            &&& r.canonical.quote.0@ == (match o.quote {
                Some(a) => a@,
                None => row.canonical.quote.0@,
            })
            &&& r.canonical.settle.0@ == (match o.settle {
                Some(a) => a@,
                None => row.canonical.settle.0@,
            })
            &&& r.origin@ == "override"@
        },
        r.venue@ == row.venue@,
        r.instrument@ == row.instrument@,
        r.canonical.class == row.canonical.class,
        forall|at: Nanos| #[trigger] r.holds_at(at) == row.holds_at(at),
{
}

/// One more row adds one to the count of its venue and to no other.
pub proof fn law_rows_are_counted_by_venue(
    rows: Seq<MappingRow>,
    row: MappingRow,
    m: Map<Seq<char>, usize>,
    n: Map<Seq<char>, usize>,
    venue: Seq<char>,
)
    requires
        counts(rows, m),
        counts(rows.push(row), n),
    ensures
        n.dom().contains(row.venue@),
        m.dom().contains(row.venue@) ==> n[row.venue@] == m[row.venue@] + 1,
        !m.dom().contains(row.venue@) ==> n[row.venue@] == 1,
        venue != row.venue@ ==> (n.dom().contains(venue) <==> m.dom().contains(venue)) && (
        n.dom().contains(venue) ==> n[venue] == m[venue]),
{
    reveal(Seq::filter);
    let all = rows.push(row);
    assert(all.drop_last() =~= rows);
    assert(of_venue(all, row.venue@) =~= of_venue(rows, row.venue@).push(row));
    assert(n.dom().contains(row.venue@) <==> of_venue(all, row.venue@).len() > 0);
    assert(m.dom().contains(row.venue@) <==> of_venue(rows, row.venue@).len() > 0);
    if venue != row.venue@ {
        assert(of_venue(all, venue) =~= of_venue(rows, venue));
        assert(n.dom().contains(venue) <==> of_venue(all, venue).len() > 0);
        assert(m.dom().contains(venue) <==> of_venue(rows, venue).len() > 0);
    }
}

// ---------------------------------------------------------------------------
// Fees
// ---------------------------------------------------------------------------

/// A schedule's row tells the schedule: each rate in its own column, from the
/// midnight of its first day on.
pub proof fn law_schedule_reads_back(
    venue: Seq<char>,
    e: FeeEntry,
    maker: RateReading,
    taker: RateReading,
    r: FeeRow,
)
    requires
        super::fees::row_of(venue, e, maker, taker, r),
    ensures
        maker matches RateReading::Rate(v) && v == r.maker,
        taker matches RateReading::Rate(v) && v == r.taker,
        (r.venue@, r.tier@, r.market@) == (venue, e.tier@, e.market@),
        as_date(iso_date(e.valid_from@)) matches Ok(d) && d.start_ns() == r.valid_from_ns,
{
}

/// A schedule is without fault where its day is a date and both rates are
/// plausible numbers, and only there. Its day is found at fault first, then the
/// maker rate.
pub proof fn law_schedule_faults(
    venue: Seq<char>,
    e: FeeEntry,
    maker: RateReading,
    taker: RateReading,
)
    ensures
        entry_fault(venue, e, maker, taker) is None <==> as_date(iso_date(e.valid_from@)) is Ok
            && maker is Rate && taker is Rate,
        as_date(iso_date(e.valid_from@)) is Ok && !(maker is Rate) ==> entry_fault(
            venue,
            e,
            maker,
            taker,
        ) == rate_fault(maker, e.maker@, "maker"@, venue),
        as_date(iso_date(e.valid_from@)) is Ok && maker is Rate ==> entry_fault(
            venue,
            e,
            maker,
            taker,
        ) == rate_fault(taker, e.taker@, "taker"@, venue),
        as_date(iso_date(e.valid_from@)) is Err ==> entry_fault(venue, e, maker, taker)
            == entry_fault(venue, e, RateReading::NoNumber, RateReading::NoNumber),
{
}

/// The summary of a build lists the venues in the order of their names, all of
/// them.
pub proof fn law_summary_is_in_order(venues: Seq<VenueRows>, r: Seq<VenueRows>)
    requires
        stable_sort_of(venues, r),
    ensures
        r.len() == venues.len(),
        forall|i: int, j: int|
            0 <= i < j < r.len() ==> !lex_lt((#[trigger] r[j]).venue@, (#[trigger] r[i]).venue@),
        forall|i: int| 0 <= i < venues.len() ==> r.contains(#[trigger] venues[i]),
{
    broadcast use vstd::seq_lib::group_to_multiset_ensures;

    assert(r.to_multiset().len() == r.len());
    assert(venues.to_multiset().len() == venues.len());
    assert forall|i: int, j: int| 0 <= i < j < r.len() implies !lex_lt(
        (#[trigger] r[j]).venue@,
        (#[trigger] r[i]).venue@,
    ) by {
        assert(crate::order::ranked(r));
        crate::text::law_lex_total(r[i].venue@, r[j].venue@);
    }
    assert forall|i: int| 0 <= i < venues.len() implies r.contains(#[trigger] venues[i]) by {
        assert(venues.to_multiset().count(venues[i]) > 0);
    }
}

} // verus!
