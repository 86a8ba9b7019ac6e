//! The mapping builder: the latest instrument dump of each venue and curated
//! overrides make the mapping. It is rebuilt in full every run; the dumps stay
//! the truth.
use super::{make_canonical, matched, MappingRow, Registry, SymbologyError};
use crate::calendar::{
    as_date, iso_date, law_written_days_sort_as_text, read_written_day, written_day, Date,
};
use crate::order::NameMap;
use crate::text::{
    byte_prefix, ends_in, first_bytes, lowercase, parse_bounded, parse_uint, same, strip_tail,
    to_lower, views,
};
use crate::types::{Asset, InstrumentClass, Nanos};
use vstd::prelude::*;
use vstd::string::*;

verus! {

pub const MAPPING_FILE: &'static str = "mapping.parquet";

pub const BUILD_INFO_FILE: &'static str = "mapping.build.json";

#[derive(Debug)]
pub struct BuildCfg {
    pub data_dir: String,
    /// Curated exceptions; no file, no overrides.
    pub overrides_path: String,
}

/// What a build came to.
pub struct BuildSummary {
    pub rows_per_venue: NameMap<usize>,
    pub matched_canonicals: usize,
    pub overridden: usize,
    pub excluded: usize,
}

/// A curated exception to what a dump says.
#[derive(Debug)]
pub struct OverrideEntry {
    pub venue: String,
    pub instrument: String,
    pub exclude: bool,
    pub base: Option<String>,
    pub quote: Option<String>,
    pub settle: Option<String>,
}

// ---------------------------------------------------------------------------
// Dumps
// ---------------------------------------------------------------------------

/// The date in front of the suffix of a dump's name, if the name is of the form
/// `YYYY-MM-DD` and then the suffix.
pub open spec fn dump_day(name: Seq<char>, suffix: Seq<char>) -> Option<Date> {
    if ends_in(name, suffix) {
        written_day(name.take(name.len() - suffix.len()))
    } else {
        None
    }
}

/// `n` is the dump of the latest date among the names.
pub open spec fn latest(names: Seq<String>, suffix: Seq<char>, n: Seq<char>) -> bool {
    &&& views(names).contains(n)
    &&& dump_day(n, suffix) is Some
    &&& forall|i: int|
        0 <= i < names.len() ==> (dump_day((#[trigger] names[i])@, suffix) matches Some(d)
            ==> !dump_day(n, suffix)->0.precedes(d))
}

/// The latest dated dump among the names. Names without a date in front of the
/// suffix are no dumps.
pub fn latest_dump(names: &Vec<String>, suffix: &str) -> (r: Option<String>)
    ensures
        match r {
            Some(n) => latest(names@, suffix@, n@),
            None => forall|i: int|
                0 <= i < names@.len() ==> dump_day((#[trigger] names@[i])@, suffix@) is None,
        },
{
    let mut best: Option<(Date, usize)> = None;
    let mut i: usize = 0;
    while i < names.len()
        invariant
            i <= names@.len(),
            match best {
                Some((d, k)) => k < i && dump_day(names@[k as int]@, suffix@) == Some(d)
                    && forall|j: int|
                    0 <= j < i ==> (dump_day((#[trigger] names@[j])@, suffix@) matches Some(e)
                        ==> !d.precedes(e)),
                None => forall|j: int|
                    0 <= j < i ==> dump_day((#[trigger] names@[j])@, suffix@) is None,
            },
        decreases names@.len() - i,
    {
        if let Some(head) = strip_tail(names[i].as_str(), suffix) {
            if let Some(date) = read_written_day(head.as_str()) {
                let later: bool = match &best {
                    Some((d, _)) => d.before(&date),
                    None => true,
                };
                if later {
                    best = Some((date, i));
                }
            }
        }
        i = i + 1;
    }
    match best {
        Some((_, k)) => {
            assert(views(names@)[k as int] == names@[k as int]@);
            Some(names[k].clone())
        },
        None => None,
    }
}

/// There is one latest dump at most: a day has one name.
pub proof fn law_latest_dump_is_unique(
    names: Seq<String>,
    suffix: Seq<char>,
    a: Seq<char>,
    b: Seq<char>,
)
    requires
        latest(names, suffix, a),
        latest(names, suffix, b),
    ensures
        a == b,
{
    let i = views(names).index_of(a);
    let j = views(names).index_of(b);
    assert(names[i]@ == a && names[j]@ == b);
    let x = a.take(a.len() - suffix.len());
    let y = b.take(b.len() - suffix.len());
    law_written_days_sort_as_text(x, y, suffix);
    assert(a =~= x + suffix);
    assert(b =~= y + suffix);
}

/// The midnight a dump's name is dated with; the epoch where it is not.
pub open spec fn name_ns(name: Seq<char>) -> u64 {
    match first_bytes(name, 10) {
        Some(x) => match as_date(iso_date(x)) {
            Ok(d) => d.start_ns(),
            Err(_) => 0,
        },
        None => 0,
    }
}

pub fn dump_date_ns(name: &str) -> (r: Nanos)
    ensures
        r == name_ns(name@),
{
    match byte_prefix(name, 10) {
        Some(x) => match Date::parse_iso(x.as_str()) {
            Ok(d) => d.day_ns(),
            Err(_) => 0,
        },
        None => 0,
    }
}

/// A symbol as Binance lists it.
#[derive(Debug)]
pub struct BinanceSymbol {
    pub symbol: String,
    pub contract_type: String,
    pub base_asset: String,
    pub quote_asset: String,
    pub margin_asset: Option<String>,
    pub onboard_date: Option<u64>,
}

/// An instrument as Bybit lists it.
#[derive(Debug)]
pub struct BybitSymbol {
    pub symbol: String,
    pub contract_type: String,
    pub base_coin: String,
    pub quote_coin: String,
    pub settle_coin: Option<String>,
    pub launch_time: Option<String>,
}

/// A row derived from a dump: open-ended, settled in the quote asset where
/// nothing else is said.
pub open spec fn derived(
    r: MappingRow,
    venue: Seq<char>,
    symbol: Seq<char>,
    base: Seq<char>,
    quote: Seq<char>,
    settle: Option<Seq<char>>,
    valid_from: int,
) -> bool {
    &&& r.venue@ == venue
    &&& r.instrument@ == lowercase(symbol)
    &&& r.canonical.base.0@ == base
    &&& r.canonical.quote.0@ == quote
    &&& r.canonical.class == InstrumentClass::Perp
    &&& r.canonical.settle.0@ == (match settle {
        Some(s) => s,
        None => quote,
    })
    &&& r.valid_from == valid_from
    &&& r.valid_to is None
    &&& r.origin@ == "derived"@
}

/// When a Binance symbol was listed, or the dump's own date.
pub open spec fn binance_from(s: BinanceSymbol, fallback: Nanos) -> int {
    match s.onboard_date {
        Some(ms) => ms * 1_000_000,
        None => fallback as int,
    }
}

pub open spec fn is_binance_perp(s: BinanceSymbol) -> bool {
    s.contract_type@ == "PERPETUAL"@
}

pub open spec fn binance_perps(symbols: Seq<BinanceSymbol>) -> Seq<BinanceSymbol> {
    symbols.filter(|s: BinanceSymbol| is_binance_perp(s))
}

/// The rows of a Binance dump: its perpetuals.
pub fn binance_rows(symbols: &Vec<BinanceSymbol>, fallback_from: Nanos) -> (r: Vec<MappingRow>)
    requires
        forall|i: int|
            0 <= i < symbols@.len() && is_binance_perp(#[trigger] symbols@[i]) ==> binance_from(
                symbols@[i],
                fallback_from,
            ) <= u64::MAX,
    ensures
        r@.len() == binance_perps(symbols@).len(),
        forall|i: int|
            0 <= i < r@.len() ==> ({
                let s = binance_perps(symbols@)[i];
                derived(
                    #[trigger] r@[i],
                    "binance"@,
                    s.symbol@,
                    s.base_asset@,
                    s.quote_asset@,
                    crate::text::opt_view(s.margin_asset),
                    binance_from(s, fallback_from),
                )
            }),
{
    let mut out: Vec<MappingRow> = Vec::new();
    let mut i: usize = 0;
    proof {
        reveal(Seq::filter);
    }
    while i < symbols.len()
        invariant
            i <= symbols@.len(),
            forall|j: int|
                0 <= j < symbols@.len() && is_binance_perp(#[trigger] symbols@[j]) ==> binance_from(
                    symbols@[j],
                    fallback_from,
                ) <= u64::MAX,
            out@.len() == binance_perps(symbols@.take(i as int)).len(),
            forall|j: int|
                0 <= j < out@.len() ==> ({
                    let s = binance_perps(symbols@.take(i as int))[j];
                    derived(
                        #[trigger] out@[j],
                        "binance"@,
                        s.symbol@,
                        s.base_asset@,
                        s.quote_asset@,
                        crate::text::opt_view(s.margin_asset),
                        binance_from(s, fallback_from),
                    )
                }),
        decreases symbols@.len() - i,
    {
        proof {
            reveal(Seq::filter);
            let t = symbols@.take(i + 1);
            assert(t.drop_last() =~= symbols@.take(i as int));
            assert(t.last() == symbols@[i as int]);
        }
        let s: &BinanceSymbol = &symbols[i];
        if same(s.contract_type.as_str(), "PERPETUAL") {
            assert(binance_from(symbols@[i as int], fallback_from) <= u64::MAX);
            let settle: &str = match &s.margin_asset {
                Some(m) => m.as_str(),
                None => s.quote_asset.as_str(),
            };
            let valid_from: Nanos = match s.onboard_date {
                Some(ms) => ms * 1_000_000,
                None => fallback_from,
            };
            out.push(
                MappingRow {
                    venue: "binance".to_owned(),
                    instrument: to_lower(s.symbol.as_str()),
                    canonical: make_canonical(
                        s.base_asset.as_str(),
                        s.quote_asset.as_str(),
                        settle,
                    ),
                    valid_from,
                    valid_to: None,
                    origin: "derived".to_owned(),
                },
            );
        }
        i = i + 1;
    }
    assert(symbols@.take(symbols@.len() as int) =~= symbols@);
    out
}

/// When a Bybit instrument was launched, or the dump's own date where it does
/// not say or says it badly.
pub open spec fn bybit_from(s: BybitSymbol, fallback: Nanos) -> int {
    match s.launch_time {
        Some(t) => match parse_uint(t@, u64::MAX as nat) {
            Some(ms) => (ms * 1_000_000) as int,
            None => fallback as int,
        },
        None => fallback as int,
    }
}

pub open spec fn is_bybit_perp(s: BybitSymbol) -> bool {
    s.contract_type@ == "LinearPerpetual"@
}

pub open spec fn bybit_perps(symbols: Seq<BybitSymbol>) -> Seq<BybitSymbol> {
    symbols.filter(|s: BybitSymbol| is_bybit_perp(s))
}

/// The rows of a Bybit dump: its linear perpetuals.
pub fn bybit_rows(symbols: &Vec<BybitSymbol>, fallback_from: Nanos) -> (r: Vec<MappingRow>)
    requires
        forall|i: int|
            0 <= i < symbols@.len() && is_bybit_perp(#[trigger] symbols@[i]) ==> bybit_from(
                symbols@[i],
                fallback_from,
            ) <= u64::MAX,
    ensures
        r@.len() == bybit_perps(symbols@).len(),
        forall|i: int|
            0 <= i < r@.len() ==> ({
                let s = bybit_perps(symbols@)[i];
                derived(
                    #[trigger] r@[i],
                    "bybit"@,
                    s.symbol@,
                    s.base_coin@,
                    s.quote_coin@,
                    crate::text::opt_view(s.settle_coin),
                    bybit_from(s, fallback_from),
                )
            }),
{
    let mut out: Vec<MappingRow> = Vec::new();
    let mut i: usize = 0;
    proof {
        reveal(Seq::filter);
    }
    while i < symbols.len()
        invariant
            i <= symbols@.len(),
            forall|j: int|
                0 <= j < symbols@.len() && is_bybit_perp(#[trigger] symbols@[j]) ==> bybit_from(
                    symbols@[j],
                    fallback_from,
                ) <= u64::MAX,
            out@.len() == bybit_perps(symbols@.take(i as int)).len(),
            forall|j: int|
                0 <= j < out@.len() ==> ({
                    let s = bybit_perps(symbols@.take(i as int))[j];
                    derived(
                        #[trigger] out@[j],
                        "bybit"@,
                        s.symbol@,
                        s.base_coin@,
                        s.quote_coin@,
                        crate::text::opt_view(s.settle_coin),
                        bybit_from(s, fallback_from),
                    )
                }),
        decreases symbols@.len() - i,
    {
        proof {
            reveal(Seq::filter);
            let t = symbols@.take(i + 1);
            assert(t.drop_last() =~= symbols@.take(i as int));
            assert(t.last() == symbols@[i as int]);
        }
        let s: &BybitSymbol = &symbols[i];
        if same(s.contract_type.as_str(), "LinearPerpetual") {
            assert(bybit_from(symbols@[i as int], fallback_from) <= u64::MAX);
            let settle: &str = match &s.settle_coin {
                Some(m) => m.as_str(),
                None => s.quote_coin.as_str(),
            };
            let launched: Option<u64> = match &s.launch_time {
                Some(t) => parse_bounded(t.as_str(), u64::MAX),
                None => None,
            };
            let valid_from: Nanos = match launched {
                Some(ms) => ms * 1_000_000,
                None => fallback_from,
            };
            out.push(
                MappingRow {
                    venue: "bybit".to_owned(),
                    instrument: to_lower(s.symbol.as_str()),
                    canonical: make_canonical(s.base_coin.as_str(), s.quote_coin.as_str(), settle),
                    valid_from,
                    valid_to: None,
                    origin: "derived".to_owned(),
                },
            );
        }
        i = i + 1;
    }
    assert(symbols@.take(symbols@.len() as int) =~= symbols@);
    out
}

// ---------------------------------------------------------------------------
// Overrides
// ---------------------------------------------------------------------------

/// The entry is about the venue's instrument.
pub open spec fn concerns(o: OverrideEntry, row: MappingRow) -> bool {
    o.venue@ == row.venue@ && lowercase(o.instrument@) == row.instrument@
}

/// The entry that counts for a row: the last about it.
pub open spec fn override_for(overrides: Seq<OverrideEntry>, row: MappingRow) -> Option<
    OverrideEntry,
>
    decreases overrides.len(),
{
    if overrides.len() == 0 {
        None
    } else if concerns(overrides.last(), row) {
        Some(overrides.last())
    } else {
        override_for(overrides.drop_last(), row)
    }
}

pub open spec fn asset_or(patch: Option<String>, was: Asset) -> Seq<char> {
    match patch {
        Some(a) => a@,
        None => was.0@,
    }
}

/// `r` is the row as the entry corrects it.
pub open spec fn patched(row: MappingRow, o: OverrideEntry, r: MappingRow) -> bool {
    &&& r.venue@ == row.venue@
    &&& r.instrument@ == row.instrument@
    &&& r.canonical.base.0@ == asset_or(o.base, row.canonical.base)
    &&& r.canonical.quote.0@ == asset_or(o.quote, row.canonical.quote)
    &&& r.canonical.settle.0@ == asset_or(o.settle, row.canonical.settle)
    &&& r.canonical.class == row.canonical.class
    &&& r.valid_from == row.valid_from
    &&& r.valid_to == row.valid_to
    &&& r.origin@ == "override"@
}

/// An override takes the row out.
pub open spec fn is_excluded(overrides: Seq<OverrideEntry>, row: MappingRow) -> bool {
    override_for(overrides, row) matches Some(o) && o.exclude
}

/// An override corrects the row.
pub open spec fn is_overridden(overrides: Seq<OverrideEntry>, row: MappingRow) -> bool {
    override_for(overrides, row) matches Some(o) && !o.exclude
}

/// `r` is what becomes of a row that stays.
pub open spec fn corrected(
    overrides: Seq<OverrideEntry>,
    row: MappingRow,
    r: MappingRow,
) -> bool {
    match override_for(overrides, row) {
        Some(o) => patched(row, o, r),
        None => r == row,
    }
}

/// The rows that an override corrects.
pub open spec fn overridden_among(overrides: Seq<OverrideEntry>, rows: Seq<MappingRow>) -> Seq<
    MappingRow,
> {
    rows.filter(|x: MappingRow| is_overridden(overrides, x))
}

/// The rows that an override takes out.
pub open spec fn excluded_among(overrides: Seq<OverrideEntry>, rows: Seq<MappingRow>) -> Seq<
    MappingRow,
> {
    rows.filter(|x: MappingRow| is_excluded(overrides, x))
}

/// The rows that stay, in order.
pub open spec fn staying(overrides: Seq<OverrideEntry>, rows: Seq<MappingRow>) -> Seq<MappingRow> {
    rows.filter(|r: MappingRow| !is_excluded(overrides, r))
}

fn find_override(overrides: &Vec<OverrideEntry>, row: &MappingRow) -> (r: Option<usize>)
    ensures
        match r {
            Some(i) => i < overrides@.len() && override_for(overrides@, *row) == Some(
                overrides@[i as int],
            ),
            None => override_for(overrides@, *row) is None,
        },
{
    let mut i: usize = overrides.len();
    assert(overrides@.take(overrides@.len() as int) =~= overrides@);
    while i > 0
        invariant
            i <= overrides@.len(),
            override_for(overrides@, *row) == override_for(overrides@.take(i as int), *row),
        decreases i,
    {
        i = i - 1;
        proof {
            assert(overrides@.take(i + 1).drop_last() =~= overrides@.take(i as int));
            assert(overrides@.take(i + 1).last() == overrides@[i as int]);
        }
        let o: &OverrideEntry = &overrides[i];
        if same(o.venue.as_str(), row.venue.as_str()) && same(
            to_lower(o.instrument.as_str()).as_str(),
            row.instrument.as_str(),
        ) {
            return Some(i);
        }
    }
    None
}

fn asset_patch(patch: &Option<String>, was: &Asset) -> (r: Asset)
    ensures
        r.0@ == asset_or(*patch, *was),
{
    match patch {
        Some(a) => Asset(a.clone()),
        None => was.clone(),
    }
}

/// Apply the overrides; the rows that stay, how many were corrected and how many
/// were taken out.
pub fn apply_overrides(rows: &Vec<MappingRow>, overrides: &Vec<OverrideEntry>) -> (r: (
    Vec<MappingRow>,
    usize,
    usize,
))
    ensures
        r.0@.len() == staying(overrides@, rows@).len(),
        forall|i: int|
            0 <= i < r.0@.len() ==> corrected(
                overrides@,
                staying(overrides@, rows@)[i],
                #[trigger] r.0@[i],
            ),
        r.1 == rows@.filter(|x: MappingRow| is_overridden(overrides@, x)).len(),
        r.2 == rows@.filter(|x: MappingRow| is_excluded(overrides@, x)).len(),
        r.1 == overridden_among(overrides@, rows@).len(),
        r.2 == excluded_among(overrides@, rows@).len(),
{
    let ghost over = |x: MappingRow| is_overridden(overrides@, x);
    let ghost excl = |x: MappingRow| is_excluded(overrides@, x);
    let mut out: Vec<MappingRow> = Vec::new();
    let mut overridden: usize = 0;
    let mut excluded: usize = 0;
    let mut i: usize = 0;
    proof {
        reveal(Seq::filter);
    }
    while i < rows.len()
        invariant
            i <= rows@.len(),
            over == (|x: MappingRow| is_overridden(overrides@, x)),
            excl == (|x: MappingRow| is_excluded(overrides@, x)),
            out@.len() == staying(overrides@, rows@.take(i as int)).len(),
            forall|j: int|
                0 <= j < out@.len() ==> corrected(
                    overrides@,
                    staying(overrides@, rows@.take(i as int))[j],
                    #[trigger] out@[j],
                ),
            overridden == rows@.take(i as int).filter(over).len(),
            excluded == rows@.take(i as int).filter(excl).len(),
            overridden <= i,
            excluded <= i,
        decreases rows@.len() - i,
    {
        let n: usize = rows.len();
        proof {
            reveal(Seq::filter);
            let t = rows@.take(i + 1);
            assert(t.drop_last() =~= rows@.take(i as int));
            assert(t.last() == rows@[i as int]);
        }
        let row: &MappingRow = &rows[i];
        match find_override(overrides, row) {
            None => {
                out.push(row.clone());
            },
            Some(k) => {
                let o: &OverrideEntry = &overrides[k];
                if o.exclude {
                    excluded = excluded + 1;
                } else {
                    let mut fixed: MappingRow = row.clone();
                    fixed.canonical.base = asset_patch(&o.base, &row.canonical.base);
                    fixed.canonical.quote = asset_patch(&o.quote, &row.canonical.quote);
                    fixed.canonical.settle = asset_patch(&o.settle, &row.canonical.settle);
                    fixed.origin = "override".to_owned();
                    out.push(fixed);
                    overridden = overridden + 1;
                }
            },
        }
        i = i + 1;
    }
    assert(rows@.take(rows@.len() as int) =~= rows@);
    (out, overridden, excluded)
}

// ---------------------------------------------------------------------------
// The build
// ---------------------------------------------------------------------------

/// The rows of a venue.
pub open spec fn of_venue(rows: Seq<MappingRow>, venue: Seq<char>) -> Seq<MappingRow> {
    rows.filter(|r: MappingRow| r.venue@ == venue)
}

/// `m` counts the rows of each venue that has any.
pub open spec fn counts(rows: Seq<MappingRow>, m: Map<Seq<char>, usize>) -> bool {
    forall|v: Seq<char>|
        #![trigger m.dom().contains(v)]
        (m.dom().contains(v) <==> of_venue(rows, v).len() > 0) && (m.dom().contains(v) ==> m[v]
            == of_venue(rows, v).len())
}

/// How many rows each venue has.
pub fn count_rows(rows: &Vec<MappingRow>) -> (r: NameMap<usize>)
    ensures
        r.wf(),
        counts(rows@, r.as_map()),
{
    let mut out: NameMap<usize> = NameMap::new();
    let mut i: usize = 0;
    proof {
        assert forall|v: Seq<char>|
            #![trigger out.as_map().dom().contains(v)]
            (out.as_map().dom().contains(v) <==> of_venue(rows@.take(0), v).len() > 0) by {
            reveal(Seq::filter);
        }
    }
    while i < rows.len()
        invariant
            i <= rows@.len(),
            out.wf(),
            counts(rows@.take(i as int), out.as_map()),
        decreases rows@.len() - i,
    {
        let n: usize = rows.len();
        let ghost held = out.as_map();
        let ghost p = rows@.take(i as int);
        let venue: String = rows[i].venue.clone();
        let so_far: usize = match out.get(venue.as_str()) {
            Some(c) => *c,
            None => 0,
        };
        proof {
            reveal(Seq::filter);
            assert(held.dom().contains(venue@) || !held.dom().contains(venue@));
            lemma_venue_bound(p, venue@);
            assert(so_far == of_venue(p, venue@).len());
        }
        out.put(venue, so_far + 1);
        proof {
            let q = rows@.take(i + 1);
            assert(q.drop_last() =~= p);
            assert(q.last() == rows@[i as int]);
            assert forall|v: Seq<char>|
                #![trigger out.as_map().dom().contains(v)]
                (out.as_map().dom().contains(v) <==> of_venue(q, v).len() > 0) && (
                out.as_map().dom().contains(v) ==> out.as_map()[v] == of_venue(q, v).len()) by {
                reveal(Seq::filter);
                assert(held.dom().contains(v) <==> of_venue(p, v).len() > 0);
                assert(of_venue(q, v) == (if q.last().venue@ == v {
                    of_venue(p, v).push(q.last())
                } else {
                    of_venue(p, v)
                }));
            }
        }
        i = i + 1;
    }
    assert(rows@.take(rows@.len() as int) =~= rows@);
    out
}

proof fn lemma_venue_bound(rows: Seq<MappingRow>, venue: Seq<char>)
    ensures
        of_venue(rows, venue).len() <= rows.len(),
    decreases rows.len(),
{
    reveal(Seq::filter);
    if rows.len() > 0 {
        lemma_venue_bound(rows.drop_last(), venue);
    }
}

/// A built mapping.
pub struct Mapping {
    pub rows: Vec<MappingRow>,
    pub summary: BuildSummary,
}

/// The keys that both venues carry at the instant, in order.
pub open spec fn matched_on_both(rows: Seq<MappingRow>, at: Nanos, keys: Seq<Seq<char>>) -> bool {
    crate::order::ascending(keys) && forall|k: Seq<char>| #[trigger]
        keys.contains(k) <==> (super::carried(rows, k, "binance"@, at) && super::carried(
            rows,
            k,
            "bybit"@,
            at,
        ))
}

fn count_matched(registry: &Registry, now: Nanos) -> (r: usize)
    ensures
        exists|keys: Seq<Seq<char>>| #[trigger]
            matched_on_both(registry.rows@, now, keys) && r == keys.len(),
{
    let venues: [&str; 2] = ["binance", "bybit"];
    let keys: Vec<String> = registry.matched_keys(&venues, now);
    proof {
        assert forall|k: Seq<char>| #[trigger]
            views(keys@).contains(k) <==> (super::carried(
                registry.rows@,
                k,
                "binance"@,
                now,
            ) && super::carried(registry.rows@, k, "bybit"@, now)) by {
            assert(venues@[0]@ == "binance"@ && venues@[1]@ == "bybit"@);
            if super::carried(registry.rows@, k, "binance"@, now) && super::carried(
                registry.rows@,
                k,
                "bybit"@,
                now,
            ) {
                assert(matched(registry.rows@, venues@, k, now));
            }
        }
        assert(matched_on_both(registry.rows@, now, views(keys@)));
    }
    keys.len()
}

/// Build the mapping from the rows of the venues' dumps.
pub fn assemble(rows: &Vec<MappingRow>, overrides: &Vec<OverrideEntry>, now: Nanos) -> (r: Result<
    Mapping,
    SymbologyError,
>)
    ensures
        match r {
            Ok(m) => {
                &&& rows@.len() > 0
                &&& m.rows@.len() == staying(overrides@, rows@).len()
                &&& forall|i: int|
                    0 <= i < m.rows@.len() ==> corrected(
                        overrides@,
                        staying(overrides@, rows@)[i],
                        #[trigger] m.rows@[i],
                    )
                &&& m.summary.overridden == rows@.filter(
                    |x: MappingRow| is_overridden(overrides@, x),
                ).len()
                &&& m.summary.excluded == rows@.filter(
                    |x: MappingRow| is_excluded(overrides@, x),
                ).len()
                &&& m.summary.overridden == overridden_among(overrides@, rows@).len()
                &&& m.summary.excluded == excluded_among(overrides@, rows@).len()
                &&& m.summary.rows_per_venue.wf()
                &&& counts(m.rows@, m.summary.rows_per_venue.as_map())
                &&& exists|keys: Seq<Seq<char>>| #[trigger]
                    matched_on_both(m.rows@, now, keys) && m.summary.matched_canonicals
                        == keys.len()
            },
            Err(e) => rows@.len() == 0 && (e matches SymbologyError::Invalid(t) && t@
                == "no instrument dumps found under data/meta — nothing to build"@),
        },
{
    if rows.len() == 0 {
        return Err(
            SymbologyError::Invalid(
                "no instrument dumps found under data/meta — nothing to build".to_owned(),
            ),
        );
    }
    let (kept, overridden, excluded): (Vec<MappingRow>, usize, usize) = apply_overrides(
        rows,
        overrides,
    );
    let rows_per_venue: NameMap<usize> = count_rows(&kept);
    let registry: Registry = Registry::from_rows(kept);
    let matched_canonicals: usize = count_matched(&registry, now);
    Ok(
        Mapping {
            rows: registry.rows,
            summary: BuildSummary {
                rows_per_venue,
                matched_canonicals,
                overridden,
                excluded,
            },
        },
    )
}

} // verus!
