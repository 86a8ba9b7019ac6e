//! The history of instruments as intervals: one row per symbol and span in which
//! nothing about it changed, rebuilt from the daily dumps. It answers what a
//! symbol's tick size or funding interval was on a date. What changes within a
//! day is invisible to daily dumps.
use super::SymbologyError;
use crate::calendar::{as_date, iso_date, Date};
use crate::order::{stable_sort, stable_sort_of, NameMap, Ranked};
use crate::paths::{join, path_join};
use crate::text::{
    before, ends_in, law_lex_total, law_lex_transitive, lex_lt, lowercase, opt_view, same,
    same_opt, strip_tail, to_lower, views,
};
use vstd::prelude::*;
use vstd::string::*;

verus! {

pub const SCD_FILE: &'static str = "binance.parquet";

/// Eight hours, the funding interval of a perpetual nothing else is said of.
pub const DEFAULT_FUNDING_INTERVAL_NS: u64 = 28_800_000_000_000;

/// The bits of negative zero, which is the same number as zero.
pub const NEGATIVE_ZERO: u64 = 0x8000_0000_0000_0000;

/// A size as a floating-point number, by its bits. What is not a number has no
/// pattern here: it equals nothing, itself included.
#[derive(Debug, Clone, Copy, PartialEq, Eq, Structural)]
pub enum Size {
    Bits(u64),
    NotANumber,
}

/// The two patterns are the same number: zero has two.
pub open spec fn same_number(x: u64, y: u64) -> bool {
    x == y || ((x == 0 || x == NEGATIVE_ZERO) && (y == 0 || y == NEGATIVE_ZERO))
}

/// The two sizes are the same number, or both absent.
pub open spec fn same_size(a: Option<Size>, b: Option<Size>) -> bool {
    match (a, b) {
        (None, None) => true,
        (Some(Size::Bits(x)), Some(Size::Bits(y))) => same_number(x, y),
        _ => false,
    }
}

fn size_unchanged(a: &Option<Size>, b: &Option<Size>) -> (r: bool)
    ensures
        r == same_size(*a, *b),
{
    match (a, b) {
        (None, None) => true,
        (Some(Size::Bits(x)), Some(Size::Bits(y))) => *x == *y || ((*x == 0 || *x
            == NEGATIVE_ZERO) && (*y == 0 || *y == NEGATIVE_ZERO)),
        _ => false,
    }
}

/// What a day's dump says of a symbol.
#[derive(Debug)]
pub struct Snapshot {
    pub status: String,
    pub lifecycle: &'static str,
    pub class: &'static str,
    pub base: String,
    pub quote: String,
    pub settle: Option<String>,
    pub tick_size: Option<Size>,
    pub lot_size: Option<Size>,
    pub min_notional: Option<Size>,
    pub funding_interval_ns: Option<u64>,
    pub onboard_ms: Option<u64>,
}

impl Clone for Snapshot {
    fn clone(&self) -> (r: Self)
        ensures
            r == *self,
    {
        Snapshot {
            status: self.status.clone(),
            lifecycle: self.lifecycle,
            class: self.class,
            base: self.base.clone(),
            quote: self.quote.clone(),
            settle: match &self.settle {
                Some(s) => Some(s.clone()),
                None => None,
            },
            tick_size: self.tick_size,
            lot_size: self.lot_size,
            min_notional: self.min_notional,
            funding_interval_ns: self.funding_interval_ns,
            onboard_ms: self.onboard_ms,
        }
    }
}

impl Snapshot {
    /// Nothing changed between the two.
    pub open spec fn same_as(self, o: Snapshot) -> bool {
        &&& self.status@ == o.status@
        &&& self.lifecycle@ == o.lifecycle@
        &&& self.class@ == o.class@
        &&& self.base@ == o.base@
        &&& self.quote@ == o.quote@
        &&& opt_view(self.settle) == opt_view(o.settle)
        &&& same_size(self.tick_size, o.tick_size)
        &&& same_size(self.lot_size, o.lot_size)
        &&& same_size(self.min_notional, o.min_notional)
        &&& self.funding_interval_ns == o.funding_interval_ns
        &&& self.onboard_ms == o.onboard_ms
    }

    pub fn unchanged(&self, o: &Snapshot) -> (r: bool)
        ensures
            r == self.same_as(*o),
    {
        same(self.status.as_str(), o.status.as_str()) && same(self.lifecycle, o.lifecycle) && same(
            self.class,
            o.class,
        ) && same(self.base.as_str(), o.base.as_str()) && same(
            self.quote.as_str(),
            o.quote.as_str(),
        ) && same_opt(&self.settle, &o.settle) && size_unchanged(&self.tick_size, &o.tick_size)
            && size_unchanged(&self.lot_size, &o.lot_size) && size_unchanged(
            &self.min_notional,
            &o.min_notional,
        ) && self.funding_interval_ns == o.funding_interval_ns && self.onboard_ms == o.onboard_ms
    }
}

/// One interval of a symbol.
#[derive(Debug)]
pub struct ScdRow {
    pub symbol: String,
    pub valid_from: u64,
    pub valid_to: Option<u64>,
    pub snap: Snapshot,
}

// ---------------------------------------------------------------------------
// One day
// ---------------------------------------------------------------------------

pub open spec fn lifecycle_text(status: Seq<char>) -> Seq<char> {
    if status == "TRADING"@ {
        "trading"@
    } else if status == "PENDING_TRADING"@ {
        "pending_trading"@
    } else if status == "DELIVERED"@ || status == "CLOSE"@ {
        "delisted"@
    } else {
        "halted"@
    }
}

pub fn lifecycle_str(status: &str) -> (r: &'static str)
    ensures
        r@ == lifecycle_text(status@),
{
    if same(status, "TRADING") {
        "trading"
    } else if same(status, "PENDING_TRADING") {
        "pending_trading"
    } else if same(status, "DELIVERED") || same(status, "CLOSE") {
        "delisted"
    } else {
        "halted"
    }
}

/// A symbol as a dump lists it, with its sizes read.
#[derive(Debug)]
pub struct ListedSymbol {
    pub symbol: String,
    pub contract_type: String,
    pub base_asset: String,
    pub quote_asset: String,
    pub margin_asset: Option<String>,
    pub status: String,
    pub onboard_date: Option<u64>,
    pub tick_size: Option<Size>,
    pub lot_size: Option<Size>,
    pub min_notional: Option<Size>,
}

/// `r` is the snapshot of a listed symbol, with the funding intervals of the
/// day.
pub open spec fn snapshot_of(
    s: ListedSymbol,
    funding: Map<Seq<char>, u64>,
    r: Snapshot,
) -> bool {
    let perp = s.contract_type@ == "PERPETUAL"@;
    &&& r.status@ == s.status@
    &&& r.lifecycle@ == lifecycle_text(s.status@)
    &&& r.class@ == (if perp {
        "perp"@
    } else {
        "future"@
    })
    &&& r.base@ == s.base_asset@
    &&& r.quote@ == s.quote_asset@
    &&& opt_view(r.settle) == opt_view(s.margin_asset)
    &&& r.tick_size == s.tick_size
    &&& r.lot_size == s.lot_size
    &&& r.min_notional == s.min_notional
    &&& r.funding_interval_ns == (if perp {
        Some(
            if funding.dom().contains(s.symbol@) {
                funding[s.symbol@]
            } else {
                DEFAULT_FUNDING_INTERVAL_NS
            },
        )
    } else {
        None
    })
    &&& r.onboard_ms == s.onboard_date
}

/// The last symbol listed under a key.
pub open spec fn listed_as(symbols: Seq<ListedSymbol>, key: Seq<char>) -> Option<ListedSymbol>
    decreases symbols.len(),
{
    if symbols.len() == 0 {
        None
    } else if lowercase(symbols.last().symbol@) == key {
        Some(symbols.last())
    } else {
        listed_as(symbols.drop_last(), key)
    }
}

/// The map holds the snapshot of every listed symbol and nothing else.
pub open spec fn snapshots_of(
    symbols: Seq<ListedSymbol>,
    funding: Map<Seq<char>, u64>,
    m: Map<Seq<char>, Snapshot>,
) -> bool {
    forall|k: Seq<char>|
        #![trigger m.dom().contains(k)]
        match listed_as(symbols, k) {
            Some(s) => m.dom().contains(k) && snapshot_of(s, funding, m[k]),
            None => !m.dom().contains(k),
        }
}

fn take_snapshot(s: &ListedSymbol, funding: &NameMap<u64>) -> (r: Snapshot)
    requires
        funding.wf(),
    ensures
        snapshot_of(*s, funding.as_map(), r),
{
    let perp: bool = same(s.contract_type.as_str(), "PERPETUAL");
    let funding_interval_ns: Option<u64> = if perp {
        match funding.get(s.symbol.as_str()) {
            Some(v) => Some(*v),
            None => Some(DEFAULT_FUNDING_INTERVAL_NS),
        }
    } else {
        None
    };
    Snapshot {
        lifecycle: lifecycle_str(s.status.as_str()),
        status: s.status.clone(),
        class: if perp {
            "perp"
        } else {
            "future"
        },
        base: s.base_asset.clone(),
        quote: s.quote_asset.clone(),
        settle: match &s.margin_asset {
            Some(a) => Some(a.clone()),
            None => None,
        },
        tick_size: s.tick_size,
        lot_size: s.lot_size,
        min_notional: s.min_notional,
        funding_interval_ns,
        onboard_ms: s.onboard_date,
    }
}

/// A day's snapshots by symbol. `funding` holds the day's funding intervals; a
/// day without its own carries those of the day before.
pub fn day_snapshots(symbols: &Vec<ListedSymbol>, funding: &NameMap<u64>) -> (r: NameMap<Snapshot>)
    requires
        funding.wf(),
    ensures
        r.wf(),
        snapshots_of(symbols@, funding.as_map(), r.as_map()),
{
    let mut out: NameMap<Snapshot> = NameMap::new();
    let mut i: usize = 0;
    while i < symbols.len()
        invariant
            i <= symbols@.len(),
            funding.wf(),
            out.wf(),
            snapshots_of(symbols@.take(i as int), funding.as_map(), out.as_map()),
        decreases symbols@.len() - i,
    {
        let ghost held = out.as_map();
        let key: String = to_lower(symbols[i].symbol.as_str());
        let snap: Snapshot = take_snapshot(&symbols[i], funding);
        out.put(key, snap);
        proof {
            let p = symbols@.take(i as int);
            let q = symbols@.take(i + 1);
            assert(q.drop_last() =~= p);
            assert(q.last() == symbols@[i as int]);
            assert forall|k: Seq<char>|
                #![trigger out.as_map().dom().contains(k)]
                match listed_as(q, k) {
                    Some(s) => out.as_map().dom().contains(k) && snapshot_of(
                        s,
                        funding.as_map(),
                        out.as_map()[k],
                    ),
                    None => !out.as_map().dom().contains(k),
                } by {
                assert(held.dom().contains(k) || !held.dom().contains(k));
            }
        }
        i = i + 1;
    }
    assert(symbols@.take(symbols@.len() as int) =~= symbols@);
    out
}

// ---------------------------------------------------------------------------
// Days into intervals
// ---------------------------------------------------------------------------

/// The snapshots of one day.
pub struct Day {
    pub date: Date,
    pub symbols: NameMap<Snapshot>,
}

impl Day {
    pub open spec fn wf(self) -> bool {
        self.date.wf() && self.symbols.wf()
    }

    /// The instant the day's changes count from.
    pub open spec fn stamp(self) -> u64 {
        self.date.start_ns()
    }

    /// What the day says of a symbol.
    pub open spec fn says(self, symbol: Seq<char>) -> Option<Snapshot> {
        if self.symbols.as_map().dom().contains(symbol) {
            Some(self.symbols.as_map()[symbol])
        } else {
            None
        }
    }
}

/// A span in which nothing changed.
pub struct Interval {
    pub from: u64,
    pub to: Option<u64>,
    pub snap: Snapshot,
}

impl Interval {
    pub open spec fn ended(self, at: u64) -> Interval {
        Interval { to: Some(at), ..self }
    }

    pub open spec fn covers(self, t: u64) -> bool {
        self.from <= t && (match self.to {
            Some(to) => t < to,
            None => true,
        })
    }
}

/// The intervals of a symbol so far: those that have ended, and the open one.
pub struct Track {
    pub ended: Seq<Interval>,
    pub open: Option<Interval>,
}

/// A change or a disappearance ends the open interval at the day's midnight.
pub open spec fn track(days: Seq<Day>, symbol: Seq<char>) -> Track
    decreases days.len(),
{
    if days.len() == 0 {
        Track { ended: Seq::empty(), open: None }
    } else {
        let t = track(days.drop_last(), symbol);
        let at = days.last().stamp();
        match (t.open, days.last().says(symbol)) {
            (None, None) => t,
            (None, Some(snap)) => Track {
                open: Some(Interval { from: at, to: None, snap }),
                ..t
            },
            (Some(o), None) => Track { ended: t.ended.push(o.ended(at)), open: None },
            (Some(o), Some(snap)) => if o.snap.same_as(snap) {
                t
            } else {
                Track {
                    ended: t.ended.push(o.ended(at)),
                    open: Some(Interval { from: at, to: None, snap }),
                }
            },
        }
    }
}

/// The intervals of a symbol, in the order they began.
pub open spec fn intervals(days: Seq<Day>, symbol: Seq<char>) -> Seq<Interval> {
    let t = track(days, symbol);
    match t.open {
        Some(o) => t.ended.push(o),
        None => t.ended,
    }
}

pub open spec fn interval_of(r: ScdRow) -> Interval {
    Interval { from: r.valid_from, to: r.valid_to, snap: r.snap }
}

/// The intervals the rows give for a symbol, in the rows' order.
pub open spec fn given(rows: Seq<ScdRow>, symbol: Seq<char>) -> Seq<Interval> {
    rows.filter(|r: ScdRow| r.symbol@ == symbol).map_values(|r: ScdRow| interval_of(r))
}

/// Rows are ordered by symbol, then by their beginning.
impl Ranked for ScdRow {
    open spec fn rank_le(a: Self, b: Self) -> bool {
        lex_lt(a.symbol@, b.symbol@) || (a.symbol@ == b.symbol@ && a.valid_from <= b.valid_from)
    }

    proof fn rank_total(a: Self, b: Self) {
        law_lex_total(a.symbol@, b.symbol@);
    }

    proof fn rank_transitive(a: Self, b: Self, c: Self) {
        if lex_lt(a.symbol@, b.symbol@) && lex_lt(b.symbol@, c.symbol@) {
            law_lex_transitive(a.symbol@, b.symbol@, c.symbol@);
        }
    }

    fn not_after(&self, other: &Self) -> (r: bool) {
        before(self.symbol.as_str(), other.symbol.as_str()) || (same(
            self.symbol.as_str(),
            other.symbol.as_str(),
        ) && self.valid_from <= other.valid_from)
    }
}

pub(crate) proof fn lemma_nothing_given(symbol: Seq<char>)
    ensures
        given(Seq::empty(), symbol).len() == 0,
{
    reveal(Seq::filter);
}

pub(crate) proof fn lemma_given_push(rows: Seq<ScdRow>, row: ScdRow, symbol: Seq<char>)
    ensures
        given(rows.push(row), symbol) == (if row.symbol@ == symbol {
            given(rows, symbol).push(interval_of(row))
        } else {
            given(rows, symbol)
        }),
{
    reveal(Seq::filter);
    assert(rows.push(row).drop_last() =~= rows);
    let keep = |r: ScdRow| r.symbol@ == symbol;
    if row.symbol@ == symbol {
        assert(rows.push(row).filter(keep) == rows.filter(keep).push(row));
        assert(given(rows.push(row), symbol) =~= given(rows, symbol).push(interval_of(row)));
    }
}

proof fn lemma_never_listed(days: Seq<Day>, symbol: Seq<char>)
    requires
        forall|i: int| 0 <= i < days.len() ==> (#[trigger] days[i]).says(symbol) is None,
    ensures
        track(days, symbol) == (Track { ended: Seq::empty(), open: None }),
    decreases days.len(),
{
    if days.len() > 0 {
        lemma_never_listed(days.drop_last(), symbol);
        assert(days[days.len() - 1].says(symbol) is None);
    }
}

/// Append the rows of one symbol.
fn fold_symbol(days: &Vec<Day>, symbol: &String, out: &mut Vec<ScdRow>)
    requires
        forall|i: int| 0 <= i < days@.len() ==> (#[trigger] days@[i]).wf(),
        given(old(out)@, symbol@).len() == 0,
    ensures
        given(final(out)@, symbol@) == intervals(days@, symbol@),
        forall|s: Seq<char>|
            s != symbol@ ==> #[trigger] given(final(out)@, s) == given(old(out)@, s),
{
    let ghost held = out@;
    let mut open: Option<ScdRow> = None;
    let mut i: usize = 0;
    assert(given(out@, symbol@) =~= Seq::<Interval>::empty());
    while i < days.len()
        invariant
            i <= days@.len(),
            forall|j: int| 0 <= j < days@.len() ==> (#[trigger] days@[j]).wf(),
            given(out@, symbol@) == track(days@.take(i as int), symbol@).ended,
            match open {
                Some(row) => row.symbol@ == symbol@ && row.valid_to is None && track(
                    days@.take(i as int),
                    symbol@,
                ).open == Some(interval_of(row)),
                None => track(days@.take(i as int), symbol@).open is None,
            },
            forall|s: Seq<char>| s != symbol@ ==> #[trigger] given(out@, s) == given(held, s),
        decreases days@.len() - i,
    {
        proof {
            let t = days@.take(i + 1);
            assert(t.drop_last() =~= days@.take(i as int));
            assert(t.last() == days@[i as int]);
        }
        let ghost o = out@;
        let day: &Day = &days[i];
        let at: u64 = day.date.day_ns();
        let next: Option<ScdRow> = match day.symbols.get(symbol.as_str()) {
            Some(snap) => Some(
                ScdRow {
                    symbol: symbol.clone(),
                    valid_from: at,
                    valid_to: None,
                    snap: snap.clone(),
                },
            ),
            None => None,
        };
        let stays: bool = match (&open, &next) {
            (Some(row), Some(n)) => row.snap.unchanged(&n.snap),
            (None, None) => true,
            _ => false,
        };
        if !stays {
            match open {
                Some(row) => {
                    let done: ScdRow = ScdRow {
                        symbol: row.symbol,
                        valid_from: row.valid_from,
                        valid_to: Some(at),
                        snap: row.snap,
                    };
                    let ghost d = done;
                    out.push(done);
                    proof {
                        assert(out@ == o.push(d));
                        assert forall|s: Seq<char>|
                            s != symbol@ implies #[trigger] given(out@, s) == given(held, s) by {
                            lemma_given_push(o, d, s);
                            assert(given(o, s) == given(held, s));
                        }
                        lemma_given_push(o, d, symbol@);
                    }
                },
                None => {},
            }
            open = next;
        }
        i = i + 1;
    }
    assert(days@.take(days@.len() as int) =~= days@);
    let ghost o = out@;
    match open {
        Some(row) => {
            let ghost d = row;
            out.push(row);
            proof {
                assert(out@ == o.push(d));
                assert forall|s: Seq<char>| s != symbol@ implies #[trigger] given(out@, s) == given(
                    held,
                    s,
                ) by {
                    lemma_given_push(o, d, s);
                    assert(given(o, s) == given(held, s));
                }
                lemma_given_push(o, d, symbol@);
            }
        },
        None => {},
    }
}

fn all_symbols(days: &Vec<Day>) -> (r: NameMap<()>)
    requires
        forall|i: int| 0 <= i < days@.len() ==> (#[trigger] days@[i]).wf(),
    ensures
        r.wf(),
        forall|i: int, s: Seq<char>|
            0 <= i < days@.len() && (#[trigger] days@[i].says(s)) is Some
                ==> r.as_map().dom().contains(s),
{
    let mut out: NameMap<()> = NameMap::new();
    let mut i: usize = 0;
    while i < days.len()
        invariant
            i <= days@.len(),
            out.wf(),
            forall|j: int| 0 <= j < days@.len() ==> (#[trigger] days@[j]).wf(),
            forall|j: int, s: Seq<char>|
                0 <= j < i && (#[trigger] days@[j].says(s)) is Some
                    ==> out.as_map().dom().contains(s),
        decreases days@.len() - i,
    {
        let names: &Vec<String> = &days[i].symbols.names;
        let mut k: usize = 0;
        while k < names.len()
            invariant
                i < days@.len(),
                names == &days@[i as int].symbols.names,
                k <= names@.len(),
                out.wf(),
                forall|j: int, s: Seq<char>|
                    0 <= j < i && (#[trigger] days@[j].says(s)) is Some
                        ==> out.as_map().dom().contains(s),
                forall|j: int|
                    0 <= j < k ==> out.as_map().dom().contains((#[trigger] names@[j])@),
            decreases names@.len() - k,
        {
            out.put(names[k].clone(), ());
            k = k + 1;
        }
        proof {
            assert forall|j: int, s: Seq<char>|
                0 <= j < i + 1 && (#[trigger] days@[j].says(s)) is Some implies out.as_map().dom().contains(
            s) by {
                if j == i {
                    let m = days@[i as int].symbols;
                    let p = views(m.names@).index_of(s);
                    assert(views(m.names@)[p] == s);
                    assert(names@[p]@ == s);
                }
            }
        }
        i = i + 1;
    }
    out
}

/// `e` lists the intervals of every symbol, each symbol's in their order.
pub open spec fn lists_intervals(days: Seq<Day>, e: Seq<ScdRow>) -> bool {
    forall|s: Seq<char>| #[trigger] given(e, s) == intervals(days, s)
}

/// Fold the days, in their order, into intervals.
pub fn fold_intervals(days: &Vec<Day>) -> (r: Vec<ScdRow>)
    requires
        forall|i: int| 0 <= i < days@.len() ==> (#[trigger] days@[i]).wf(),
    ensures
        exists|e: Seq<ScdRow>| #[trigger] lists_intervals(days@, e) && stable_sort_of(e, r@),
{
    let symbols: NameMap<()> = all_symbols(days);
    let mut out: Vec<ScdRow> = Vec::new();
    let mut i: usize = 0;
    proof {
        assert forall|s: Seq<char>| (#[trigger] given(out@, s)).len() == 0 by {
            reveal(Seq::filter);
        }
    }
    while i < symbols.names.len()
        invariant
            i <= symbols.names@.len(),
            symbols.wf(),
            forall|j: int| 0 <= j < days@.len() ==> (#[trigger] days@[j]).wf(),
            forall|j: int|
                0 <= j < i ==> given(out@, (#[trigger] symbols.names@[j])@) == intervals(
                    days@,
                    symbols.names@[j]@,
                ),
            forall|s: Seq<char>|
                !views(symbols.names@).take(i as int).contains(s) ==> (#[trigger] given(
                    out@,
                    s,
                )).len() == 0,
        decreases symbols.names@.len() - i,
    {
        let ghost o = out@;
        let symbol: &String = &symbols.names[i];
        proof {
            let t = views(symbols.names@).take(i as int);
            if t.contains(symbol@) {
                let j = t.index_of(symbol@);
                symbols.lemma_distinct(j, i as int);
            }
        }
        fold_symbol(days, symbol, &mut out);
        proof {
            let t = views(symbols.names@).take(i as int);
            let u = views(symbols.names@).take(i + 1);
            assert forall|j: int| 0 <= j < i + 1 implies given(
                out@,
                (#[trigger] symbols.names@[j])@,
            ) == intervals(days@, symbols.names@[j]@) by {
                if j < i {
                    symbols.lemma_distinct(j, i as int);
                    assert(given(out@, symbols.names@[j]@) == given(o, symbols.names@[j]@));
                }
            }
            assert forall|s: Seq<char>| !u.contains(s) implies (#[trigger] given(out@, s)).len()
                == 0 by {
                assert(u[i as int] == symbol@);
                assert(s != symbol@);
                if t.contains(s) {
                    let j = t.index_of(s);
                    assert(u[j] == s);
                }
                assert(given(out@, s) == given(o, s));
            }
        }
        i = i + 1;
    }
    proof {
        assert(views(symbols.names@).take(i as int) =~= views(symbols.names@));
        assert forall|s: Seq<char>| #[trigger] given(out@, s) == intervals(days@, s) by {
            if views(symbols.names@).contains(s) {
                let j = views(symbols.names@).index_of(s);
                assert(symbols.names@[j]@ == s);
            } else {
                assert forall|k: int| 0 <= k < days@.len() implies (#[trigger] days@[k]).says(
                    s,
                ) is None by {
                    if days@[k].says(s) is Some {
                        assert(symbols.as_map().dom().contains(s));
                    }
                }
                lemma_never_listed(days@, s);
                assert(given(out@, s) =~= intervals(days@, s));
            }
        }
        assert(lists_intervals(days@, out@));
    }
    stable_sort(out)
}

// ---------------------------------------------------------------------------
// What the intervals say
// ---------------------------------------------------------------------------

/// Every day comes after the ones before it.
pub open spec fn days_ascend(days: Seq<Day>) -> bool {
    forall|i: int, j: int|
        0 <= i < j < days.len() ==> (#[trigger] days[i]).stamp() < (#[trigger] days[j]).stamp()
}

/// Ended intervals follow one another, the open one follows them, and all began
/// by the last day.
pub open spec fn in_sequence(t: Track, last: u64) -> bool {
    &&& forall|a: int|
        0 <= a < t.ended.len() ==> (#[trigger] t.ended[a]).to is Some && t.ended[a].from
            < t.ended[a].to->0 && t.ended[a].to->0 <= last
    &&& forall|a: int, b: int|
        0 <= a < b < t.ended.len() ==> (#[trigger] t.ended[a]).to->0 <= (#[trigger] t.ended[b]).from
    &&& t.open matches Some(o) ==> o.to is None && o.from <= last && forall|a: int|
        0 <= a < t.ended.len() ==> (#[trigger] t.ended[a]).to->0 <= o.from
}

proof fn lemma_in_sequence(days: Seq<Day>, symbol: Seq<char>)
    requires
        days.len() > 0,
        days_ascend(days),
    ensures
        in_sequence(track(days, symbol), days.last().stamp()),
    decreases days.len(),
{
    let at = days.last().stamp();
    if days.len() > 1 {
        let d = days.drop_last();
        assert(days_ascend(d)) by {
            assert forall|i: int, j: int| 0 <= i < j < d.len() implies (#[trigger] d[i]).stamp() < (
            #[trigger] d[j]).stamp() by {
                assert(days[i].stamp() < days[j].stamp());
            }
        }
        lemma_in_sequence(d, symbol);
        assert(days[days.len() - 2].stamp() < days[days.len() - 1].stamp());
        let t = track(d, symbol);
        let n = track(days, symbol);
        assert forall|a: int| 0 <= a < n.ended.len() implies (#[trigger] n.ended[a]).to is Some
            && n.ended[a].from < n.ended[a].to->0 && n.ended[a].to->0 <= at by {
            if a < t.ended.len() {
                assert(t.ended[a].to is Some);
            }
        }
        assert forall|a: int, b: int| 0 <= a < b < n.ended.len() implies (#[trigger] n.ended[a]).to->0
            <= (#[trigger] n.ended[b]).from by {
            if b < t.ended.len() {
                assert(t.ended[a].to->0 <= t.ended[b].from);
            } else {
                assert(t.ended[a].to->0 <= t.open->0.from);
            }
        }
    } else {
        assert(track(days.drop_last(), symbol) == (Track { ended: Seq::empty(), open: None }));
    }
}

/// The intervals of a symbol do not overlap: each ends by the time the next
/// begins, and only the last can be open.
pub proof fn law_intervals_do_not_overlap(days: Seq<Day>, symbol: Seq<char>, a: int, b: int)
    requires
        days_ascend(days),
        0 <= a < b < intervals(days, symbol).len(),
    ensures
        intervals(days, symbol)[a].to is Some,
        intervals(days, symbol)[a].from < intervals(days, symbol)[a].to->0,
        intervals(days, symbol)[a].to->0 <= intervals(days, symbol)[b].from,
{
    let t = track(days, symbol);
    if days.len() > 0 {
        lemma_in_sequence(days, symbol);
        assert(intervals(days, symbol)[a] == t.ended[a]);
    }
}

/// Where one ended interval meets the next, or the open one, something changed.
pub open spec fn changes_where_met(t: Track) -> bool {
    &&& forall|a: int, b: int|
        0 <= a && b == a + 1 && b < t.ended.len() && (#[trigger] t.ended[a]).to == Some(
            (#[trigger] t.ended[b]).from,
        ) ==> !t.ended[a].snap.same_as(t.ended[b].snap)
    &&& t.open matches Some(o) ==> (t.ended.len() > 0 && t.ended.last().to == Some(o.from)
        ==> !t.ended.last().snap.same_as(o.snap))
}

proof fn lemma_changes_where_met(days: Seq<Day>, symbol: Seq<char>)
    requires
        days_ascend(days),
    ensures
        changes_where_met(track(days, symbol)),
    decreases days.len(),
{
    if days.len() > 0 {
        let d = days.drop_last();
        assert forall|i: int, j: int| 0 <= i < j < d.len() implies (#[trigger] d[i]).stamp() < (
        #[trigger] d[j]).stamp() by {
            assert(days[i].stamp() < days[j].stamp());
        }
        lemma_changes_where_met(d, symbol);
        let t = track(d, symbol);
        let n = track(days, symbol);
        if d.len() > 0 {
            lemma_in_sequence(d, symbol);
            assert(days[days.len() - 2].stamp() < days[days.len() - 1].stamp());
        }
        assert forall|a: int, b: int|
            0 <= a && b == a + 1 && b < n.ended.len() && (#[trigger] n.ended[a]).to == Some(
                (#[trigger] n.ended[b]).from,
            ) implies !n.ended[a].snap.same_as(n.ended[b].snap) by {
            if b < t.ended.len() {
                assert(n.ended[a] == t.ended[a] && n.ended[b] == t.ended[b]);
            } else {
                assert(n.ended[a] == t.ended.last());
            }
        }
        if t.open is None && t.ended.len() > 0 {
            assert(t.ended[t.ended.len() - 1].to->0 <= days[days.len() - 2].stamp());
        }
    }
}

/// Two intervals of a symbol that meet differ: an interval ends only where
/// something changed or the symbol was gone.
pub proof fn law_intervals_that_meet_differ(days: Seq<Day>, symbol: Seq<char>, a: int)
    requires
        days_ascend(days),
        0 <= a,
        a + 1 < intervals(days, symbol).len(),
        intervals(days, symbol)[a].to == Some(intervals(days, symbol)[a + 1].from),
    ensures
        !intervals(days, symbol)[a].snap.same_as(intervals(days, symbol)[a + 1].snap),
{
    let t = track(days, symbol);
    lemma_changes_where_met(days, symbol);
    if a + 1 < t.ended.len() {
        assert(intervals(days, symbol)[a] == t.ended[a]);
        assert(intervals(days, symbol)[a + 1] == t.ended[a + 1]);
    } else {
        assert(intervals(days, symbol)[a] == t.ended.last());
    }
}

/// The interval says of the symbol what the day said.
pub open spec fn tells(iv: Interval, snap: Snapshot) -> bool {
    iv.snap == snap || iv.snap.same_as(snap)
}

/// At the midnight of every day, the interval that covers it says what that
/// day's dump said of the symbol; where the dump did not list it, none covers
/// it.
pub proof fn law_point_in_time(days: Seq<Day>, symbol: Seq<char>, i: int)
    requires
        days_ascend(days),
        0 <= i < days.len(),
    ensures
        match days[i].says(symbol) {
            Some(snap) => exists|a: int|
                0 <= a < intervals(days, symbol).len() && (#[trigger] intervals(
                    days,
                    symbol,
                )[a]).covers(days[i].stamp()) && tells(intervals(days, symbol)[a], snap),
            None => forall|a: int|
                0 <= a < intervals(days, symbol).len() ==> !(#[trigger] intervals(
                    days,
                    symbol,
                )[a]).covers(days[i].stamp()),
        },
    decreases days.len(),
{
    let d = days.drop_last();
    let at = days.last().stamp();
    let stamp = days[i].stamp();
    let t = track(d, symbol);
    let n = track(days, symbol);
    let old_iv = intervals(d, symbol);
    let new_iv = intervals(days, symbol);
    assert(days_ascend(d)) by {
        assert forall|x: int, y: int| 0 <= x < y < d.len() implies (#[trigger] d[x]).stamp() < (
        #[trigger] d[y]).stamp() by {
            assert(days[x].stamp() < days[y].stamp());
        }
    }
    if d.len() > 0 {
        lemma_in_sequence(d, symbol);
        assert(days[days.len() - 2].stamp() < at);
    }
    if i < days.len() - 1 {
        assert(d[i] == days[i]);
        assert(days[i].stamp() < days[days.len() - 1].stamp());
        law_point_in_time(d, symbol, i);
        match days[i].says(symbol) {
            Some(snap) => {
                let a = choose|a: int|
                    0 <= a < old_iv.len() && (#[trigger] old_iv[a]).covers(stamp) && tells(
                        old_iv[a],
                        snap,
                    );
                if a < t.ended.len() {
                    assert(new_iv[a] == old_iv[a]);
                } else {
                    assert(old_iv[a] == t.open->0);
                    assert(new_iv[a].covers(stamp));
                }
                assert(new_iv[a].covers(stamp) && tells(new_iv[a], snap));
            },
            None => {
                assert forall|a: int| 0 <= a < new_iv.len() implies !(#[trigger] new_iv[a]).covers(
                    stamp,
                ) by {
                    if a < t.ended.len() {
                        assert(new_iv[a] == old_iv[a]);
                        assert(!old_iv[a].covers(stamp));
                    } else if a < old_iv.len() {
                        assert(!old_iv[a].covers(stamp));
                        assert(old_iv[a] == t.open->0);
                    }
                }
            },
        }
    } else {
        assert(stamp == at);
        if d.len() == 0 {
            assert(t == (Track { ended: Seq::empty(), open: None }));
        }
        match days[i].says(symbol) {
            Some(snap) => {
                let a = new_iv.len() - 1;
                assert(new_iv[a] == n.open->0);
                assert(new_iv[a].covers(stamp) && tells(new_iv[a], snap));
            },
            None => {
                assert forall|a: int| 0 <= a < new_iv.len() implies !(#[trigger] new_iv[a]).covers(
                    stamp,
                ) by {
                    if a < t.ended.len() {
                        assert(new_iv[a] == t.ended[a]);
                    }
                }
            },
        }
    }
}

// ---------------------------------------------------------------------------
// Dated dumps
// ---------------------------------------------------------------------------

/// A dump with the date in its name.
#[derive(Debug)]
pub struct DatedDump {
    pub date: Date,
    pub name: String,
}

impl Clone for DatedDump {
    fn clone(&self) -> (r: Self)
        ensures
            r == *self,
    {
        DatedDump { date: self.date, name: self.name.clone() }
    }
}

/// Dumps are ordered by date, then by name.
impl Ranked for DatedDump {
    open spec fn rank_le(a: Self, b: Self) -> bool {
        a.date.precedes(b.date) || (a.date == b.date && !lex_lt(b.name@, a.name@))
    }

    proof fn rank_total(a: Self, b: Self) {
        law_lex_total(a.name@, b.name@);
    }

    proof fn rank_transitive(a: Self, b: Self, c: Self) {
        law_lex_total(a.name@, b.name@);
        law_lex_total(b.name@, c.name@);
        law_lex_total(a.name@, c.name@);
        if lex_lt(a.name@, b.name@) && lex_lt(b.name@, c.name@) {
            law_lex_transitive(a.name@, b.name@, c.name@);
        }
    }

    fn not_after(&self, other: &Self) -> (r: bool) {
        self.date.before(&other.date) || (self.date == other.date && !before(
            other.name.as_str(),
            self.name.as_str(),
        ))
    }
}

/// The date in front of the suffix of a name, if the name is of that form.
pub open spec fn dated_as(name: Seq<char>, suffix: Seq<char>) -> Option<Date> {
    if ends_in(name, suffix) {
        match as_date(iso_date(name.take(name.len() - suffix.len()))) {
            Ok(d) => Some(d),
            Err(_) => None,
        }
    } else {
        None
    }
}

/// The names that are dated, in order.
pub open spec fn dated_names(names: Seq<String>, suffix: Seq<char>) -> Seq<String> {
    names.filter(|n: String| dated_as(n@, suffix) is Some)
}

/// `e` lists the dated names with their dates.
pub open spec fn lists_dumps(names: Seq<String>, suffix: Seq<char>, e: Seq<DatedDump>) -> bool {
    &&& e.len() == dated_names(names, suffix).len()
    &&& forall|i: int|
        0 <= i < e.len() ==> (#[trigger] e[i]).name == dated_names(names, suffix)[i] && dated_as(
            e[i].name@,
            suffix,
        ) == Some(e[i].date)
}

/// The dated dumps among the names, earliest first.
pub fn dated_dumps(names: &Vec<String>, suffix: &str) -> (r: Vec<DatedDump>)
    ensures
        exists|e: Seq<DatedDump>| #[trigger]
            lists_dumps(names@, suffix@, e) && stable_sort_of(e, r@),
        forall|i: int| 0 <= i < r@.len() ==> (#[trigger] r@[i]).date.wf(),
{
    let mut out: Vec<DatedDump> = Vec::new();
    let mut i: usize = 0;
    proof {
        reveal(Seq::filter);
    }
    while i < names.len()
        invariant
            i <= names@.len(),
            lists_dumps(names@.take(i as int), suffix@, out@),
            forall|j: int| 0 <= j < out@.len() ==> (#[trigger] out@[j]).date.wf(),
        decreases names@.len() - i,
    {
        proof {
            reveal(Seq::filter);
            let t = names@.take(i + 1);
            assert(t.drop_last() =~= names@.take(i as int));
            assert(t.last() == names@[i as int]);
        }
        if let Some(head) = strip_tail(names[i].as_str(), suffix) {
            if let Ok(date) = Date::parse_iso(head.as_str()) {
                out.push(DatedDump { date, name: names[i].clone() });
            }
        }
        i = i + 1;
    }
    assert(names@.take(names@.len() as int) =~= names@);
    let ghost e = out@;
    let sorted: Vec<DatedDump> = stable_sort(out);
    proof {
        assert(lists_dumps(names@, suffix@, e) && stable_sort_of(e, sorted@));
        assert forall|j: int| 0 <= j < sorted@.len() implies (#[trigger] sorted@[j]).date.wf() by {
            broadcast use vstd::seq_lib::group_to_multiset_ensures;

            assert(sorted@.to_multiset().count(sorted@[j]) > 0);
            assert(e.contains(sorted@[j]));
        }
    }
    sorted
}

/// The last dump of a date.
pub open spec fn dump_of(dumps: Seq<DatedDump>, date: Date) -> Option<DatedDump>
    decreases dumps.len(),
{
    if dumps.len() == 0 {
        None
    } else if dumps.last().date == date {
        Some(dumps.last())
    } else {
        dump_of(dumps.drop_last(), date)
    }
}

/// What one day of the fold is read from. Without a funding dump of its own the
/// day carries the funding intervals of the day before.
#[derive(Debug)]
pub struct DayInput {
    pub date: Date,
    pub exchange_info: String,
    pub funding_info: Option<String>,
}

fn find_dump(dumps: &Vec<DatedDump>, date: &Date) -> (r: Option<String>)
    ensures
        match dump_of(dumps@, *date) {
            Some(d) => r == Some(d.name),
            None => r is None,
        },
{
    let mut i: usize = dumps.len();
    assert(dumps@.take(dumps@.len() as int) =~= dumps@);
    while i > 0
        invariant
            i <= dumps@.len(),
            dump_of(dumps@, *date) == dump_of(dumps@.take(i as int), *date),
        decreases i,
    {
        i = i - 1;
        proof {
            assert(dumps@.take(i + 1).drop_last() =~= dumps@.take(i as int));
            assert(dumps@.take(i + 1).last() == dumps@[i as int]);
        }
        if dumps[i].date == *date {
            return Some(dumps[i].name.clone());
        }
    }
    None
}

/// What the days of the fold are read from, earliest first.
pub fn plan_fold(exchange: &Vec<DatedDump>, funding: &Vec<DatedDump>) -> (r: Result<
    Vec<DayInput>,
    SymbologyError,
>)
    ensures
        match r {
            Ok(days) => exchange@.len() > 0 && days@.len() == exchange@.len() && forall|i: int|
                0 <= i < days@.len() ==> (#[trigger] days@[i]).date == exchange@[i].date
                    && days@[i].exchange_info == exchange@[i].name && days@[i].funding_info == (
                match dump_of(funding@, exchange@[i].date) {
                    Some(d) => Some(d.name),
                    None => None,
                }),
            Err(e) => exchange@.len() == 0 && (e matches SymbologyError::Invalid(t) && t@
                == "no exchangeInfo dumps under data/meta/binance — nothing to fold"@),
        },
{
    if exchange.len() == 0 {
        return Err(
            SymbologyError::Invalid(
                "no exchangeInfo dumps under data/meta/binance — nothing to fold".to_owned(),
            ),
        );
    }
    let mut out: Vec<DayInput> = Vec::new();
    let mut i: usize = 0;
    while i < exchange.len()
        invariant
            i <= exchange@.len(),
            out@.len() == i,
            forall|j: int|
                0 <= j < i ==> (#[trigger] out@[j]).date == exchange@[j].date
                    && out@[j].exchange_info == exchange@[j].name && out@[j].funding_info == (
                match dump_of(funding@, exchange@[j].date) {
                    Some(d) => Some(d.name),
                    None => None,
                }),
        decreases exchange@.len() - i,
    {
        out.push(
            DayInput {
                date: exchange[i].date,
                exchange_info: exchange[i].name.clone(),
                funding_info: find_dump(funding, &exchange[i].date),
            },
        );
        i = i + 1;
    }
    Ok(out)
}

/// What was read for one day of the fold.
pub struct DayRead {
    pub date: Date,
    /// The day's own funding intervals, where there is a dump of them.
    pub funding: Option<NameMap<u64>>,
    /// The day's listing; absent where the dump could not be read. One corrupt
    /// dump must not sink the whole fold: its day is left out.
    pub symbols: Option<Vec<ListedSymbol>>,
}

impl DayRead {
    pub open spec fn wf(self) -> bool {
        self.date.wf() && (self.funding matches Some(f) ==> f.wf())
    }
}

/// The funding intervals that hold on the last of the days: its own, else those
/// of the day before.
pub open spec fn funding_at(reads: Seq<DayRead>) -> Map<Seq<char>, u64>
    decreases reads.len(),
{
    if reads.len() == 0 {
        Map::empty()
    } else {
        match reads.last().funding {
            Some(f) => f.as_map(),
            None => funding_at(reads.drop_last()),
        }
    }
}

/// `days` holds the snapshots of the days whose listing was read, in order.
pub open spec fn days_read(reads: Seq<DayRead>, days: Seq<Day>) -> bool
    decreases reads.len(),
{
    if reads.len() == 0 {
        days.len() == 0
    } else {
        match reads.last().symbols {
            Some(symbols) => {
                &&& days.len() > 0
                &&& days_read(reads.drop_last(), days.drop_last())
                &&& days.last().date == reads.last().date
                &&& snapshots_of(symbols@, funding_at(reads), days.last().symbols.as_map())
            },
            None => days_read(reads.drop_last(), days),
        }
    }
}

/// The snapshots of the days that could be read.
pub fn read_days(reads: &Vec<DayRead>) -> (r: Vec<Day>)
    requires
        forall|i: int| 0 <= i < reads@.len() ==> (#[trigger] reads@[i]).wf(),
    ensures
        days_read(reads@, r@),
        forall|i: int| 0 <= i < r@.len() ==> (#[trigger] r@[i]).wf(),
{
    let none: NameMap<u64> = NameMap::new();
    let mut funding: &NameMap<u64> = &none;
    let mut days: Vec<Day> = Vec::new();
    let mut i: usize = 0;
    while i < reads.len()
        invariant
            i <= reads@.len(),
            forall|j: int| 0 <= j < reads@.len() ==> (#[trigger] reads@[j]).wf(),
            funding.wf(),
            funding.as_map() == funding_at(reads@.take(i as int)),
            days_read(reads@.take(i as int), days@),
            forall|j: int| 0 <= j < days@.len() ==> (#[trigger] days@[j]).wf(),
        decreases reads@.len() - i,
    {
        let ghost held = days@;
        proof {
            let t = reads@.take(i + 1);
            assert(t.drop_last() =~= reads@.take(i as int));
            assert(t.last() == reads@[i as int]);
        }
        assert(reads@[i as int].wf());
        if let Some(f) = &reads[i].funding {
            funding = f;
        }
        if let Some(symbols) = &reads[i].symbols {
            days.push(Day { date: reads[i].date, symbols: day_snapshots(symbols, funding) });
            assert(days@.drop_last() =~= held);
        }
        i = i + 1;
    }
    assert(reads@.take(reads@.len() as int) =~= reads@);
    days
}

#[derive(Debug)]
pub struct ScdSummary {
    pub days: usize,
    pub rows: usize,
    pub path: String,
}

/// The summary of a fold whose rows go to `out_dir`.
pub fn summarize(days: &Vec<Day>, rows: &Vec<ScdRow>, out_dir: &str) -> (r: ScdSummary)
    ensures
        r.days == days@.len(),
        r.rows == rows@.len(),
        r.path@ == path_join(out_dir@, SCD_FILE@),
{
    ScdSummary { days: days.len(), rows: rows.len(), path: join(out_dir, SCD_FILE) }
}

} // verus!
