//! What the history of instruments is for: what it answers of a day.
use super::scd::{
    dated_as, dated_names, days_ascend, days_read, dump_of, funding_at, given, intervals, law_intervals_do_not_overlap,
    law_intervals_that_meet_differ, law_point_in_time, lemma_given_push, lemma_nothing_given, listed_as, lists_dumps, lists_intervals, snapshot_of,
    snapshots_of, tells, DatedDump, Day, DayRead, ListedSymbol, ScdRow, Size, Snapshot,
};
use crate::calendar::{as_date, iso_date, Date};
use crate::order::stable_sort_of;
use crate::text::{law_lex_total, lex_lt, lowercase};
use vstd::prelude::*;

verus! {

/// The number a pattern stands for, of which there is one for zero.
pub open spec fn plain(bits: u64) -> u64 {
    if bits == 0x8000_0000_0000_0000 {
        0
    } else {
        bits
    }
}

/// The two sizes are the same number, or absent alike.
pub open spec fn sizes_agree(a: Option<Size>, b: Option<Size>) -> bool {
    &&& (a is Some <==> b is Some)
    &&& (a matches Some(Size::Bits(x)) ==> (b matches Some(Size::Bits(y)) && plain(x) == plain(y)))
    &&& (a matches Some(Size::NotANumber) ==> b == Some(Size::NotANumber))
}

/// The two snapshots give the same answer to every question.
pub open spec fn answers_agree(a: Snapshot, b: Snapshot) -> bool {
    &&& a.status@ == b.status@
    &&& a.lifecycle@ == b.lifecycle@
    &&& a.class@ == b.class@
    &&& a.base@ == b.base@
    &&& a.quote@ == b.quote@
    &&& (a.settle is Some <==> b.settle is Some)
    &&& (a.settle is Some ==> a.settle->0@ == b.settle->0@)
    &&& sizes_agree(a.tick_size, b.tick_size)
    &&& sizes_agree(a.lot_size, b.lot_size)
    &&& sizes_agree(a.min_notional, b.min_notional)
    &&& a.funding_interval_ns == b.funding_interval_ns
    &&& a.onboard_ms == b.onboard_ms
}

/// All sizes of a snapshot that are there are numbers.
pub open spec fn all_numbers(a: Snapshot) -> bool {
    &&& a.tick_size != Some(Size::NotANumber)
    &&& a.lot_size != Some(Size::NotANumber)
    &&& a.min_notional != Some(Size::NotANumber)
}

/// The row is valid at an instant: from its beginning up to its end, if it has
/// one, which is excluded.
pub open spec fn valid_at(r: ScdRow, t: u64) -> bool {
    r.valid_from <= t && (r.valid_to is None || t < r.valid_to->0)
}

/// The midnights of the days follow one another.
pub open spec fn midnights_ascend(days: Seq<Day>) -> bool {
    forall|i: int, j: int|
        0 <= i < j < days.len() ==> (#[trigger] days[i]).date.start_ns() < (
        #[trigger] days[j]).date.start_ns()
}

/// Position `a` among the rows of a symbol is one of its rows.
proof fn lemma_given_row(e: Seq<ScdRow>, symbol: Seq<char>, a: int) -> (k: int)
    requires
        0 <= a < given(e, symbol).len(),
    ensures
        0 <= k < e.len(),
        e[k].symbol@ == symbol,
        e[k].valid_from == given(e, symbol)[a].from,
        e[k].valid_to == given(e, symbol)[a].to,
        e[k].snap == given(e, symbol)[a].snap,
    decreases e.len(),
{
    if e.len() == 0 {
        lemma_nothing_given(symbol);
        assert(e =~= Seq::empty());
        0
    } else {
        let p = e.drop_last();
        assert(p.push(e.last()) =~= e);
        lemma_given_push(p, e.last(), symbol);
        if a < given(p, symbol).len() {
            lemma_given_row(p, symbol, a)
        } else {
            e.len() - 1
        }
    }
}

/// A row of a symbol is at some position among them.
proof fn lemma_row_given(e: Seq<ScdRow>, symbol: Seq<char>, k: int) -> (a: int)
    requires
        0 <= k < e.len(),
        e[k].symbol@ == symbol,
    ensures
        0 <= a < given(e, symbol).len(),
        e[k].valid_from == given(e, symbol)[a].from,
        e[k].valid_to == given(e, symbol)[a].to,
        e[k].snap == given(e, symbol)[a].snap,
    decreases e.len(),
{
    let p = e.drop_last();
    assert(p.push(e.last()) =~= e);
    lemma_given_push(p, e.last(), symbol);
    if k < p.len() {
        assert(p[k] == e[k]);
        lemma_row_given(p, symbol, k)
    } else {
        given(e, symbol).len() - 1
    }
}

/// The rows of a fold have what was folded, and nothing else.
proof fn lemma_sorted_has(e: Seq<ScdRow>, rows: Seq<ScdRow>, k: int)
    requires
        stable_sort_of(e, rows),
    ensures
        0 <= k < e.len() ==> rows.contains(e[k]),
        0 <= k < rows.len() ==> e.contains(rows[k]),
{
    broadcast use vstd::seq_lib::group_to_multiset_ensures;

    if 0 <= k < e.len() {
        assert(e.to_multiset().count(e[k]) > 0);
    }
    if 0 <= k < rows.len() {
        assert(rows.to_multiset().count(rows[k]) > 0);
    }
}

/// The history answers every day as that day's dump did. At the midnight of a day
/// whose dump lists a symbol, a row of the symbol is valid that gives the dump's
/// answer to every question: status, class, assets, tick size, lot size, smallest
/// notional, funding interval, onboarding. Where the dump does not list it, no row
/// of the symbol is valid.
pub proof fn law_history_answers_every_day(
    days: Seq<Day>,
    e: Seq<ScdRow>,
    rows: Seq<ScdRow>,
    symbol: Seq<char>,
    i: int,
)
    requires
        midnights_ascend(days),
        lists_intervals(days, e),
        stable_sort_of(e, rows),
        0 <= i < days.len(),
    ensures
        days[i].symbols.as_map().dom().contains(symbol) ==> exists|k: int|
            0 <= k < rows.len() && (#[trigger] rows[k]).symbol@ == symbol && valid_at(
                rows[k],
                days[i].date.start_ns(),
            ) && answers_agree(rows[k].snap, days[i].symbols.as_map()[symbol]),
        !days[i].symbols.as_map().dom().contains(symbol) ==> forall|k: int|
            0 <= k < rows.len() && (#[trigger] rows[k]).symbol@ == symbol ==> !valid_at(
                rows[k],
                days[i].date.start_ns(),
            ),
{
    let t = days[i].date.start_ns();
    assert(days_ascend(days)) by {
        assert forall|x: int, y: int| 0 <= x < y < days.len() implies (#[trigger] days[x]).stamp()
            < (#[trigger] days[y]).stamp() by {
            assert(days[x].date.start_ns() < days[y].date.start_ns());
        }
    }
    law_point_in_time(days, symbol, i);
    let iv = intervals(days, symbol);
    assert(given(e, symbol) == iv);
    if days[i].symbols.as_map().dom().contains(symbol) {
        let a = choose|a: int|
            0 <= a < iv.len() && (#[trigger] iv[a]).covers(days[i].stamp())
                && tells(iv[a], days[i].symbols.as_map()[symbol]);
        let k = lemma_given_row(e, symbol, a);
        lemma_sorted_has(e, rows, k);
        let l = rows.index_of(e[k]);
        assert(rows[l] == e[k]);
        assert(valid_at(rows[l], t) && answers_agree(
            rows[l].snap,
            days[i].symbols.as_map()[symbol],
        ));
    } else {
        assert forall|k: int|
            0 <= k < rows.len() && (#[trigger] rows[k]).symbol@ == symbol implies !valid_at(
            rows[k],
            t,
        ) by {
            lemma_sorted_has(e, rows, k);
            let l = e.index_of(rows[k]);
            let a = lemma_row_given(e, symbol, l);
            assert(!iv[a].covers(days[i].stamp()));
        }
    }
}

/// The history has one answer: two rows of a symbol that are valid at the same
/// instant say the same and begin and end together.
pub proof fn law_history_has_one_answer(
    days: Seq<Day>,
    e: Seq<ScdRow>,
    rows: Seq<ScdRow>,
    t: u64,
    k: int,
    l: int,
)
    requires
        midnights_ascend(days),
        lists_intervals(days, e),
        stable_sort_of(e, rows),
        0 <= k < rows.len(),
        0 <= l < rows.len(),
        rows[k].symbol@ == rows[l].symbol@,
        valid_at(rows[k], t),
        valid_at(rows[l], t),
    ensures
        rows[k].valid_from == rows[l].valid_from,
        rows[k].valid_to == rows[l].valid_to,
        rows[k].snap == rows[l].snap,
{
    let symbol = rows[k].symbol@;
    assert(days_ascend(days)) by {
        assert forall|x: int, y: int| 0 <= x < y < days.len() implies (#[trigger] days[x]).stamp()
            < (#[trigger] days[y]).stamp() by {
            assert(days[x].date.start_ns() < days[y].date.start_ns());
        }
    }
    assert(given(e, symbol) == intervals(days, symbol));
    lemma_sorted_has(e, rows, k);
    lemma_sorted_has(e, rows, l);
    let a = lemma_row_given(e, symbol, e.index_of(rows[k]));
    let b = lemma_row_given(e, symbol, e.index_of(rows[l]));
    if a < b {
        law_intervals_do_not_overlap(days, symbol, a, b);
    } else if b < a {
        law_intervals_do_not_overlap(days, symbol, b, a);
    }
}

/// A row ends only where an answer changes: of two intervals of a symbol that meet
/// and whose sizes are numbers, some answer differs.
pub proof fn law_rows_end_where_an_answer_changes(days: Seq<Day>, symbol: Seq<char>, a: int)
    requires
        midnights_ascend(days),
        0 <= a,
        a + 1 < intervals(days, symbol).len(),
        intervals(days, symbol)[a].to == Some(intervals(days, symbol)[a + 1].from),
        all_numbers(intervals(days, symbol)[a].snap),
    ensures
        !answers_agree(intervals(days, symbol)[a].snap, intervals(days, symbol)[a + 1].snap),
{
    assert(days_ascend(days)) by {
        assert forall|x: int, y: int| 0 <= x < y < days.len() implies (#[trigger] days[x]).stamp()
            < (#[trigger] days[y]).stamp() by {
            assert(days[x].date.start_ns() < days[y].date.start_ns());
        }
    }
    law_intervals_that_meet_differ(days, symbol, a);
}

/// Rows come by symbol, and those of a symbol as they begin.
pub proof fn law_rows_are_in_order(e: Seq<ScdRow>, rows: Seq<ScdRow>, k: int, l: int)
    requires
        stable_sort_of(e, rows),
        0 <= k < l < rows.len(),
    ensures
        rows[k].symbol@ == rows[l].symbol@ ==> rows[k].valid_from <= rows[l].valid_from,
        rows[k].symbol@ != rows[l].symbol@ ==> lex_lt(rows[k].symbol@, rows[l].symbol@),
{
    law_lex_total(rows[k].symbol@, rows[l].symbol@);
}

/// Every row begins at the midnight of a day whose dump lists its symbol, with the
/// very answers of that dump; and where it ends, it ends at the midnight of a
/// later day.
pub proof fn law_rows_begin_with_a_dump(days: Seq<Day>, symbol: Seq<char>, a: int)
    requires
        0 <= a < intervals(days, symbol).len(),
    ensures
        exists|i: int|
            0 <= i < days.len() && (#[trigger] days[i]).date.start_ns() == intervals(
                days,
                symbol,
            )[a].from && days[i].symbols.as_map().dom().contains(symbol)
                && days[i].symbols.as_map()[symbol] == intervals(days, symbol)[a].snap,
        intervals(days, symbol)[a].to matches Some(to) ==> exists|i: int|
            0 <= i < days.len() && (#[trigger] days[i]).date.start_ns() == to,
    decreases days.len(),
{
    if days.len() > 0 {
        let d = days.drop_last();
        let n = days.len() - 1;
        let iv = intervals(days, symbol);
        let was = intervals(d, symbol);
        assert(days[n] == days.last());
        if a < was.len() && (iv[a].snap == was[a].snap && iv[a].from == was[a].from) {
            law_rows_begin_with_a_dump(d, symbol, a);
            let i = choose|i: int|
                0 <= i < d.len() && (#[trigger] d[i]).date.start_ns() == was[a].from
                    && d[i].symbols.as_map().dom().contains(symbol)
                    && d[i].symbols.as_map()[symbol] == was[a].snap;
            assert(days[i] == d[i]);
            if iv[a].to is Some {
                if was[a].to is Some {
                    let j = choose|j: int|
                        0 <= j < d.len() && (#[trigger] d[j]).date.start_ns() == was[a].to->0;
                    assert(days[j] == d[j]);
                } else {
                    assert(days[n].date.start_ns() == iv[a].to->0);
                }
            }
        } else {
            assert(days[n].date.start_ns() == iv[a].from);
        }
    }
}

// ---------------------------------------------------------------------------
// Dumps
// ---------------------------------------------------------------------------

/// The snapshot of a listed symbol tells what the listing says of it.
pub proof fn law_snapshot_tells_the_listing(
    s: ListedSymbol,
    funding: Map<Seq<char>, u64>,
    r: Snapshot,
)
    requires
        snapshot_of(s, funding, r),
    ensures
        r.status@ == s.status@,
        r.base@ == s.base_asset@,
        r.quote@ == s.quote_asset@,
        r.settle is Some <==> s.margin_asset is Some,
        r.settle is Some ==> r.settle->0@ == s.margin_asset->0@,
        r.tick_size == s.tick_size,
        r.lot_size == s.lot_size,
        r.min_notional == s.min_notional,
        r.onboard_ms == s.onboard_date,
        s.contract_type@ == "PERPETUAL"@ ==> r.class@ == "perp"@,
        s.contract_type@ != "PERPETUAL"@ ==> r.class@ == "future"@ && r.funding_interval_ns is None,
        s.contract_type@ == "PERPETUAL"@ && funding.dom().contains(s.symbol@)
            ==> r.funding_interval_ns == Some(funding[s.symbol@]),
        s.contract_type@ == "PERPETUAL"@ && !funding.dom().contains(s.symbol@)
            ==> r.funding_interval_ns == Some((8 * 3_600 * 1_000_000_000) as u64),
        r.lifecycle@ == "trading"@ <==> s.status@ == "TRADING"@,
        r.lifecycle@ == "pending_trading"@ <==> s.status@ == "PENDING_TRADING"@,
        r.lifecycle@ == "delisted"@ <==> s.status@ == "DELIVERED"@ || s.status@ == "CLOSE"@,
        r.lifecycle@ == "halted"@ <==> s.status@ != "TRADING"@ && s.status@ != "PENDING_TRADING"@
            && s.status@ != "DELIVERED"@ && s.status@ != "CLOSE"@,
{
    reveal_strlit("trading");
    reveal_strlit("pending_trading");
    reveal_strlit("delisted");
    reveal_strlit("halted");
    reveal_strlit("TRADING");
    reveal_strlit("PENDING_TRADING");
    reveal_strlit("DELIVERED");
    reveal_strlit("CLOSE");
    assert("trading"@.len() == 7 && "pending_trading"@.len() == 15 && "delisted"@.len() == 8
        && "halted"@.len() == 6);
    assert("TRADING"@.len() == 7 && "PENDING_TRADING"@.len() == 15 && "DELIVERED"@.len() == 9
        && "CLOSE"@.len() == 5);
}

/// The snapshots of a day are those of the symbols its dump lists, by their names
/// in lower case; of two under one name the later counts.
pub proof fn law_day_holds_the_last_listing(
    symbols: Seq<ListedSymbol>,
    funding: Map<Seq<char>, u64>,
    m: Map<Seq<char>, Snapshot>,
    key: Seq<char>,
    i: int,
)
    requires
        snapshots_of(symbols, funding, m),
    ensures
        0 <= i < symbols.len() && lowercase(symbols[i].symbol@) == key && (forall|k: int|
            i < k < symbols.len() ==> lowercase((#[trigger] symbols[k]).symbol@) != key)
            ==> m.dom().contains(key) && snapshot_of(symbols[i], funding, m[key]),
        (forall|k: int|
            0 <= k < symbols.len() ==> lowercase((#[trigger] symbols[k]).symbol@) != key)
            ==> !m.dom().contains(key),
{
    lemma_listed_last(symbols, key, i);
    assert(m.dom().contains(key) || !m.dom().contains(key));
}

proof fn lemma_listed_last(symbols: Seq<ListedSymbol>, key: Seq<char>, i: int)
    ensures
        0 <= i < symbols.len() && lowercase(symbols[i].symbol@) == key && (forall|k: int|
            i < k < symbols.len() ==> lowercase((#[trigger] symbols[k]).symbol@) != key)
            ==> listed_as(symbols, key) == Some(symbols[i]),
        (forall|k: int|
            0 <= k < symbols.len() ==> lowercase((#[trigger] symbols[k]).symbol@) != key)
            ==> listed_as(symbols, key) is None,
    decreases symbols.len(),
{
    if symbols.len() > 0 {
        let p = symbols.drop_last();
        let n = symbols.len() - 1;
        lemma_listed_last(p, key, i);
        assert(forall|k: int| 0 <= k < n ==> #[trigger] p[k] == symbols[k]);
        assert(symbols.last() == symbols[n]);
    }
}

/// Funding intervals carry on: those that hold on a day are those of the last dump
/// of them up to it, and none before the first.
pub proof fn law_funding_carries_on(reads: Seq<DayRead>, i: int)
    ensures
        0 <= i < reads.len() && reads[i].funding is Some && (forall|k: int|
            i < k < reads.len() ==> (#[trigger] reads[k]).funding is None) ==> funding_at(reads)
            == reads[i].funding->0.as_map(),
        (forall|k: int| 0 <= k < reads.len() ==> (#[trigger] reads[k]).funding is None)
            ==> funding_at(reads) == Map::<Seq<char>, u64>::empty(),
    decreases reads.len(),
{
    if reads.len() > 0 {
        let p = reads.drop_last();
        let n = reads.len() - 1;
        law_funding_carries_on(p, i);
        assert(forall|k: int| 0 <= k < n ==> #[trigger] p[k] == reads[k]);
        assert(reads.last() == reads[n]);
    }
}

/// The day at `j` was read from the dumps at `i`.
pub open spec fn read_from(reads: Seq<DayRead>, days: Seq<Day>, i: int, j: int) -> bool {
    &&& 0 <= j < days.len()
    &&& days[j].date == reads[i].date
    &&& snapshots_of(
        reads[i].symbols->0@,
        funding_at(reads.take(i + 1)),
        days[j].symbols.as_map(),
    )
}

/// Every dump that could be read is a day of the fold, with the funding that held
/// on it, and a dump that could not be read is none: there are as many days as
/// readable dumps, in their order.
pub proof fn law_readable_dumps_are_days(reads: Seq<DayRead>, days: Seq<Day>)
    requires
        days_read(reads, days),
    ensures
        days.len() == reads.filter(|r: DayRead| r.symbols is Some).len(),
        forall|i: int|
            0 <= i < reads.len() && (#[trigger] reads[i]).symbols is Some ==> read_from(
                reads,
                days,
                i,
                reads.take(i).filter(|r: DayRead| r.symbols is Some).len() as int,
            ),
    decreases reads.len(),
{
    reveal(Seq::filter);
    let there = |r: DayRead| r.symbols is Some;
    if reads.len() > 0 {
        let p = reads.drop_last();
        let n = reads.len() - 1;
        let q = if reads.last().symbols is Some {
            days.drop_last()
        } else {
            days
        };
        law_readable_dumps_are_days(p, q);
        assert forall|i: int| 0 <= i < reads.len() && (#[trigger] reads[i]).symbols is Some implies
            read_from(reads, days, i, reads.take(i).filter(there).len() as int) by {
            if i < n {
                assert(p[i] == reads[i]);
                assert(p.take(i) =~= reads.take(i));
                assert(p.take(i + 1) =~= reads.take(i + 1));
                assert(read_from(p, q, i, p.take(i).filter(there).len() as int));
            } else {
                assert(reads.take(i) =~= p);
                assert(reads.take(i + 1) =~= reads);
            }
        }
    }
}

/// The dump of a date is the last one with that date, if there is one.
pub proof fn law_last_dump_of_a_date(dumps: Seq<DatedDump>, date: Date, i: int)
    ensures
        0 <= i < dumps.len() && dumps[i].date == date && (forall|k: int|
            i < k < dumps.len() ==> (#[trigger] dumps[k]).date != date) ==> dump_of(dumps, date)
            == Some(dumps[i]),
        (forall|k: int| 0 <= k < dumps.len() ==> (#[trigger] dumps[k]).date != date) ==> dump_of(
            dumps,
            date,
        ) is None,
    decreases dumps.len(),
{
    if dumps.len() > 0 {
        let p = dumps.drop_last();
        let n = dumps.len() - 1;
        law_last_dump_of_a_date(p, date, i);
        assert(forall|k: int| 0 <= k < n ==> #[trigger] p[k] == dumps[k]);
        assert(dumps.last() == dumps[n]);
    }
}

proof fn lemma_push_contains<T>(s: Seq<T>, y: T, x: T)
    ensures
        s.push(y).contains(x) <==> s.contains(x) || x == y,
{
    if s.contains(x) {
        let i = choose|i: int| 0 <= i < s.len() && s[i] == x;
        assert(s.push(y)[i] == x);
    }
    assert(s.push(y)[s.len() as int] == y);
    if s.push(y).contains(x) && x != y {
        let i = choose|i: int| 0 <= i < s.push(y).len() && s.push(y)[i] == x;
        assert(s[i] == x);
    }
}

proof fn lemma_dated_names(names: Seq<String>, suffix: Seq<char>, n: String)
    ensures
        dated_names(names, suffix).contains(n) <==> names.contains(n) && dated_as(
            n@,
            suffix,
        ) is Some,
    decreases names.len(),
{
    reveal(Seq::filter);
    if names.len() > 0 {
        let front = names.drop_last();
        let last = names.last();
        lemma_dated_names(front, suffix, n);
        assert(names =~= front.push(last));
        lemma_push_contains(front, last, n);
        lemma_push_contains(dated_names(front, suffix), last, n);
        if dated_as(last@, suffix) is Some {
            assert(dated_names(names, suffix) =~= dated_names(front, suffix).push(last));
        } else {
            assert(dated_names(names, suffix) =~= dated_names(front, suffix));
        }
    } else {
        assert(dated_names(names, suffix).len() == 0);
    }
}

/// A dump of that name is listed under the date in front of the suffix.
pub open spec fn listed_under_its_date(
    dumps: Seq<DatedDump>,
    name: String,
    suffix: Seq<char>,
) -> bool {
    exists|i: int|
        0 <= i < dumps.len() && (#[trigger] dumps[i]).name == name && dated_as(name@, suffix)
            == Some(dumps[i].date)
}

/// A name is a dump's where a date stands in front of the suffix, and it is of
/// that date; no other name is.
pub proof fn law_dumps_are_named_by_their_date(name: Seq<char>, day: Seq<char>, suffix: Seq<char>)
    ensures
        name == day + suffix ==> (match as_date(iso_date(day)) {
            Ok(d) => dated_as(name, suffix) == Some(d),
            Err(_) => dated_as(name, suffix) is None,
        }),
        dated_as(name, suffix) is Some ==> name == name.take(name.len() - suffix.len()) + suffix,
{
    crate::text::laws::law_parts_are_found(name, suffix, day, Seq::empty());
    if name == day + suffix {
        assert(name.take(name.len() - suffix.len()) =~= day);
    }
}

/// The dumps of a directory are listed by their dates, earliest first: every name
/// that is a dump's, and no other.
pub proof fn law_dumps_are_listed_by_date(
    names: Seq<String>,
    suffix: Seq<char>,
    e: Seq<DatedDump>,
    r: Seq<DatedDump>,
    name: String,
)
    requires
        lists_dumps(names, suffix, e),
        stable_sort_of(e, r),
    ensures
        listed_under_its_date(r, name, suffix) <==> names.contains(name) && dated_as(
            name@,
            suffix,
        ) is Some,
        forall|i: int, j: int|
            0 <= i < j < r.len() ==> !(#[trigger] r[j]).date.precedes((#[trigger] r[i]).date),
{
    broadcast use vstd::seq_lib::group_to_multiset_ensures;

    lemma_dated_names(names, suffix, name);
    let w = dated_names(names, suffix);
    if names.contains(name) && dated_as(name@, suffix) is Some {
        let k = choose|k: int| 0 <= k < w.len() && w[k] == name;
        assert(e[k].name == w[k]);
        assert(e.to_multiset().count(e[k]) > 0);
        assert(r.contains(e[k]));
        let i = choose|i: int| 0 <= i < r.len() && r[i] == e[k];
        assert(r[i].name == name);
    }
    if listed_under_its_date(r, name, suffix) {
        let i = choose|i: int|
            0 <= i < r.len() && (#[trigger] r[i]).name == name && dated_as(name@, suffix) == Some(
                r[i].date,
            );
        assert(r.to_multiset().count(r[i]) > 0);
        assert(e.contains(r[i]));
        let k = choose|k: int| 0 <= k < e.len() && e[k] == r[i];
        assert(e[k].name == w[k]);
        assert(w.contains(name));
    }
    assert forall|i: int, j: int| 0 <= i < j < r.len() implies !(#[trigger] r[j]).date.precedes(
        (#[trigger] r[i]).date,
    ) by {
        assert(crate::order::ranked(r));
        assert(crate::order::Ranked::rank_le(r[i], r[j]));
    }
}

} // verus!
