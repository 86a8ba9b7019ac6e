//! What the recorder's texts tell, and which files its sweeps ask for.
use super::qa::history::described;
use super::sweep::run::{SweepAction, VenueSweep};
use super::sweep::{lists_wals, wal_day, wal_names, WalFile, QA_REPORT_FILE};
use super::qa::history::{admissible, closable, dropped_total, load, mentioned, snapshots};
use super::qa::report::QaStatus;
use super::sweep::{outcome_text, SweepOutcome, SweepResult};
use super::tables::{
    aggressor_text, book_side_text, control_kind_name, reference_kind_name, signed_opt, BookSide,
};
use crate::order::stable_sort_of;
use crate::paths::path_join;
use crate::events::Event;
use crate::payloads::{ControlPayload, MarketPayload, Payload, ReferencePayload};
use crate::text::{dec, law_dec_parses};
use crate::types::{AggressorSide, Nanos};
use vstd::prelude::*;
use vstd::string::*;

verus! {

// ---------------------------------------------------------------------------
// Kinds
// ---------------------------------------------------------------------------

/// A control row's kind tells what the event was.
pub proof fn law_control_kinds_tell_the_event(c: ControlPayload)
    ensures
        control_kind_name(c) == "conn_up"@ <==> c is ConnUp,
        control_kind_name(c) == "conn_down"@ <==> c is ConnDown,
        control_kind_name(c) == "gap"@ <==> c is Gap,
        control_kind_name(c) == "snapshot_begin"@ <==> c is SnapshotBegin,
        control_kind_name(c) == "snapshot_end"@ <==> c is SnapshotEnd,
        control_kind_name(c) == "sub_ack"@ <==> c is SubAck,
        control_kind_name(c) == "reorg"@ <==> c is Reorg,
{
    reveal_strlit("conn_up");
    reveal_strlit("conn_down");
    reveal_strlit("gap");
    reveal_strlit("snapshot_begin");
    reveal_strlit("snapshot_end");
    reveal_strlit("sub_ack");
    reveal_strlit("reorg");
    assert("conn_up"@.len() == 7 && "conn_down"@.len() == 9 && "gap"@.len() == 3);
    assert("snapshot_begin"@.len() == 14 && "snapshot_end"@.len() == 12 && "reorg"@.len() == 5);
    assert("sub_ack"@.len() == 7 && "conn_up"@[0] != "sub_ack"@[0]);
}

/// A reference row's kind tells what the event was.
pub proof fn law_reference_kinds_tell_the_event(c: ReferencePayload)
    ensures
        reference_kind_name(c) == "instrument_added"@ <==> c is InstrumentAdded,
        reference_kind_name(c) == "instrument_changed"@ <==> c is InstrumentChanged,
        reference_kind_name(c) == "instrument_delisted"@ <==> c is InstrumentDelisted,
        reference_kind_name(c) == "market_resolved"@ <==> c is MarketResolved,
{
    reveal_strlit("instrument_added");
    reveal_strlit("instrument_changed");
    reveal_strlit("instrument_delisted");
    reveal_strlit("market_resolved");
    assert("instrument_added"@.len() == 16 && "instrument_changed"@.len() == 18);
    assert("instrument_delisted"@.len() == 19 && "market_resolved"@.len() == 15);
}

/// Sides are written so that they can be told apart.
pub proof fn law_sides_are_told_apart(a: AggressorSide, b: BookSide)
    ensures
        aggressor_text(a) == "buy"@ <==> a is Buy,
        aggressor_text(a) == "sell"@ <==> a is Sell,
        book_side_text(b) == "bid"@ <==> b is Bid,
        book_side_text(b) == "ask"@ <==> b is Ask,
{
    reveal_strlit("buy");
    reveal_strlit("sell");
    reveal_strlit("bid");
    reveal_strlit("ask");
    assert("buy"@.len() == 3 && "sell"@.len() == 4);
    assert("bid"@[0] != "ask"@[0]);
}

/// A time that is there is written, and one of our days as it is.
pub proof fn law_times_are_written(t: Option<Nanos>)
    ensures
        signed_opt(t) is Some <==> t is Some,
        t matches Some(v) ==> v <= i64::MAX ==> signed_opt(t) == Some(v as i64),
{
}

/// A conversion that failed, one whose day failed and one that passed are told in
/// different words.
pub proof fn law_outcomes_are_told_apart(
    o: SweepOutcome,
    p: SweepOutcome,
    path: String,
)
    requires
        o.venue@ == p.venue@,
        o.date == p.date,
        o.result == (SweepResult::Converted { status: QaStatus::Pass, report_path: path }),
        p.result == (SweepResult::Converted { status: QaStatus::Fail, report_path: path }),
    ensures
        outcome_text(o) != outcome_text(p),
{
    let head = o.venue@ + "/"@ + o.date.text() + ": "@;
    let tail = path@ + ")"@;
    lemma_cancel(head, "PASS ("@, "FAIL ("@, tail);
    assert(outcome_text(o) =~= head + "PASS ("@ + tail);
    assert(outcome_text(p) =~= head + "FAIL ("@ + tail);
    reveal_strlit("PASS (");
    reveal_strlit("FAIL (");
    assert("PASS ("@[0] != "FAIL ("@[0]);
}

// ---------------------------------------------------------------------------
// What can be taken in
// ---------------------------------------------------------------------------

/// The times an event carries lie after the epoch and fit a signed number.
pub open spec fn timely(e: Event) -> bool {
    &&& e.local_ts <= i64::MAX
    &&& e.venue_ts matches Some(v) ==> v <= i64::MAX
    &&& e.payload matches Payload::Market(MarketPayload::BookUpdate { event_time: Some(t), .. })
        ==> t <= i64::MAX
}

/// Every event with ordinary times is taken in, while the counters hold it and
/// every snapshot of its instrument has an id behind it.
pub proof fn law_ordinary_events_are_taken_in(h: Seq<Event>, e: Event)
    requires
        timely(e),
        load(h.push(e)) <= u64::MAX,
        dropped_total(h.push(e)) <= u64::MAX,
        e.instrument matches Some(id) ==> forall|i: int|
            0 <= i < snapshots(h, id.value@).len() ==> (#[trigger] snapshots(
                h,
                id.value@,
            )[i]).last_update_id < u64::MAX,
    ensures
        admissible(h, e),
{
}

/// The load of a day is its events and the trades in them.
pub proof fn law_load_counts_events_and_trades(h: Seq<Event>, e: Event)
    ensures
        load(Seq::<Event>::empty()) == 0,
        e.payload matches Payload::Market(MarketPayload::Trades { trades }) ==> load(h.push(e))
            == load(h) + 1 + trades@.len(),
        !(e.payload is Market && e.payload->Market_0 is Trades) ==> load(h.push(e)) == load(h) + 1,
{
    assert(h.push(e).drop_last() =~= h);
}

/// The books of a day can be closed where no snapshot came in the last minute
/// before the end of all time.
pub proof fn law_books_can_be_closed(h: Seq<Event>)
    requires
        forall|name: Seq<char>, i: int|
            #![trigger snapshots(h, name)[i]]
            mentioned(h, name) && 0 <= i < snapshots(h, name).len() ==> snapshots(
                h,
                name,
            )[i].local_ts + 60_000_000_000 <= u64::MAX,
    ensures
        closable(h),
{
}

// ---------------------------------------------------------------------------
// Descriptions
// ---------------------------------------------------------------------------

proof fn lemma_cancel(a: Seq<char>, x: Seq<char>, y: Seq<char>, b: Seq<char>)
    ensures
        a + x + b == a + y + b <==> x == y,
{
    if a + x + b == a + y + b {
        let s = a + x + b;
        let t = a + y + b;
        assert(s.len() == t.len());
        assert(x.len() == y.len());
        assert forall|i: int| 0 <= i < x.len() implies x[i] == y[i] by {
            assert(s[a.len() + i] == x[i]);
            assert(t[a.len() + i] == y[i]);
        }
        assert(x =~= y);
    }
}

proof fn lemma_numerals_differ(m: u64, n: u64)
    ensures
        dec(m as nat) == dec(n as nat) <==> m == n,
{
    law_dec_parses(m as nat, u64::MAX as nat);
    law_dec_parses(n as nat, u64::MAX as nat);
}

/// The description of a connection tells its label and, where it went down, the
/// reason: another label or another reason is another text.
pub proof fn law_connections_are_described(l: String, m: String, why: String, because: String)
    ensures
        described(ControlPayload::ConnUp { label: l }) == described(
            ControlPayload::ConnUp { label: m },
        ) <==> l@ == m@,
        described(ControlPayload::ConnDown { label: l, reason: why }) == described(
            ControlPayload::ConnDown { label: l, reason: because },
        ) <==> why@ == because@,
        described(ControlPayload::ConnDown { label: l, reason: why }) == described(
            ControlPayload::ConnDown { label: m, reason: why },
        ) <==> l@ == m@,
        described(ControlPayload::ConnUp { label: l }) == "ConnUp "@ + l@,
        described(ControlPayload::ConnDown { label: l, reason: why }) == "ConnDown "@ + l@ + ": "@
            + why@,
{
    let e = Seq::<char>::empty();
    lemma_cancel("ConnUp "@, l@, m@, e);
    assert("ConnUp "@ + l@ + e =~= "ConnUp "@ + l@);
    assert("ConnUp "@ + m@ + e =~= "ConnUp "@ + m@);
    let head = "ConnDown "@ + l@ + ": "@;
    lemma_cancel(head, why@, because@, e);
    assert(head + why@ + e =~= head + why@);
    assert(head + because@ + e =~= head + because@);
    let tail = ": "@ + why@;
    lemma_cancel("ConnDown "@, l@, m@, tail);
    assert("ConnDown "@ + l@ + tail =~= "ConnDown "@ + l@ + ": "@ + why@);
    assert("ConnDown "@ + m@ + tail =~= "ConnDown "@ + m@ + ": "@ + why@);
}

/// The description of a gap tells how much was dropped, that of an answer which
/// request it is to and whether it was granted, that of a reorganisation from
/// where on.
pub proof fn law_numbers_are_described(
    why: String,
    a: u64,
    b: u64,
    detail: Option<String>,
    other: Option<String>,
    ok: bool,
)
    ensures
        described(ControlPayload::Gap { reason: why, dropped: a }) == described(
            ControlPayload::Gap { reason: why, dropped: b },
        ) <==> a == b,
        described(ControlPayload::SubAck { request_id: a, ok, detail }) == described(
            ControlPayload::SubAck { request_id: b, ok, detail: other },
        ) <==> a == b,
        described(ControlPayload::SubAck { request_id: a, ok: true, detail }) != described(
            ControlPayload::SubAck { request_id: a, ok: false, detail },
        ),
        described(ControlPayload::Reorg { from_block: a }) == described(
            ControlPayload::Reorg { from_block: b },
        ) <==> a == b,
{
    lemma_numerals_differ(a, b);
    let e = Seq::<char>::empty();
    let x = dec(a as nat);
    let y = dec(b as nat);
    let head = "Gap "@ + why@ + ": "@;
    lemma_cancel(head, x, y, e);
    assert(head + x + e =~= head + x);
    assert(head + y + e =~= head + y);
    let granted = if ok {
        "true"@
    } else {
        "false"@
    };
    let tail = " ok="@ + granted;
    lemma_cancel("SubAck id="@, x, y, tail);
    assert("SubAck id="@ + x + tail =~= "SubAck id="@ + x + " ok="@ + granted);
    assert("SubAck id="@ + y + tail =~= "SubAck id="@ + y + " ok="@ + granted);
    let ask = "SubAck id="@ + x + " ok="@;
    lemma_cancel(ask, "true"@, "false"@, e);
    assert(ask + "true"@ + e =~= ask + "true"@);
    assert(ask + "false"@ + e =~= ask + "false"@);
    reveal_strlit("true");
    reveal_strlit("false");
    assert("true"@.len() == 4 && "false"@.len() == 5);
    lemma_cancel("Reorg { from_block: "@, x, y, " }"@);
}

// ---------------------------------------------------------------------------
// Sweeps
// ---------------------------------------------------------------------------

proof fn lemma_push_contains<T>(s: Seq<T>, y: T, x: T)
    ensures
        s.push(y).contains(x) <==> s.contains(x) || x == y,
{
    if s.contains(x) {
        let i = choose|i: int| 0 <= i < s.len() && s[i] == x;
        assert(s.push(y)[i] == x);
    }
    assert(s.push(y)[s.len() as int] == y);
    if s.push(y).contains(x) && x != y {
        let i = choose|i: int| 0 <= i < s.push(y).len() && s.push(y)[i] == x;
        assert(s[i] == x);
    }
}

proof fn lemma_wal_names(names: Seq<String>, n: String)
    ensures
        wal_names(names).contains(n) <==> names.contains(n) && wal_day(n@) is Some,
    decreases names.len(),
{
    reveal(Seq::filter);
    if names.len() > 0 {
        let front = names.drop_last();
        let last = names.last();
        lemma_wal_names(front, n);
        assert(names =~= front.push(last));
        lemma_push_contains(front, last, n);
        lemma_push_contains(wal_names(front), last, n);
        if wal_day(last@) is Some {
            assert(wal_names(names) =~= wal_names(front).push(last));
        } else {
            assert(wal_names(names) =~= wal_names(front));
        }
    } else {
        assert(wal_names(names).len() == 0);
    }
}

/// A log of that name and its day is listed.
pub open spec fn listed(files: Seq<WalFile>, name: String) -> bool {
    exists|i: int|
        0 <= i < files.len() && (#[trigger] files[i]).name == name && wal_day(name@) == Some(
            files[i].date,
        )
}

/// The logs of a directory are listed by their days, earliest first: every name
/// that is a log's, and no other.
pub proof fn law_logs_are_listed_by_day(
    names: Seq<String>,
    e: Seq<WalFile>,
    r: Seq<WalFile>,
    name: String,
)
    requires
        lists_wals(names, e),
        stable_sort_of(e, r),
    ensures
        listed(r, name) <==> names.contains(name) && wal_day(name@) is Some,
        forall|i: int, j: int|
            0 <= i < j < r.len() ==> !(#[trigger] r[j]).date.precedes((#[trigger] r[i]).date),
{
    broadcast use vstd::seq_lib::group_to_multiset_ensures;

    lemma_wal_names(names, name);
    let w = wal_names(names);
    if names.contains(name) && wal_day(name@) is Some {
        let k = choose|k: int| 0 <= k < w.len() && w[k] == name;
        assert(e[k].name == w[k]);
        assert(e.to_multiset().count(e[k]) > 0);
        assert(r.contains(e[k]));
        let i = choose|i: int| 0 <= i < r.len() && r[i] == e[k];
        assert(r[i].name == name);
    }
    if listed(r, name) {
        let i = choose|i: int|
            0 <= i < r.len() && (#[trigger] r[i]).name == name && wal_day(name@) == Some(
                r[i].date,
            );
        assert(r.to_multiset().count(r[i]) > 0);
        assert(e.contains(r[i]));
        let k = choose|k: int| 0 <= k < e.len() && e[k] == r[i];
        assert(e[k].name == w[k]);
        assert(w.contains(name));
    }
    assert forall|i: int, j: int| 0 <= i < j < r.len() implies !(#[trigger] r[j]).date.precedes(
        (#[trigger] r[i]).date,
    ) by {
        assert(crate::order::ranked(r));
        assert(crate::order::Ranked::rank_le(r[i], r[j]));
    }
}

/// A run asks for the log at hand and for its day: first whether its marker is
/// there, then, where it is not, to convert it into its day's directory, through
/// a temporary one beside it, with the marker inside.
pub proof fn law_run_asks_for_the_log_at_hand(run: VenueSweep, r: SweepAction)
    requires
        run.calls_for(r),
        run.at < run.files@.len(),
    ensures
        ({
            let f = run.files@[run.at as int];
            let venue_dir = path_join(run.out_root@, run.venue@);
            let day = path_join(venue_dir, f.date.text());
            &&& (r is Probe <==> !run.due)
            &&& (r is Convert <==> run.due)
            &&& (r matches SweepAction::Probe { marker } ==> marker@ == path_join(
                day,
                QA_REPORT_FILE@,
            ))
            &&& (r matches SweepAction::Convert { wal_path, date, paths } ==> wal_path@
                == path_join(run.wal_dir@, f.name@) && date == f.date && paths.final_dir@ == day
                && paths.report@ == path_join(day, QA_REPORT_FILE@) && paths.tmp_dir@ == path_join(
                venue_dir,
                ".tmp-"@ + f.date.text(),
            ))
        }),
{
}

} // verus!
