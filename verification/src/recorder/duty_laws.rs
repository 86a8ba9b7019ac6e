//! What the recorder's counters, logs and sweeps are for.
use super::qa::histogram::{
    below, edge, percentile_of, rank_of, smallest, largest, summary_of, whole_us,
};
use super::qa::report::QaStatus;
use super::stats::{
    age, batch_recorded, kind_index, kind_of, law_kinds_are_indexed, law_tally_keeps_kinds,
    recorded, seen_of, slot_recorded, wrapped, CaptureView, EventKind, WriterStats,
};
use super::sweep::run::{due, next_closed, VenueSweep};
use super::sweep::{
    closed_and_unpublished, gates, is_problem, step_after, wal_day, PublishStep, SweepResult,
    WalFile,
};
use super::tables::{appended, full, EnvelopeCols};
use super::wal::{closes, files_under, is_open, until_sync, LogBook, LogFile, Routed};
use crate::calendar::Date;
use crate::events::Event;
use crate::payloads::Payload;
use crate::text::ends_in;
use crate::types::SourceId;
use vstd::prelude::*;

verus! {

// ---------------------------------------------------------------------------
// Counters
// ---------------------------------------------------------------------------

/// An event is of the kind that its payload is.
pub proof fn law_kinds_follow_payloads(p: Payload)
    ensures
        p matches Payload::Market(m) ==> {
            &&& kind_of(p) == EventKind::BookTicker <==> m is BookTicker
            &&& kind_of(p) == EventKind::BookSnapshot <==> m is BookSnapshot
            &&& kind_of(p) == EventKind::BookUpdate <==> m is BookUpdate
            &&& kind_of(p) == EventKind::Trades <==> m is Trades
            &&& kind_of(p) == EventKind::MarkPrice <==> m is MarkPrice
            &&& kind_of(p) == EventKind::IndexPrice <==> m is IndexPrice
            &&& kind_of(p) == EventKind::FundingPrediction <==> m is FundingRatePrediction
            &&& kind_of(p) == EventKind::FundingRealized <==> m is FundingRateRealized
            &&& kind_of(p) == EventKind::OpenInterest <==> m is OpenInterest
            &&& kind_of(p) == EventKind::Liquidation <==> m is Liquidation
        },
        kind_of(p) == EventKind::Reference <==> p is Reference,
        kind_of(p) == EventKind::Chain <==> p is Chain,
        kind_of(p) == EventKind::Account <==> p is Account,
        kind_of(p) == EventKind::Control <==> p is Control,
{
}

/// What is counted of an event is its own kind, and a lost connection only where
/// it tells of one.
pub proof fn law_events_are_seen_as_they_are(e: Event)
    ensures
        seen_of(e).kind == kind_of(e.payload),
        seen_of(e).down <==> e.payload is Control && e.payload->Control_0 is ConnDown,
{
}

/// While a counter holds the sum, growing is adding.
pub proof fn law_growing_is_adding(a: u64, b: int)
    requires
        0 <= b,
        a + b <= u64::MAX,
    ensures
        wrapped(a, b) == a + b,
{
    reveal(wrapped);
}

/// A batch of events that was accepted adds itself to the counters: all of it to
/// the total, the events of every kind to that kind, the lost connections to
/// theirs. A kind that occurred is stamped with the time, the others keep theirs.
pub proof fn law_batch_is_added(
    v: CaptureView,
    n: CaptureView,
    events: Seq<Event>,
    now: u64,
    kind: EventKind,
)
    requires
        batch_recorded(v, n, events.map_values(|e: Event| seen_of(e)), now),
        v.total + events.len() <= u64::MAX,
        v.conn_down + events.len() <= u64::MAX,
        v.by_kind[kind_index(kind)] + events.len() <= u64::MAX,
    ensures
        n.total == v.total + events.len(),
        n.by_kind[kind_index(kind)] == v.by_kind[kind_index(kind)] + events.filter(
            |e: Event| kind_of(e.payload) == kind,
        ).len(),
        n.conn_down == v.conn_down + events.filter(
            |e: Event| e.payload is Control && e.payload->Control_0 is ConnDown,
        ).len(),
        n.last_event_unix_ns[kind_index(kind)] == (if events.filter(
            |e: Event| kind_of(e.payload) == kind,
        ).len() > 0 {
            now
        } else {
            v.last_event_unix_ns[kind_index(kind)]
        }),
{
    let seen = events.map_values(|e: Event| seen_of(e));
    law_kinds_are_indexed(kind, 0);
    assert(slot_recorded(v, n, seen, now, kind_index(kind)));
    law_tally_keeps_kinds(events, kind);
    super::qa::counting::law_counts_are_numbers_of_events(events, Seq::empty(), kind);
    lemma_down(events);
    lemma_filtered_fit(events, |e: Event| kind_of(e.payload) == kind);
    lemma_filtered_fit(
        events,
        |e: Event| e.payload is Control && e.payload->Control_0 is ConnDown,
    );
    law_growing_is_adding(v.total, seen.len() as int);
    law_growing_is_adding(
        v.by_kind[kind_index(kind)],
        super::stats::seen_count(seen, kind) as int,
    );
    law_growing_is_adding(v.conn_down, super::stats::down_count(seen) as int);
}

proof fn lemma_filtered_fit(events: Seq<Event>, test: spec_fn(Event) -> bool)
    ensures
        events.filter(test).len() <= events.len(),
{
    events.lemma_filter_len(test);
}

proof fn lemma_down(events: Seq<Event>)
    ensures
        super::stats::down_count(events.map_values(|e: Event| seen_of(e))) == events.filter(
            |e: Event| e.payload is Control && e.payload->Control_0 is ConnDown,
        ).len(),
    decreases events.len(),
{
    reveal(Seq::filter);
    let seen = events.map_values(|e: Event| seen_of(e));
    if events.len() > 0 {
        let q = events.drop_last();
        lemma_down(q);
        assert(seen.drop_last() =~= q.map_values(|e: Event| seen_of(e)));
    }
}

/// Events of a kind that are recorded count for that kind and the total, and stamp
/// that kind; no other kind changes.
pub proof fn law_recording_touches_one_kind(
    v: CaptureView,
    kind: EventKind,
    other: EventKind,
    count: u64,
    now: u64,
    down: u64,
)
    requires
        v.by_kind.len() == 14,
        v.last_event_unix_ns.len() == 14,
        v.total + count <= u64::MAX,
        v.conn_down + down <= u64::MAX,
        v.by_kind[kind_index(kind)] + count <= u64::MAX,
    ensures
        recorded(v, kind, count, now, down).total == v.total + count,
        recorded(v, kind, count, now, down).conn_down == v.conn_down + down,
        recorded(v, kind, count, now, down).by_kind[kind_index(kind)] == v.by_kind[kind_index(
            kind,
        )] + count,
        recorded(v, kind, count, now, down).last_event_unix_ns[kind_index(kind)] == now,
        other != kind ==> recorded(v, kind, count, now, down).by_kind[kind_index(other)]
            == v.by_kind[kind_index(other)] && recorded(
            v,
            kind,
            count,
            now,
            down,
        ).last_event_unix_ns[kind_index(other)] == v.last_event_unix_ns[kind_index(other)],
{
    law_kinds_are_indexed(kind, 0);
    law_kinds_are_indexed(other, 0);
    law_growing_is_adding(v.total, count as int);
    law_growing_is_adding(v.conn_down, down as int);
    law_growing_is_adding(v.by_kind[kind_index(kind)], count as int);
}

/// An age is the time since; what never happened has none, and what is said to
/// come has happened now.
pub proof fn law_age_is_the_time_since(at: u64, now: u64)
    ensures
        age(at, now) is None <==> at == 0,
        at != 0 && at <= now ==> at + age(at, now)->0 == now,
        at != 0 && at > now ==> age(at, now)->0 == 0,
{
}

/// What waits in the channel is what went in and did not come out.
pub proof fn law_depth_is_what_waits(s: WriterStats)
    ensures
        s.enqueued >= s.dequeued ==> s.dequeued + s.depth() == s.enqueued,
        s.enqueued < s.dequeued ==> s.depth() == 0,
{
}

// ---------------------------------------------------------------------------
// Latencies
// ---------------------------------------------------------------------------

/// How many samples lie below a bound is their number.
pub proof fn law_below_is_a_number_of_samples(samples: Seq<int>, x: int)
    ensures
        below(samples, x) == samples.filter(|s: int| s < x).len(),
    decreases samples.len(),
{
    reveal(Seq::filter);
    if samples.len() > 0 {
        law_below_is_a_number_of_samples(samples.drop_last(), x);
    }
}

/// Buckets are a millisecond wide and reach from a second early to ten late.
pub proof fn law_buckets_are_milliseconds(i: int)
    ensures
        edge(i + 1) - edge(i) == 1_000_000,
        edge(0) == -1_000_000_000,
        edge(11_000) == 10_000_000_000,
{
}

/// The rank of a percentile is the least that covers that part of the samples.
pub proof fn law_rank_is_the_least_that_covers(percent: nat, count: nat)
    requires
        0 < percent <= 100,
        0 < count,
    ensures
        1 <= rank_of(percent, count) <= count,
        rank_of(percent, count) * 100 >= percent * count,
        (rank_of(percent, count) - 1) * 100 < percent * count,
{
    let r = (percent * count + 99) / 100;
    assert(percent * count >= 1 && percent * count <= 100 * count) by (nonlinear_arith)
        requires
            0 < percent <= 100,
            0 < count,
    ;
}

/// Microseconds are cut towards zero.
pub proof fn law_microseconds_are_cut(ns: int)
    ensures
        ns >= 0 ==> whole_us(ns) * 1000 <= ns < whole_us(ns) * 1000 + 1000,
        ns <= 0 ==> whole_us(ns) * 1000 - 1000 < ns <= whole_us(ns) * 1000,
{
}

/// A summary has the number of the samples, the middle, the ninety-fifth and the
/// ninety-ninth of a hundred, and both ends; without samples there is none.
pub proof fn law_summary_has_its_percentiles(samples: Seq<int>)
    requires
        samples.len() <= u64::MAX,
    ensures
        summary_of(samples) is None <==> samples.len() == 0,
        summary_of(samples) matches Some(s) ==> {
            &&& s.count == samples.len()
            &&& s.p50_us == percentile_of(samples, 50)->0 as i64
            &&& s.p95_us == percentile_of(samples, 95)->0 as i64
            &&& s.p99_us == percentile_of(samples, 99)->0 as i64
            &&& s.min_us == whole_us(smallest(samples)) as i64
            &&& s.max_us == whole_us(largest(samples)) as i64
        },
{
}

/// A percentile among the samples that are more than a second early is the
/// earliest of all, and one among those ten seconds late or more is the latest.
pub proof fn law_tails_resolve_to_extremes(samples: Seq<int>, percent: nat)
    requires
        samples.len() > 0,
    ensures
        rank_of(percent, samples.len()) <= below(samples, -1_000_000_000) ==> percentile_of(
            samples,
            percent,
        ) == Some(whole_us(smallest(samples))),
        rank_of(percent, samples.len()) > below(samples, 10_000_000_000) && rank_of(
            percent,
            samples.len(),
        ) > below(samples, -1_000_000_000) ==> percentile_of(samples, percent) == Some(
            whole_us(largest(samples)),
        ),
{
    assert(edge(0) == -1_000_000_000);
    let rank = rank_of(percent, samples.len());
    if rank > below(samples, 10_000_000_000) {
        lemma_beyond(samples, rank, 0);
    }
}

proof fn lemma_beyond(samples: Seq<int>, rank: nat, i: int)
    requires
        0 <= i <= 11_000,
        below(samples, 10_000_000_000) < rank,
    ensures
        super::qa::histogram::covering_bucket(samples, rank, i) == 11_000,
    decreases 11_000 - i,
{
    if i < 11_000 {
        lemma_below_grows(samples, edge(i + 1), 10_000_000_000);
        lemma_beyond(samples, rank, i + 1);
    }
}

proof fn lemma_below_grows(samples: Seq<int>, x: int, y: int)
    requires
        x <= y,
    ensures
        below(samples, x) <= below(samples, y),
    decreases samples.len(),
{
    if samples.len() > 0 {
        lemma_below_grows(samples.drop_last(), x, y);
    }
}

// ---------------------------------------------------------------------------
// Logs
// ---------------------------------------------------------------------------

/// A record goes to the file of the day it was received, counted in days of the
/// epoch; that file is open afterwards, and it is late exactly where it had to be
/// opened for a day before today.
pub proof fn law_records_go_to_their_day(
    o: LogBook,
    n: LogBook,
    venue: Seq<char>,
    local_ts: u64,
    today: Date,
    r: Routed,
)
    requires
        files_under(o, n, venue, local_ts, today, r),
    ensures
        r.date.number() * 86_400_000_000_000 <= local_ts,
        local_ts < (r.date.number() + 1) * 86_400_000_000_000,
        r.opened <==> forall|i: int|
            0 <= i < o.open@.len() ==> (#[trigger] o.open@[i]).venue@ != venue || o.open@[i].date
                != r.date,
        exists|i: int|
            0 <= i < n.open@.len() && (#[trigger] n.open@[i]).venue@ == venue && n.open@[i].date
                == r.date,
        r.late <==> r.opened && r.date.precedes(today),
{
    assert(is_open(n.open@, venue, r.date));
}

/// A file is closed exactly where its day is before today; every other stays open,
/// and none is lost.
pub proof fn law_only_past_days_are_closed(
    o: Seq<LogFile>,
    n: Seq<LogFile>,
    closed: Seq<LogFile>,
    today: Date,
    i: int,
)
    requires
        closes(o, n, closed, today),
        0 <= i < o.len(),
    ensures
        o[i].date.precedes(today) ==> closed.contains(o[i]),
        !o[i].date.precedes(today) ==> n.contains(o[i]),
        n.len() + closed.len() == o.len(),
        forall|k: int| 0 <= k < n.len() ==> !(#[trigger] n[k]).date.precedes(today),
        forall|k: int| 0 <= k < closed.len() ==> (#[trigger] closed[k]).date.precedes(today),
{
    let past = |f: LogFile| f.date.precedes(today);
    let rest = |f: LogFile| !f.date.precedes(today);
    if past(o[i]) {
        o.lemma_filter_contains(past, i);
    } else {
        o.lemma_filter_contains(rest, i);
    }
    assert forall|k: int| 0 <= k < n.len() implies !(#[trigger] n[k]).date.precedes(today) by {
        o.lemma_filter_pred(rest, k);
    }
    assert forall|k: int| 0 <= k < closed.len() implies (#[trigger] closed[k]).date.precedes(
        today,
    ) by {
        o.lemma_filter_pred(past, k);
    }
    lemma_two_parts(o, today);
}

proof fn lemma_two_parts(o: Seq<LogFile>, today: Date)
    ensures
        o.filter(|f: LogFile| f.date.precedes(today)).len() + o.filter(
            |f: LogFile| !f.date.precedes(today),
        ).len() == o.len(),
    decreases o.len(),
{
    reveal(Seq::filter);
    if o.len() > 0 {
        lemma_two_parts(o.drop_last(), today);
    }
}

/// A sync is due a second after the last, and until then that is what is waited.
pub proof fn law_syncs_are_a_second_apart(elapsed_ns: u64)
    ensures
        elapsed_ns <= 1_000_000_000 ==> elapsed_ns + until_sync(elapsed_ns) == 1_000_000_000,
        elapsed_ns >= 1_000_000_000 ==> until_sync(elapsed_ns) == 0,
{
}

/// A table is written out from half a million rows on.
pub proof fn law_tables_are_flushed_at_half_a_million(rows: usize)
    ensures
        full(rows) <==> rows >= 500_000,
{
}

/// The columns grow by one envelope, each by its own part of it; times before the
/// year 2262 are the same numbers signed.
pub proof fn law_columns_tell_the_envelope(
    o: EnvelopeCols,
    n: EnvelopeCols,
    instrument: Seq<char>,
    venue_ts: Option<u64>,
    local_ts: u64,
    source: SourceId,
)
    requires
        appended(o, n, instrument, venue_ts, local_ts, source),
        local_ts < 0x8000_0000_0000_0000,
    ensures
        n.instrument@.last()@ == instrument,
        n.local_ts@.last() == local_ts,
        n.source@.last() == source.0,
        n.venue_ts@.last() is Some <==> venue_ts is Some,
        venue_ts matches Some(t) && t < 0x8000_0000_0000_0000 ==> n.venue_ts@.last()->0
            == venue_ts->0,
        n.instrument@.drop_last() == o.instrument@,
        n.local_ts@.drop_last() == o.local_ts@,
        n.source@.drop_last() == o.source@,
        n.venue_ts@.drop_last() == o.venue_ts@,
{
    assert(n.local_ts@.drop_last() =~= o.local_ts@);
    assert(n.source@.drop_last() =~= o.source@);
    assert(n.venue_ts@.drop_last() =~= o.venue_ts@);
}

// ---------------------------------------------------------------------------
// Sweeps
// ---------------------------------------------------------------------------

/// A log is due exactly where its day is over and no marker is there.
pub proof fn law_closed_days_are_due_once(
    f: WalFile,
    as_of: Date,
    markers: Set<Date>,
    marker_exists: bool,
)
    ensures
        due(f, as_of, markers) <==> f.date.precedes(as_of) && !markers.contains(f.date),
        closed_and_unpublished(f.date, as_of, marker_exists) <==> f.date.precedes(as_of)
            && !marker_exists,
{
}

/// A log written within ten minutes is left alone, one whose age is unknown has
/// failed, and any other goes on.
pub proof fn law_fresh_logs_are_left_alone(age_ns: Result<u64, String>, r: Option<SweepResult>)
    requires
        gates(age_ns, r),
    ensures
        r is Some && r->0 is SkippedFresh <==> age_ns is Ok && age_ns->Ok_0 < 10 * 60
            * 1_000_000_000,
        r is None <==> age_ns is Ok && age_ns->Ok_0 >= 10 * 60 * 1_000_000_000,
        r is Some && r->0 is Failed <==> age_ns is Err,
{
}

/// The next log to look at is the first one from here on whose day is over.
pub proof fn law_no_closed_log_is_passed_over(files: Seq<WalFile>, as_of: Date, at: nat)
    requires
        at <= files.len(),
    ensures
        at <= next_closed(files, as_of, at) <= files.len(),
        next_closed(files, as_of, at) < files.len() ==> files[next_closed(
            files,
            as_of,
            at,
        ) as int].date.precedes(as_of),
        forall|i: int|
            at <= i < next_closed(files, as_of, at) ==> !(#[trigger] files[i]).date.precedes(
                as_of,
            ),
    decreases files.len() - at,
{
    if at < files.len() && !files[at as int].date.precedes(as_of) {
        law_no_closed_log_is_passed_over(files, as_of, at + 1);
    }
}

/// A name is a log's exactly where it is a date and `.wal`.
pub proof fn law_logs_are_named_by_their_day(name: Seq<char>)
    ensures
        wal_day(name) is Some ==> ends_in(name, ".wal"@),
        wal_day(name) is Some <==> ends_in(name, ".wal"@) && crate::calendar::as_date(
            crate::calendar::ymd_date(name.take(name.len() - ".wal"@.len())),
        ) is Ok,
        wal_day(name) is Some ==> crate::calendar::as_date(
            crate::calendar::ymd_date(name.take(name.len() - ".wal"@.len())),
        )->Ok_0 == wal_day(name)->0,
{
}

/// A conversion that failed or whose day failed is a problem; one that passed, or
/// was left for later, is none.
pub proof fn law_failures_are_problems(r: SweepResult)
    ensures
        r is Failed ==> is_problem(r),
        r is SkippedFresh ==> !is_problem(r),
        r matches SweepResult::Converted { status, .. } ==> (is_problem(r) <==> status
            == QaStatus::Fail),
{
}

/// A day is cleaned, converted, judged, reported and published, in this order and
/// each once; what was published without a marker is removed exactly where it is
/// there.
pub proof fn law_publishing_goes_through_every_step(s: PublishStep, final_exists: bool)
    ensures
        step_after(s, final_exists) == PublishStep::CleanOutput <==> s == PublishStep::CleanTmp
            && final_exists,
        step_after(s, final_exists) == PublishStep::CreateTmp <==> s == PublishStep::CleanOutput
            || (s == PublishStep::CleanTmp && !final_exists),
        step_after(s, final_exists) == PublishStep::Convert <==> s == PublishStep::CreateTmp,
        step_after(s, final_exists) == PublishStep::Judge <==> s == PublishStep::Convert,
        step_after(s, final_exists) == PublishStep::Serialize <==> s == PublishStep::Judge,
        step_after(s, final_exists) == PublishStep::WriteReport <==> s == PublishStep::Serialize,
        step_after(s, final_exists) == PublishStep::FinalizeReport <==> s
            == PublishStep::WriteReport,
        step_after(s, final_exists) == PublishStep::Publish <==> s
            == PublishStep::FinalizeReport,
        step_after(s, final_exists) == PublishStep::Done <==> s == PublishStep::Publish || s
            == PublishStep::Done,
        step_after(s, final_exists) != PublishStep::CleanTmp,
{
}

/// A day with a marker is passed over without a word, one without is converted,
/// and what came of that is reported under the day's log; the run goes on in any
/// case, from the next log on.
pub proof fn law_run_reports_every_conversion(
    run: VenueSweep,
    next: VenueSweep,
    marked: bool,
    result: SweepResult,
)
    requires
        run.at < run.files@.len(),
    ensures
        run.after_probe(marked, next) ==> next.outcomes@ == run.outcomes@ && (next.due <==> !marked)
            && (!marked ==> next.at == run.at) && (marked ==> next.at > run.at),
        run.after_conversion(result, next) ==> next.outcomes@.len() == run.outcomes@.len() + 1
            && next.outcomes@.last().result == result && next.outcomes@.last().date
            == run.files@[run.at as int].date && next.outcomes@.last().venue@ == run.venue@
            && !next.due && next.at > run.at && next.outcomes@.drop_last() == run.outcomes@,
{
    law_no_closed_log_is_passed_over(run.files@, run.as_of, (run.at + 1) as nat);
}

} // verus!
