//! Daily funding reconciliation: the realized funding that was captured against
//! what the venue reports on a fresh request, one UTC day at a time. The captured
//! set of a day is what its published table holds, what the next day's published
//! table holds of it, and what the next day's log holds of it: a settlement just
//! before midnight is discovered just after.
//!
//! Rates are compared as floating-point numbers where they are read; here a rate
//! is the bit pattern of one, carried through and never calculated with.
use super::BackfillError;
use crate::calendar::{day_exists, unsigned, Date, DAY_NS};
use crate::decimal::Decimal;
use crate::events::{instrument_view, Event};
use crate::paths::{join, path_join};
use crate::payloads::{MarketPayload, Payload};
use crate::text::{lowercase, opt_view, quote, quoted, same, to_lower};
use crate::timed::{key_views, keys_ascend, TimedKey, TimedMap};
use vstd::prelude::*;
use vstd::string::*;

verus! {

/// Days a streak is looked back for.
pub const MAX_GREEN_SCAN_DAYS: u32 = 400;

#[derive(Debug)]
pub struct ReconcileCfg {
    pub data_dir: String,
    /// The day to reconcile.
    pub date: Date,
    /// Evaluate again and overwrite an existing report.
    pub force: bool,
}

#[derive(Debug, Clone, Copy, PartialEq, Eq, Structural)]
pub enum ReconcileStatus {
    Pass,
    Fail,
    /// Inputs unavailable; nothing to judge.
    Blocked,
}

/// A settlement the venue reports and the capture lacks.
#[derive(Debug)]
pub struct FundingMiss {
    pub instrument: String,
    pub funding_time_ns: u64,
    pub rest_rate: u64,
}

/// A settlement the capture holds and the venue does not report.
#[derive(Debug)]
pub struct FundingExtra {
    pub instrument: String,
    pub funding_time_ns: u64,
    pub captured_rate: u64,
}

/// A settlement both know with different rates.
#[derive(Debug)]
pub struct RateMismatch {
    pub instrument: String,
    pub funding_time_ns: u64,
    pub captured_rate: u64,
    pub rest_rate: u64,
}

impl Clone for RateMismatch {
    fn clone(&self) -> (r: Self)
        ensures
            r == *self,
    {
        RateMismatch {
            instrument: self.instrument.clone(),
            funding_time_ns: self.funding_time_ns,
            captured_rate: self.captured_rate,
            rest_rate: self.rest_rate,
        }
    }
}

#[derive(Debug)]
pub struct ReconcileReport {
    pub schema_version: u32,
    pub venue: String,
    pub date: String,
    pub generated_at: String,
    pub status: ReconcileStatus,
    /// Present only where the day was blocked.
    pub blocked_reason: Option<String>,
    pub expected_events: usize,
    pub captured_events: usize,
    /// Expected settlements that were captured; with `expected_events` it gives
    /// the coverage.
    pub covered_events: usize,
    pub missing: Vec<FundingMiss>,
    pub extra: Vec<FundingExtra>,
    pub rate_mismatches: Vec<RateMismatch>,
    /// Consecutive passing days that end with this one.
    pub consecutive_green_days: u32,
}

#[derive(Debug)]
pub struct Outcome {
    pub status: ReconcileStatus,
    pub report_path: String,
    /// An existing report was honored instead of evaluating again.
    pub skipped_existing: bool,
}

/// A settlement: when and of which instrument.
pub type Key = (u64, Seq<char>);

/// The entries of a map, in the order of their keys.
pub open spec fn entries(m: TimedMap<u64>) -> Seq<(Key, u64)> {
    Seq::new(m.keys@.len(), |i: int| (m.keys@[i]@, m.values@[i]))
}

/// The entries of `a` whose keys `b` lacks.
pub open spec fn lacking(a: TimedMap<u64>, b: TimedMap<u64>) -> Seq<(Key, u64)> {
    entries(a).filter(|e: (Key, u64)| !b.as_map().dom().contains(e.0))
}

/// The entries of `a` whose keys `b` has.
pub open spec fn shared(a: TimedMap<u64>, b: TimedMap<u64>) -> Seq<(Key, u64)> {
    entries(a).filter(|e: (Key, u64)| b.as_map().dom().contains(e.0))
}

/// Those elements whose flag is set.
pub open spec fn flagged<T>(s: Seq<T>, flags: Seq<bool>) -> Seq<T>
    decreases s.len(),
{
    if s.len() == 0 {
        s
    } else {
        let r = flagged(s.drop_last(), flags);
        if flags[s.len() - 1] {
            r.push(s.last())
        } else {
            r
        }
    }
}

pub open spec fn miss_entries(s: Seq<FundingMiss>) -> Seq<(Key, u64)> {
    s.map_values(|m: FundingMiss| ((m.funding_time_ns, m.instrument@), m.rest_rate))
}

pub open spec fn extra_entries(s: Seq<FundingExtra>) -> Seq<(Key, u64)> {
    s.map_values(|m: FundingExtra| ((m.funding_time_ns, m.instrument@), m.captured_rate))
}

/// Settlements with the venue's rates.
pub open spec fn pair_entries(s: Seq<RateMismatch>) -> Seq<(Key, u64)> {
    s.map_values(|m: RateMismatch| ((m.funding_time_ns, m.instrument@), m.rest_rate))
}

proof fn lemma_filter_push<T>(s: Seq<T>, x: T, keep: spec_fn(T) -> bool)
    ensures
        s.push(x).filter(keep) == (if keep(x) {
            s.filter(keep).push(x)
        } else {
            s.filter(keep)
        }),
{
    reveal(Seq::filter);
    assert(s.push(x).drop_last() =~= s);
}

/// The positions of `a` whose keys are, or are not, keys of `b`.
fn positions(a: &TimedMap<u64>, b: &TimedMap<u64>, present: bool) -> (r: Vec<usize>)
    requires
        a.wf(),
        b.wf(),
    ensures
        r@.len() <= a.keys@.len(),
        forall|i: int| 0 <= i < r@.len() ==> (#[trigger] r@[i]) < a.keys@.len(),
        r@.map_values(|p: usize| entries(*a)[p as int]) == (if present {
            shared(*a, *b)
        } else {
            lacking(*a, *b)
        }),
        forall|i: int|
            0 <= i < r@.len() ==> present == b.as_map().dom().contains(
                a.keys@[(#[trigger] r@[i]) as int]@,
            ),
{
    let ghost keep = if present {
        |e: (Key, u64)| b.as_map().dom().contains(e.0)
    } else {
        |e: (Key, u64)| !b.as_map().dom().contains(e.0)
    };
    let ghost all = entries(*a);
    let mut out: Vec<usize> = Vec::new();
    let mut i: usize = 0;
    proof {
        reveal(Seq::filter);
        assert(out@.map_values(|p: usize| all[p as int]) =~= all.take(0).filter(keep));
    }
    while i < a.keys.len()
        invariant
            i <= a.keys@.len(),
            a.wf(),
            b.wf(),
            all == entries(*a),
            keep == (if present {
                |e: (Key, u64)| b.as_map().dom().contains(e.0)
            } else {
                |e: (Key, u64)| !b.as_map().dom().contains(e.0)
            }),
            out@.len() <= i,
            forall|j: int| 0 <= j < out@.len() ==> (#[trigger] out@[j]) < a.keys@.len(),
            out@.map_values(|p: usize| all[p as int]) == all.take(i as int).filter(keep),
            forall|j: int|
                0 <= j < out@.len() ==> present == b.as_map().dom().contains(
                    a.keys@[(#[trigger] out@[j]) as int]@,
                ),
        decreases a.keys@.len() - i,
    {
        let ghost o = out@;
        let there: bool = b.contains(a.keys[i].time, a.keys[i].name.as_str());
        proof {
            assert(all.take(i + 1) =~= all.take(i as int).push(all[i as int]));
            lemma_filter_push(all.take(i as int), all[i as int], keep);
        }
        if there == present {
            out.push(i);
            assert(out@.map_values(|p: usize| all[p as int]) =~= o.map_values(
                |p: usize| all[p as int],
            ).push(all[i as int]));
        }
        i = i + 1;
    }
    assert(all.take(all.len() as int) =~= all);
    out
}

/// The settlements that the venue reports and the capture holds, with both
/// rates, in the order of their keys.
pub fn shared_settlements(expected: &TimedMap<u64>, captured: &TimedMap<u64>) -> (r: Vec<
    RateMismatch,
>)
    requires
        expected.wf(),
        captured.wf(),
    ensures
        pair_entries(r@) == shared(*expected, *captured),
        forall|i: int|
            0 <= i < r@.len() ==> (#[trigger] r@[i]).captured_rate == captured.as_map()[(
                r@[i].funding_time_ns,
                r@[i].instrument@,
            )],
{
    let at: Vec<usize> = positions(expected, captured, true);
    let mut out: Vec<RateMismatch> = Vec::new();
    let mut i: usize = 0;
    let ghost all = entries(*expected);
    while i < at.len()
        invariant
            i <= at@.len(),
            expected.wf(),
            captured.wf(),
            all == entries(*expected),
            forall|j: int| 0 <= j < at@.len() ==> (#[trigger] at@[j]) < expected.keys@.len(),
            forall|j: int|
                0 <= j < at@.len() ==> captured.as_map().dom().contains(
                    expected.keys@[(#[trigger] at@[j]) as int]@,
                ),
            pair_entries(out@) == at@.take(i as int).map_values(|p: usize| all[p as int]),
            forall|j: int|
                0 <= j < out@.len() ==> (#[trigger] out@[j]).captured_rate == captured.as_map()[(
                    out@[j].funding_time_ns,
                    out@[j].instrument@,
                )],
        decreases at@.len() - i,
    {
        let p: usize = at[i];
        let k: &TimedKey = &expected.keys[p];
        let ghost o = out@;
        match captured.position(k.time, k.name.as_str()) {
            Some(q) => {
                out.push(
                    RateMismatch {
                        instrument: k.name.clone(),
                        funding_time_ns: k.time,
                        captured_rate: captured.values[q],
                        rest_rate: expected.values[p],
                    },
                );
            },
            None => {},
        }
        proof {
            assert(pair_entries(out@) =~= pair_entries(o).push(all[p as int]));
            assert(at@.take(i + 1) =~= at@.take(i as int).push(p));
            assert(at@.take(i + 1).map_values(|p: usize| all[p as int]) =~= at@.take(
                i as int,
            ).map_values(|p: usize| all[p as int]).push(all[p as int]));
        }
        i = i + 1;
    }
    assert(at@.take(at@.len() as int) =~= at@);
    out
}

fn missing_of(expected: &TimedMap<u64>, captured: &TimedMap<u64>) -> (r: Vec<FundingMiss>)
    requires
        expected.wf(),
        captured.wf(),
    ensures
        miss_entries(r@) == lacking(*expected, *captured),
        r@.len() <= expected.keys@.len(),
{
    let at: Vec<usize> = positions(expected, captured, false);
    let mut out: Vec<FundingMiss> = Vec::new();
    let mut i: usize = 0;
    let ghost all = entries(*expected);
    while i < at.len()
        invariant
            i <= at@.len(),
            out@.len() == i,
            expected.wf(),
            all == entries(*expected),
            forall|j: int| 0 <= j < at@.len() ==> (#[trigger] at@[j]) < expected.keys@.len(),
            miss_entries(out@) == at@.take(i as int).map_values(|p: usize| all[p as int]),
        decreases at@.len() - i,
    {
        let p: usize = at[i];
        let ghost o = out@;
        out.push(
            FundingMiss {
                instrument: expected.keys[p].name.clone(),
                funding_time_ns: expected.keys[p].time,
                rest_rate: expected.values[p],
            },
        );
        proof {
            assert(miss_entries(out@) =~= miss_entries(o).push(all[p as int]));
            assert(at@.take(i + 1) =~= at@.take(i as int).push(p));
            assert(at@.take(i + 1).map_values(|p: usize| all[p as int]) =~= at@.take(
                i as int,
            ).map_values(|p: usize| all[p as int]).push(all[p as int]));
        }
        i = i + 1;
    }
    assert(at@.take(at@.len() as int) =~= at@);
    out
}

fn extra_of(expected: &TimedMap<u64>, captured: &TimedMap<u64>) -> (r: Vec<FundingExtra>)
    requires
        expected.wf(),
        captured.wf(),
    ensures
        extra_entries(r@) == lacking(*captured, *expected),
{
    let at: Vec<usize> = positions(captured, expected, false);
    let mut out: Vec<FundingExtra> = Vec::new();
    let mut i: usize = 0;
    let ghost all = entries(*captured);
    while i < at.len()
        invariant
            i <= at@.len(),
            captured.wf(),
            all == entries(*captured),
            forall|j: int| 0 <= j < at@.len() ==> (#[trigger] at@[j]) < captured.keys@.len(),
            extra_entries(out@) == at@.take(i as int).map_values(|p: usize| all[p as int]),
        decreases at@.len() - i,
    {
        let p: usize = at[i];
        let ghost o = out@;
        out.push(
            FundingExtra {
                instrument: captured.keys[p].name.clone(),
                funding_time_ns: captured.keys[p].time,
                captured_rate: captured.values[p],
            },
        );
        proof {
            assert(extra_entries(out@) =~= extra_entries(o).push(all[p as int]));
            assert(at@.take(i + 1) =~= at@.take(i as int).push(p));
            assert(at@.take(i + 1).map_values(|p: usize| all[p as int]) =~= at@.take(
                i as int,
            ).map_values(|p: usize| all[p as int]).push(all[p as int]));
        }
        i = i + 1;
    }
    assert(at@.take(at@.len() as int) =~= at@);
    out
}

fn flagged_pairs(pairs: &Vec<RateMismatch>, differs: &Vec<bool>) -> (r: Vec<RateMismatch>)
    requires
        differs@.len() == pairs@.len(),
    ensures
        r@ == flagged(pairs@, differs@),
{
    let mut out: Vec<RateMismatch> = Vec::new();
    let mut i: usize = 0;
    assert(out@ =~= pairs@.take(0));
    while i < pairs.len()
        invariant
            i <= pairs@.len(),
            differs@.len() == pairs@.len(),
            out@ == flagged(pairs@.take(i as int), differs@),
        decreases pairs@.len() - i,
    {
        proof {
            let t = pairs@.take(i + 1);
            assert(t.drop_last() =~= pairs@.take(i as int));
            assert(t.last() == pairs@[i as int]);
        }
        if differs[i] {
            out.push(pairs[i].clone());
        }
        i = i + 1;
    }
    assert(pairs@.take(pairs@.len() as int) =~= pairs@);
    out
}

/// The report is the verdict on a day.
pub open spec fn judges(
    r: ReconcileReport,
    expected: TimedMap<u64>,
    captured: TimedMap<u64>,
    pairs: Seq<RateMismatch>,
    differs: Seq<bool>,
    prior_green: u32,
) -> bool {
    &&& r.blocked_reason is None
    &&& r.expected_events == expected.keys@.len()
    &&& r.captured_events == captured.keys@.len()
    &&& miss_entries(r.missing@) == lacking(expected, captured)
    &&& extra_entries(r.extra@) == lacking(captured, expected)
    &&& r.rate_mismatches@ == flagged(pairs, differs)
    &&& r.covered_events == expected.keys@.len() - r.missing@.len()
    &&& r.status == (if r.missing@.len() == 0 && r.extra@.len() == 0 && r.rate_mismatches@.len()
        == 0 {
        ReconcileStatus::Pass
    } else {
        ReconcileStatus::Fail
    })
    &&& r.consecutive_green_days == (if r.status == ReconcileStatus::Pass {
        prior_green + 1
    } else {
        0
    })
}

/// The report of a day. `pairs` are its shared settlements and `differs` says of
/// each whether its two rates disagree.
pub fn build_report(
    venue: &str,
    date: &Date,
    generated_at: &str,
    expected: &TimedMap<u64>,
    captured: &TimedMap<u64>,
    pairs: &Vec<RateMismatch>,
    differs: &Vec<bool>,
    prior_green: u32,
) -> (r: ReconcileReport)
    requires
        date.wf(),
        expected.wf(),
        captured.wf(),
        pair_entries(pairs@) == shared(*expected, *captured),
        differs@.len() == pairs@.len(),
        prior_green <= MAX_GREEN_SCAN_DAYS,
    ensures
        r.schema_version == 1,
        r.venue@ == venue@,
        r.date@ == date.text(),
        r.generated_at@ == generated_at@,
        r.blocked_reason is None,
        r.expected_events == expected.keys@.len(),
        r.captured_events == captured.keys@.len(),
        miss_entries(r.missing@) == lacking(*expected, *captured),
        extra_entries(r.extra@) == lacking(*captured, *expected),
        r.rate_mismatches@ == flagged(pairs@, differs@),
        r.covered_events == expected.keys@.len() - r.missing@.len(),
        r.status == (if r.missing@.len() == 0 && r.extra@.len() == 0 && r.rate_mismatches@.len()
            == 0 {
            ReconcileStatus::Pass
        } else {
            ReconcileStatus::Fail
        }),
        r.consecutive_green_days == (if r.status == ReconcileStatus::Pass {
            prior_green + 1
        } else {
            0
        }),
        judges(r, *expected, *captured, pairs@, differs@, prior_green),
{
    let missing: Vec<FundingMiss> = missing_of(expected, captured);
    let extra: Vec<FundingExtra> = extra_of(expected, captured);
    let rate_mismatches: Vec<RateMismatch> = flagged_pairs(pairs, differs);
    let status: ReconcileStatus = if missing.len() == 0 && extra.len() == 0
        && rate_mismatches.len() == 0 {
        ReconcileStatus::Pass
    } else {
        ReconcileStatus::Fail
    };
    ReconcileReport {
        schema_version: 1,
        venue: venue.to_owned(),
        date: date.to_text(),
        generated_at: generated_at.to_owned(),
        status,
        blocked_reason: None,
        expected_events: expected.keys.len(),
        captured_events: captured.keys.len(),
        covered_events: expected.keys.len() - missing.len(),
        missing,
        extra,
        rate_mismatches,
        consecutive_green_days: if status == ReconcileStatus::Pass {
            prior_green + 1
        } else {
            0
        },
    }
}

/// The report judges nothing and tells why.
pub open spec fn blocks(r: ReconcileReport, expected_events: usize, reason: String) -> bool {
    &&& r.status == ReconcileStatus::Blocked
    &&& r.blocked_reason == Some(reason)
    &&& r.expected_events == expected_events
    &&& r.captured_events == 0
    &&& r.covered_events == 0
    &&& r.missing@.len() == 0
    &&& r.extra@.len() == 0
    &&& r.rate_mismatches@.len() == 0
    &&& r.consecutive_green_days == 0
}

/// A blocked day is neither passed nor failed: it tells its reason, claims nothing
/// covered and nothing wrong, and breaks the row of green days.
pub proof fn law_blocked_days_judge_nothing(
    r: ReconcileReport,
    expected_events: usize,
    reason: String,
)
    requires
        blocks(r, expected_events, reason),
    ensures
        !(r.status is Pass) && !(r.status is Fail),
        r.blocked_reason matches Some(t) && t@ == reason@,
        r.expected_events == expected_events,
        r.captured_events + r.covered_events == 0,
        r.missing@.len() + r.extra@.len() + r.rate_mismatches@.len() == 0,
        r.consecutive_green_days == 0,
{
}

/// The report of a day whose inputs are not there.
pub fn blocked_report(
    venue: &str,
    date: &Date,
    generated_at: &str,
    expected_events: usize,
    reason: String,
) -> (r: ReconcileReport)
    requires
        date.wf(),
    ensures
        r.schema_version == 1,
        r.venue@ == venue@,
        r.date@ == date.text(),
        r.generated_at@ == generated_at@,
        r.status == ReconcileStatus::Blocked,
        r.blocked_reason == Some(reason),
        r.expected_events == expected_events,
        r.captured_events == 0,
        r.covered_events == 0,
        r.missing@.len() == 0,
        r.extra@.len() == 0,
        r.rate_mismatches@.len() == 0,
        r.consecutive_green_days == 0,
        blocks(r, expected_events, reason),
{
    ReconcileReport {
        schema_version: 1,
        venue: venue.to_owned(),
        date: date.to_text(),
        generated_at: generated_at.to_owned(),
        status: ReconcileStatus::Blocked,
        blocked_reason: Some(reason),
        expected_events,
        captured_events: 0,
        covered_events: 0,
        missing: Vec::new(),
        extra: Vec::new(),
        rate_mismatches: Vec::new(),
        consecutive_green_days: 0,
    }
}

proof fn lemma_filter_empty<T>(s: Seq<T>, keep: spec_fn(T) -> bool)
    ensures
        s.filter(keep).len() == 0 <==> forall|i: int| 0 <= i < s.len() ==> !keep(#[trigger] s[i]),
    decreases s.len(),
{
    reveal(Seq::filter);
    if s.len() > 0 {
        lemma_filter_empty(s.drop_last(), keep);
        assert(forall|i: int| 0 <= i < s.len() - 1 ==> s.drop_last()[i] == #[trigger] s[i]);
        if s.filter(keep).len() == 0 {
            assert(!keep(s.last()));
            assert forall|i: int| 0 <= i < s.len() implies !keep(#[trigger] s[i]) by {
                if i < s.len() - 1 {
                    assert(!keep(s.drop_last()[i]));
                }
            }
        } else if forall|i: int| 0 <= i < s.len() ==> !keep(#[trigger] s[i]) {
            assert(!keep(s[s.len() - 1]));
        }
    }
}

proof fn lemma_lacking_empty(a: TimedMap<u64>, b: TimedMap<u64>)
    requires
        a.wf(),
    ensures
        lacking(a, b).len() == 0 <==> a.as_map().dom().subset_of(b.as_map().dom()),
{
    let keep = |e: (Key, u64)| !b.as_map().dom().contains(e.0);
    lemma_filter_empty(entries(a), keep);
    if lacking(a, b).len() == 0 {
        assert forall|k: Key| a.as_map().dom().contains(k) implies b.as_map().dom().contains(
            k,
        ) by {
            let i = key_views(a.keys@).index_of(k);
            assert(entries(a)[i].0 == k);
            assert(!keep(entries(a)[i]));
        }
    }
    if a.as_map().dom().subset_of(b.as_map().dom()) {
        assert forall|i: int| 0 <= i < entries(a).len() implies !keep(#[trigger] entries(a)[i]) by {
            a.lemma_entry(i);
        }
    }
}

proof fn lemma_flagged_empty<T>(s: Seq<T>, flags: Seq<bool>)
    ensures
        flagged(s, flags).len() == 0 <==> forall|i: int| 0 <= i < s.len() ==> !#[trigger] flags[i],
    decreases s.len(),
{
    if s.len() > 0 {
        lemma_flagged_empty(s.drop_last(), flags);
        if flagged(s, flags).len() == 0 {
            assert(!flags[s.len() - 1]);
        } else if forall|i: int| 0 <= i < s.len() ==> !#[trigger] flags[i] {
            assert(!flags[s.len() - 1]);
        }
    }
}

/// A day passes exactly when the capture holds the settlements the venue
/// reports, no more and no less, and no rate disagrees.
pub proof fn law_pass_means_same_settlements(
    expected: TimedMap<u64>,
    captured: TimedMap<u64>,
    pairs: Seq<RateMismatch>,
    differs: Seq<bool>,
)
    requires
        expected.wf(),
        captured.wf(),
        pair_entries(pairs) == shared(expected, captured),
        differs.len() == pairs.len(),
    ensures
        (lacking(expected, captured).len() == 0 && lacking(captured, expected).len() == 0
            && flagged(pairs, differs).len() == 0) <==> (expected.as_map().dom()
            == captured.as_map().dom() && forall|i: int|
            0 <= i < differs.len() ==> !#[trigger] differs[i]),
{
    lemma_lacking_empty(expected, captured);
    lemma_lacking_empty(captured, expected);
    lemma_flagged_empty(pairs, differs);
    if lacking(expected, captured).len() == 0 && lacking(captured, expected).len() == 0 {
        assert(expected.as_map().dom() =~= captured.as_map().dom());
    }
}

/// The flags that are set.
pub open spec fn set_flags(flags: Seq<bool>) -> Seq<bool> {
    flags.filter(|b: bool| b)
}

/// Every flagged element is kept, each once and in its order, and no other: there
/// are as many as flags are set, and the element at a set flag stands behind those
/// of the set flags before it.
pub proof fn law_flagged_are_all_kept<T>(s: Seq<T>, flags: Seq<bool>)
    requires
        flags.len() == s.len(),
    ensures
        flagged(s, flags).len() == set_flags(flags).len(),
        forall|i: int|
            0 <= i < s.len() && #[trigger] flags[i] ==> set_flags(flags.take(i)).len() < flagged(
                s,
                flags,
            ).len() && flagged(s, flags)[set_flags(flags.take(i)).len() as int] == s[i],
    decreases s.len(),
{
    reveal(Seq::filter);
    if s.len() > 0 {
        let n = s.len() - 1;
        let p = s.drop_last();
        let f = flags.drop_last();
        law_flagged_are_all_kept(p, f);
        lemma_flags_beyond(p, flags, f);
        assert forall|i: int| 0 <= i < s.len() && #[trigger] flags[i] implies set_flags(
            flags.take(i),
        ).len() < flagged(s, flags).len() && flagged(s, flags)[set_flags(
            flags.take(i),
        ).len() as int] == s[i] by {
            if i < n {
                assert(f[i] == flags[i]);
                assert(f.take(i) =~= flags.take(i));
            } else {
                assert(flags.take(i) =~= f);
            }
        }
    }
}

/// Flags beyond the elements do not matter.
proof fn lemma_flags_beyond<T>(s: Seq<T>, a: Seq<bool>, b: Seq<bool>)
    requires
        forall|i: int| 0 <= i < s.len() ==> #[trigger] a[i] == b[i],
    ensures
        flagged(s, a) == flagged(s, b),
    decreases s.len(),
{
    if s.len() > 0 {
        lemma_flags_beyond(s.drop_last(), a, b);
        assert(a[s.len() - 1] == b[s.len() - 1]);
    }
}

proof fn lemma_lacking_has(a: TimedMap<u64>, b: TimedMap<u64>, key: Key, rate: u64)
    requires
        a.wf(),
    ensures
        lacking(a, b).contains((key, rate)) <==> a.as_map().contains_pair(key, rate)
            && !b.as_map().dom().contains(key),
{
    let keep = |e: (Key, u64)| !b.as_map().dom().contains(e.0);
    let all = entries(a);
    if lacking(a, b).contains((key, rate)) {
        all.lemma_filter_contains_rev(keep, (key, rate));
        let i = all.index_of((key, rate));
        a.lemma_entry(i);
        let j = lacking(a, b).index_of((key, rate));
        all.lemma_filter_pred(keep, j);
    }
    if a.as_map().contains_pair(key, rate) && !b.as_map().dom().contains(key) {
        let i = key_views(a.keys@).index_of(key);
        a.lemma_entry(i);
        assert(all[i] == (key, rate));
        all.lemma_filter_contains(keep, i);
    }
}

proof fn lemma_shared_has(a: TimedMap<u64>, b: TimedMap<u64>, key: Key, rate: u64)
    requires
        a.wf(),
    ensures
        shared(a, b).contains((key, rate)) <==> a.as_map().contains_pair(key, rate)
            && b.as_map().dom().contains(key),
{
    let keep = |e: (Key, u64)| b.as_map().dom().contains(e.0);
    let all = entries(a);
    if shared(a, b).contains((key, rate)) {
        all.lemma_filter_contains_rev(keep, (key, rate));
        let i = all.index_of((key, rate));
        a.lemma_entry(i);
        let j = shared(a, b).index_of((key, rate));
        all.lemma_filter_pred(keep, j);
    }
    if a.as_map().contains_pair(key, rate) && b.as_map().dom().contains(key) {
        let i = key_views(a.keys@).index_of(key);
        a.lemma_entry(i);
        assert(all[i] == (key, rate));
        all.lemma_filter_contains(keep, i);
    }
}

proof fn lemma_parts(s: Seq<(Key, u64)>, b: Map<Key, u64>)
    ensures
        s.filter(|e: (Key, u64)| b.dom().contains(e.0)).len() + s.filter(
            |e: (Key, u64)| !b.dom().contains(e.0),
        ).len() == s.len(),
    decreases s.len(),
{
    reveal(Seq::filter);
    if s.len() > 0 {
        lemma_parts(s.drop_last(), b);
    }
}

/// A settlement is listed as missing.
pub open spec fn lists_miss(r: ReconcileReport, key: Key, rate: u64) -> bool {
    exists|i: int|
        0 <= i < r.missing@.len() && (#[trigger] r.missing@[i]).funding_time_ns == key.0
            && r.missing@[i].instrument@ == key.1 && r.missing@[i].rest_rate == rate
}

/// A settlement is listed as extra.
pub open spec fn lists_extra(r: ReconcileReport, key: Key, rate: u64) -> bool {
    exists|i: int|
        0 <= i < r.extra@.len() && (#[trigger] r.extra@[i]).funding_time_ns == key.0
            && r.extra@[i].instrument@ == key.1 && r.extra@[i].captured_rate == rate
}

/// A report lists as missing exactly the settlements that the venue reports and
/// the capture lacks, at the venue's rates, and as extra exactly those that the
/// capture holds and the venue does not report, at the captured rates.
pub proof fn law_report_lists_both_differences(
    r: ReconcileReport,
    expected: TimedMap<u64>,
    captured: TimedMap<u64>,
    pairs: Seq<RateMismatch>,
    differs: Seq<bool>,
    prior_green: u32,
    key: Key,
    rate: u64,
)
    requires
        expected.wf(),
        captured.wf(),
        judges(r, expected, captured, pairs, differs, prior_green),
    ensures
        lists_miss(r, key, rate) <==> expected.as_map().contains_pair(key, rate)
            && !captured.as_map().dom().contains(key),
        lists_extra(r, key, rate) <==> captured.as_map().contains_pair(key, rate)
            && !expected.as_map().dom().contains(key),
{
    lemma_lacking_has(expected, captured, key, rate);
    lemma_lacking_has(captured, expected, key, rate);
    let m = miss_entries(r.missing@);
    let x = extra_entries(r.extra@);
    if lists_miss(r, key, rate) {
        let i = choose|i: int|
            0 <= i < r.missing@.len() && (#[trigger] r.missing@[i]).funding_time_ns == key.0
                && r.missing@[i].instrument@ == key.1 && r.missing@[i].rest_rate == rate;
        assert(m[i] == (key, rate));
    }
    if m.contains((key, rate)) {
        let i = m.index_of((key, rate));
        assert(m[i] == (key, rate));
        assert(r.missing@[i].funding_time_ns == key.0);
    }
    if lists_extra(r, key, rate) {
        let i = choose|i: int|
            0 <= i < r.extra@.len() && (#[trigger] r.extra@[i]).funding_time_ns == key.0
                && r.extra@[i].instrument@ == key.1 && r.extra@[i].captured_rate == rate;
        assert(x[i] == (key, rate));
    }
    if x.contains((key, rate)) {
        let i = x.index_of((key, rate));
        assert(x[i] == (key, rate));
        assert(r.extra@[i].funding_time_ns == key.0);
    }
}

/// A report lists a shared settlement as a mismatch exactly where its two rates
/// disagree, all of them and each in its place; and what it lists is that
/// settlement with both rates.
pub proof fn law_report_lists_every_mismatch(
    r: ReconcileReport,
    expected: TimedMap<u64>,
    captured: TimedMap<u64>,
    pairs: Seq<RateMismatch>,
    differs: Seq<bool>,
    prior_green: u32,
)
    requires
        judges(r, expected, captured, pairs, differs, prior_green),
        differs.len() == pairs.len(),
    ensures
        r.rate_mismatches@.len() == set_flags(differs).len(),
        forall|i: int|
            0 <= i < pairs.len() && #[trigger] differs[i] ==> set_flags(differs.take(i)).len()
                < r.rate_mismatches@.len() && r.rate_mismatches@[set_flags(
                differs.take(i),
            ).len() as int] == pairs[i],
{
    law_flagged_are_all_kept(pairs, differs);
}

/// What two sides share is what both know: a settlement is compared exactly where
/// the venue reports it and the capture holds it, and then with the rate of each.
pub proof fn law_shared_is_what_both_know(
    expected: TimedMap<u64>,
    captured: TimedMap<u64>,
    pairs: Seq<RateMismatch>,
    key: Key,
)
    requires
        expected.wf(),
        captured.wf(),
        pair_entries(pairs) == shared(expected, captured),
        forall|i: int|
            0 <= i < pairs.len() ==> (#[trigger] pairs[i]).captured_rate == captured.as_map()[(
                pairs[i].funding_time_ns,
                pairs[i].instrument@,
            )],
    ensures
        (exists|i: int|
            0 <= i < pairs.len() && (#[trigger] pairs[i]).funding_time_ns == key.0
                && pairs[i].instrument@ == key.1) <==> expected.as_map().dom().contains(key)
            && captured.as_map().dom().contains(key),
        forall|i: int|
            0 <= i < pairs.len() ==> {
                let k = ((#[trigger] pairs[i]).funding_time_ns, pairs[i].instrument@);
                expected.as_map().contains_pair(k, pairs[i].rest_rate)
                    && captured.as_map().contains_pair(k, pairs[i].captured_rate)
            },
{
    let p = pair_entries(pairs);
    assert forall|i: int| 0 <= i < pairs.len() implies ({
        let k = ((#[trigger] pairs[i]).funding_time_ns, pairs[i].instrument@);
        expected.as_map().contains_pair(k, pairs[i].rest_rate) && captured.as_map().contains_pair(
            k,
            pairs[i].captured_rate,
        )
    }) by {
        let k = (pairs[i].funding_time_ns, pairs[i].instrument@);
        assert(p[i] == (k, pairs[i].rest_rate));
        lemma_shared_has(expected, captured, k, pairs[i].rest_rate);
        assert(p.contains(p[i]));
    }
    if expected.as_map().dom().contains(key) && captured.as_map().dom().contains(key) {
        let rate = expected.as_map()[key];
        lemma_shared_has(expected, captured, key, rate);
        let i = p.index_of((key, rate));
        assert(p[i] == (key, rate));
        assert(pairs[i].funding_time_ns == key.0);
    }
}

/// The counts of a report balance: what is expected is covered or missing, and what
/// is covered is what both sides share.
pub proof fn law_report_balances(
    r: ReconcileReport,
    expected: TimedMap<u64>,
    captured: TimedMap<u64>,
    pairs: Seq<RateMismatch>,
    differs: Seq<bool>,
    prior_green: u32,
)
    requires
        judges(r, expected, captured, pairs, differs, prior_green),
        pair_entries(pairs) == shared(expected, captured),
    ensures
        r.expected_events == r.covered_events + r.missing@.len(),
        r.covered_events == pairs.len(),
        r.expected_events == expected.keys@.len(),
        r.captured_events == captured.keys@.len(),
{
    lemma_parts(entries(expected), captured.as_map());
    assert(miss_entries(r.missing@).len() == r.missing@.len());
    assert(pair_entries(pairs).len() == pairs.len());
}

/// A day passes exactly where both sides know the same settlements and no rate
/// disagrees; else it fails. A pass adds itself to the row of green days before
/// it, a fail begins anew.
pub proof fn law_verdict_on_a_day(
    r: ReconcileReport,
    expected: TimedMap<u64>,
    captured: TimedMap<u64>,
    pairs: Seq<RateMismatch>,
    differs: Seq<bool>,
    prior_green: u32,
)
    requires
        expected.wf(),
        captured.wf(),
        judges(r, expected, captured, pairs, differs, prior_green),
        pair_entries(pairs) == shared(expected, captured),
        differs.len() == pairs.len(),
    ensures
        r.status == ReconcileStatus::Pass <==> (forall|key: Key| #[trigger]
            expected.as_map().dom().contains(key) <==> captured.as_map().dom().contains(key)) && (
        forall|i: int| 0 <= i < differs.len() ==> !#[trigger] differs[i]),
        r.status == ReconcileStatus::Pass || r.status == ReconcileStatus::Fail,
        r.status == ReconcileStatus::Pass ==> r.consecutive_green_days == prior_green + 1,
        r.status == ReconcileStatus::Fail ==> r.consecutive_green_days == 0,
        r.blocked_reason is None,
{
    law_pass_means_same_settlements(expected, captured, pairs, differs);
    assert(miss_entries(r.missing@).len() == r.missing@.len());
    assert(extra_entries(r.extra@).len() == r.extra@.len());
    if forall|key: Key| #[trigger]
        expected.as_map().dom().contains(key) <==> captured.as_map().dom().contains(key) {
        assert(expected.as_map().dom() =~= captured.as_map().dom());
    }
}

/// What a report lists comes in the order of time and instrument.
pub proof fn law_misses_are_in_order(a: TimedMap<u64>, b: TimedMap<u64>)
    requires
        a.wf(),
    ensures
        keys_ascend(lacking(a, b).map_values(|e: (Key, u64)| e.0)),
{
    lemma_filter_ascends(entries(a), |e: (Key, u64)| !b.as_map().dom().contains(e.0));
    assert(forall|i: int, j: int|
        0 <= i < j < a.keys@.len() ==> crate::timed::key_lt(
            #[trigger] key_views(a.keys@)[i],
            #[trigger] key_views(a.keys@)[j],
        ));
    assert forall|i: int, j: int| 0 <= i < j < entries(a).len() implies crate::timed::key_lt(
        #[trigger] entries(a)[i].0,
        #[trigger] entries(a)[j].0,
    ) by {
        assert(crate::timed::key_lt(key_views(a.keys@)[i], key_views(a.keys@)[j]));
    }
}

proof fn lemma_filter_ascends(s: Seq<(Key, u64)>, keep: spec_fn((Key, u64)) -> bool)
    ensures
        (forall|i: int, j: int|
            0 <= i < j < s.len() ==> crate::timed::key_lt(#[trigger] s[i].0, #[trigger] s[j].0))
            ==> keys_ascend(s.filter(keep).map_values(|e: (Key, u64)| e.0)),
        forall|i: int| 0 <= i < s.filter(keep).len() ==> s.contains(#[trigger] s.filter(keep)[i]),
    decreases s.len(),
{
    reveal(Seq::filter);
    if s.len() > 0 {
        let d = s.drop_last();
        lemma_filter_ascends(d, keep);
        let f = s.filter(keep);
        let g = d.filter(keep);
        assert forall|i: int| 0 <= i < f.len() implies s.contains(#[trigger] f[i]) by {
            if i < g.len() {
                assert(d.contains(g[i]));
                let j = d.index_of(g[i]);
                assert(s[j] == f[i]);
            } else {
                assert(s[s.len() - 1] == f[i]);
            }
        }
        if forall|i: int, j: int|
            0 <= i < j < s.len() ==> crate::timed::key_lt(#[trigger] s[i].0, #[trigger] s[j].0) {
            assert forall|i: int, j: int| 0 <= i < j < d.len() implies crate::timed::key_lt(
                #[trigger] d[i].0,
                #[trigger] d[j].0,
            ) by {
                assert(crate::timed::key_lt(s[i].0, s[j].0));
            }
            let fk = f.map_values(|e: (Key, u64)| e.0);
            let gk = g.map_values(|e: (Key, u64)| e.0);
            assert forall|i: int, j: int| 0 <= i < j < fk.len() implies crate::timed::key_lt(
                #[trigger] fk[i],
                #[trigger] fk[j],
            ) by {
                if j < gk.len() {
                    assert(crate::timed::key_lt(gk[i], gk[j]));
                } else {
                    assert(d.contains(g[i]));
                    let p = d.index_of(g[i]);
                    assert(crate::timed::key_lt(s[p].0, s[s.len() - 1].0));
                }
            }
        }
    }
}

// ---------------------------------------------------------------------------
// The two sides of the comparison
// ---------------------------------------------------------------------------

/// The expected settlements with one more that the venue reports.
pub open spec fn expected_with(
    expected: Map<Key, u64>,
    symbol: Seq<char>,
    funding_time_ms: u64,
    rate: u64,
) -> Map<Key, u64> {
    expected.insert(((funding_time_ms * 1_000_000) as u64, lowercase(symbol)), rate)
}

/// A settlement the venue reports is expected at its own instant, in nanoseconds,
/// under the symbol in lower case, at its rate; and what was expected elsewhere
/// stays.
pub proof fn law_reported_settlement_is_expected(
    expected: Map<Key, u64>,
    symbol: Seq<char>,
    funding_time_ms: u64,
    rate: u64,
    key: Key,
)
    requires
        funding_time_ms <= 18_446_744_073_709,
    ensures
        key.0 % 1_000_000 == 0 && key.0 / 1_000_000 == funding_time_ms && key.1 == lowercase(symbol)
            ==> expected_with(expected, symbol, funding_time_ms, rate).contains_pair(key, rate),
        !(key.0 % 1_000_000 == 0 && key.0 / 1_000_000 == funding_time_ms && key.1 == lowercase(
            symbol,
        )) ==> expected_with(expected, symbol, funding_time_ms, rate).dom().contains(key)
            == expected.dom().contains(key) && (expected.dom().contains(key) ==> expected_with(
            expected,
            symbol,
            funding_time_ms,
            rate,
        )[key] == expected[key]),
{
}

/// A settlement the venue reports.
pub fn expect_point(
    expected: &mut TimedMap<u64>,
    symbol: &str,
    funding_time_ms: u64,
    rate: u64,
)
    requires
        old(expected).wf(),
        funding_time_ms * 1_000_000 <= u64::MAX,
    ensures
        final(expected).wf(),
        final(expected).as_map() == old(expected).as_map().insert(
            ((funding_time_ms * 1_000_000) as u64, lowercase(symbol@)),
            rate,
        ),
        final(expected).as_map() == expected_with(
            old(expected).as_map(),
            symbol@,
            funding_time_ms,
            rate,
        ),
{
    expected.put(funding_time_ms * 1_000_000, to_lower(symbol), rate);
}

/// The captured settlements with one row more.
pub open spec fn captured_with(
    captured: Map<Key, u64>,
    row: (Key, u64),
    start_ns: u64,
    end_ns: u64,
) -> Map<Key, u64> {
    if start_ns <= row.0.0 < end_ns {
        captured.insert(row.0, row.1)
    } else {
        captured
    }
}

/// The captured settlements of a day after all the rows that were read.
pub open spec fn captured_from(rows: Seq<(Key, u64)>, start_ns: u64, end_ns: u64) -> Map<Key, u64>
    decreases rows.len(),
{
    if rows.len() == 0 {
        Map::empty()
    } else {
        captured_with(
            captured_from(rows.drop_last(), start_ns, end_ns),
            rows.last(),
            start_ns,
            end_ns,
        )
    }
}

/// A row says this of a settlement, and no later row speaks of it.
pub open spec fn last_word(rows: Seq<(Key, u64)>, key: Key, rate: u64) -> bool {
    exists|i: int|
        0 <= i < rows.len() && #[trigger] rows[i] == (key, rate) && forall|j: int|
            i < j < rows.len() ==> (#[trigger] rows[j]).0 != key
}

/// Whatever was read, and however often, each settlement of the day counts once,
/// at the rate it was read last; what lies outside the day does not count.
pub proof fn law_settlements_count_once(
    rows: Seq<(Key, u64)>,
    start_ns: u64,
    end_ns: u64,
    key: Key,
    rate: u64,
)
    ensures
        captured_from(rows, start_ns, end_ns).contains_pair(key, rate) <==> start_ns <= key.0
            < end_ns && last_word(rows, key, rate),
    decreases rows.len(),
{
    if rows.len() > 0 {
        let before = rows.drop_last();
        let n = rows.len() - 1;
        law_settlements_count_once(before, start_ns, end_ns, key, rate);
        if rows.last().0 == key {
            if last_word(rows, key, rate) {
                let i = choose|i: int|
                    0 <= i < rows.len() && #[trigger] rows[i] == (key, rate) && forall|j: int|
                        i < j < rows.len() ==> (#[trigger] rows[j]).0 != key;
                assert(rows[n].0 == key);
            }
            if rows.last().1 == rate {
                assert(rows[n] == (key, rate));
            }
        } else {
            if last_word(rows, key, rate) {
                let i = choose|i: int|
                    0 <= i < rows.len() && #[trigger] rows[i] == (key, rate) && forall|j: int|
                        i < j < rows.len() ==> (#[trigger] rows[j]).0 != key;
                assert(before[i] == (key, rate));
                assert forall|j: int| i < j < before.len() implies (#[trigger] before[j]).0
                    != key by {
                    assert(rows[j].0 != key);
                }
            }
            if last_word(before, key, rate) {
                let i = choose|i: int|
                    0 <= i < before.len() && #[trigger] before[i] == (key, rate) && forall|j: int|
                        i < j < before.len() ==> (#[trigger] before[j]).0 != key;
                assert(rows[i] == (key, rate));
                assert forall|j: int| i < j < rows.len() implies (#[trigger] rows[j]).0
                    != key by {
                    if j < n {
                        assert(before[j].0 != key);
                    }
                }
            }
        }
    }
}

/// A captured settlement, which counts if it lies in the day; of two the later
/// reading stands.
pub fn capture_row(
    captured: &mut TimedMap<u64>,
    instrument: &str,
    funding_time: u64,
    rate: u64,
    start_ns: u64,
    end_ns: u64,
)
    requires
        old(captured).wf(),
    ensures
        final(captured).wf(),
        final(captured).as_map() == captured_with(
            old(captured).as_map(),
            ((funding_time, instrument@), rate),
            start_ns,
            end_ns,
        ),
{
    if funding_time < start_ns || funding_time >= end_ns {
        return;
    }
    captured.put(funding_time, instrument.to_owned(), rate);
}

/// `r` is the settlement of the day that the event holds.
pub open spec fn settles(
    e: Event,
    start_ns: u64,
    end_ns: u64,
    r: Option<(String, u64, Decimal)>,
) -> bool {
    match e.payload {
        Payload::Market(MarketPayload::FundingRateRealized { rate, funding_time, .. }) => if
            start_ns <= funding_time < end_ns && e.instrument is Some {
            r matches Some((i, t, d)) && Some(i@) == instrument_view(e.instrument) && t
                == funding_time && d == rate
        } else {
            r is None
        },
        _ => r is None,
    }
}

/// An event of the log settles exactly where it is realized funding of an
/// instrument at an instant of the day, its first included and its last excluded;
/// and then it settles that instrument, then, at that rate.
pub proof fn law_realized_funding_settles(
    e: Event,
    start_ns: u64,
    end_ns: u64,
    r: Option<(String, u64, Decimal)>,
)
    requires
        settles(e, start_ns, end_ns, r),
    ensures
        r is Some <==> e.instrument is Some && e.payload is Market && (
        e.payload->Market_0 matches MarketPayload::FundingRateRealized { funding_time, .. }
            && start_ns <= funding_time && funding_time < end_ns),
        r matches Some((i, t, d)) ==> i@ == e.instrument->0.value@ && (
        e.payload->Market_0 matches MarketPayload::FundingRateRealized { rate, funding_time, .. }
            && t == funding_time && d == rate),
{
}

/// The settlement an event of the log holds, if it holds one that lies in the
/// day and names its instrument.
pub fn settlement_of(event: &Event, start_ns: u64, end_ns: u64) -> (r: Option<
    (String, u64, Decimal),
>)
    ensures
        match event.payload {
            Payload::Market(MarketPayload::FundingRateRealized { rate, funding_time, .. }) => if
                start_ns <= funding_time < end_ns && event.instrument is Some {
                r matches Some((i, t, d)) && Some(i@) == instrument_view(event.instrument) && t
                    == funding_time && d == rate
            } else {
                r is None
            },
            _ => r is None,
        },
        settles(*event, start_ns, end_ns, r),
{
    match &event.payload {
        Payload::Market(MarketPayload::FundingRateRealized { rate, funding_time, .. }) => {
            if *funding_time < start_ns || *funding_time >= end_ns {
                return None;
            }
            match &event.instrument {
                Some(id) => Some((id.value.clone(), *funding_time, *rate)),
                None => None,
            }
        },
        _ => None,
    }
}

// ---------------------------------------------------------------------------
// Reports and markers on disk
// ---------------------------------------------------------------------------

/// Where a day's reconciliation reads and writes, and the day's bounds.
#[derive(Debug)]
pub struct ReconcilePlan {
    pub reports_dir: String,
    pub report_path: String,
    pub day_dir: String,
    pub next_dir: String,
    pub next_wal: String,
    pub start_ns: u64,
    pub end_ns: u64,
}

/// Whether a signed number of nanoseconds reaches the midnight of the day with
/// the number `n`.
pub open spec fn in_nanos(n: int) -> bool {
    i64::MIN <= n * DAY_NS <= i64::MAX
}

pub open spec fn report_file(data_dir: Seq<char>, venue: Seq<char>, date: Date) -> Seq<char> {
    path_join(path_join(path_join(data_dir, "meta/reconciliation"@), venue), date.text() + ".json"@)
}

/// The plan for a day.
pub fn plan(data_dir: &str, venue: &str, date: &Date) -> (r: ReconcilePlan)
    requires
        date.wf(),
        day_exists(date.number() + 1),
        in_nanos(date.number()),
        in_nanos(date.number() + 1),
    ensures
        r.reports_dir@ == path_join(path_join(data_dir@, "meta/reconciliation"@), venue@),
        r.report_path@ == report_file(data_dir@, venue@, *date),
        r.day_dir@ == path_join(
            path_join(path_join(data_dir@, "parquet"@), venue@),
            date.text(),
        ),
        exists|next: Date| #[trigger]
            next.wf() && next.number() == date.number() + 1 && r.next_dir@ == path_join(
                path_join(path_join(data_dir@, "parquet"@), venue@),
                next.text(),
            ) && r.next_wal@ == path_join(
                path_join(path_join(data_dir@, "wal"@), venue@),
                next.text() + ".wal"@,
            ),
        r.start_ns == unsigned(date.number() * DAY_NS),
        r.end_ns == unsigned((date.number() + 1) * DAY_NS),
{
    let next: Date = date.next_day();
    let reports_dir: String = join(join(data_dir, "meta/reconciliation").as_str(), venue);
    let tables: String = join(join(data_dir, "parquet").as_str(), venue);
    let logs: String = join(join(data_dir, "wal").as_str(), venue);
    let report_path: String = join(
        reports_dir.as_str(),
        date.to_text().concat(".json").as_str(),
    );
    assert(next.wf());
    ReconcilePlan {
        reports_dir,
        report_path,
        day_dir: join(tables.as_str(), date.to_text().as_str()),
        next_dir: join(tables.as_str(), next.to_text().as_str()),
        next_wal: join(logs.as_str(), next.to_text().concat(".wal").as_str()),
        start_ns: date.day_ns(),
        end_ns: next.day_ns(),
    }
}

/// A report is there and was not asked to be made again.
pub open spec fn stands(exists_already: bool, force: bool) -> bool {
    exists_already && !force
}

/// A report that is there is made again only where that is forced; one that is
/// not there is made either way.
pub proof fn law_reports_are_made_once(force: bool)
    ensures
        stands(true, false),
        !stands(true, true),
        !stands(false, force),
{
}

/// Whether an existing report is honored.
pub fn honors_existing(exists_already: bool, force: bool) -> (r: bool)
    ensures
        r == (exists_already && !force),
        r == stands(exists_already, force),
{
    exists_already && !force
}

/// What was found where a day's marker should be.
#[derive(Debug)]
pub enum Marker {
    Missing,
    /// Not a document; why.
    Unreadable(String),
    /// The status it gives, if that is text, and the value as it is shown.
    Status { value: Option<String>, shown: String },
}

/// Why a day cannot be used; nothing where it is published with a passing
/// report.
pub fn publish_gate(marker: &Marker, marker_path: &str, day_dir: &str) -> (r: Option<String>)
    ensures
        match marker {
            Marker::Missing => r matches Some(t) && t@ == "not published: "@ + marker_path@
                + " missing"@,
            Marker::Unreadable(e) => r matches Some(t) && t@ == "unreadable QA report: "@ + e@,
            Marker::Status { value, shown } => if opt_view(*value) == Some("pass"@) {
                r is None
            } else {
                r matches Some(t) && t@ == "QA status "@ + shown@ + " for "@ + day_dir@
            },
        },
{
    match marker {
        Marker::Missing => Some(
            "not published: ".to_owned().concat(marker_path).concat(" missing"),
        ),
        Marker::Unreadable(e) => Some("unreadable QA report: ".to_owned().concat(e.as_str())),
        Marker::Status { value, shown } => {
            let passed: bool = match value {
                Some(v) => same(v.as_str(), "pass"),
                None => false,
            };
            if passed {
                None
            } else {
                Some("QA status ".to_owned().concat(shown.as_str()).concat(" for ").concat(day_dir))
            }
        },
    }
}

/// A status as it stands in a report.
pub open spec fn status_text(s: ReconcileStatus) -> Seq<char> {
    match s {
        ReconcileStatus::Pass => "pass"@,
        ReconcileStatus::Fail => "fail"@,
        ReconcileStatus::Blocked => "blocked"@,
    }
}

pub fn status_str(s: ReconcileStatus) -> (r: &'static str)
    ensures
        r@ == status_text(s),
{
    match s {
        ReconcileStatus::Pass => "pass",
        ReconcileStatus::Fail => "fail",
        ReconcileStatus::Blocked => "blocked",
    }
}

/// The message for a status no report has.
pub open spec fn unknown_status(status: Option<Seq<char>>, path: Seq<char>) -> Seq<char> {
    "unknown report status "@ + (match status {
        Some(s) => "Some("@ + quoted(s) + ")"@,
        None => "None"@,
    }) + " in "@ + path
}

/// The status a report gives.
pub fn report_status(status: Option<&str>, path: &str) -> (r: Result<
    ReconcileStatus,
    BackfillError,
>)
    ensures
        match r {
            Ok(s) => status matches Some(t) && t@ == status_text(s),
            Err(e) => (status matches Some(t) ==> t@ != "pass"@ && t@ != "fail"@ && t@
                != "blocked"@) && (e matches BackfillError::Parse(m) && m@ == unknown_status(
                match status {
                    Some(t) => Some(t@),
                    None => None,
                },
                path@,
            )),
        },
{
    let shown: String = match status {
        Some(t) => {
            if same(t, "pass") {
                return Ok(ReconcileStatus::Pass);
            }
            if same(t, "fail") {
                return Ok(ReconcileStatus::Fail);
            }
            if same(t, "blocked") {
                return Ok(ReconcileStatus::Blocked);
            }
            "Some(".to_owned().concat(quote(t).as_str()).concat(")")
        },
        None => "None".to_owned(),
    };
    Err(
        BackfillError::Parse(
            "unknown report status ".to_owned().concat(shown.as_str()).concat(" in ").concat(path),
        ),
    )
}

/// What `serde_json::from_slice` reads in a document, of the value that stands
/// under a key at its top: the text, if the value is text, and the value as
/// `Debug` shows it. Or the message of the error, where it is no document.
pub uninterp spec fn json_field(raw: Seq<u8>, key: Seq<char>) -> Result<
    (Option<Seq<char>>, Seq<char>),
    Seq<char>,
>;

/// `serde_json::from_slice` into a `serde_json::Value`, indexed by a key. Where
/// the document is no object or lacks the key, the value is null. The grammar of
/// the documents is not spelled out here, the result only gets a name.
#[verifier::external_body]
fn read_field(raw: &[u8], key: &str) -> (r: Result<(Option<String>, String), String>)
    ensures
        json_field(raw@, key@) == (match r {
            Ok(p) => Ok((opt_view(p.0), p.1@)),
            Err(e) => Err(e@),
        }),
{
    match serde_json::from_slice::<serde_json::Value>(raw) {
        Ok(v) => Ok((v[key].as_str().map(str::to_string), format!("{:?}", v[key]))),
        Err(e) => Err(e.to_string()),
    }
}

/// A marker with these bytes publishes its day.
pub open spec fn passes(raw: Option<Seq<u8>>) -> bool {
    raw matches Some(b) && json_field(b, "status"@) matches Ok(p) && p.0 == Some("pass"@)
}

/// Why a day cannot be used, going by the bytes of its marker.
pub open spec fn gate_reason(
    raw: Option<Seq<u8>>,
    marker_path: Seq<char>,
    day_dir: Seq<char>,
) -> Option<Seq<char>> {
    if passes(raw) {
        None
    } else {
        Some(
            match raw {
                None => "not published: "@ + marker_path + " missing"@,
                Some(b) => match json_field(b, "status"@) {
                    Err(e) => "unreadable QA report: "@ + e,
                    Ok(p) => "QA status "@ + p.1 + " for "@ + day_dir,
                },
            },
        )
    }
}

/// The bytes of a file, if it was there to be read.
pub open spec fn bytes_view(raw: Option<&[u8]>) -> Option<Seq<u8>> {
    match raw {
        Some(b) => Some(b@),
        None => None,
    }
}

/// Why a day cannot be used, going by the bytes of its marker if it has one;
/// nothing where it is published with a passing report.
pub fn gate_of(raw: Option<&[u8]>, marker_path: &str, day_dir: &str) -> (r: Option<String>)
    ensures
        opt_view(r) == gate_reason(bytes_view(raw), marker_path@, day_dir@),
        r is None <==> passes(bytes_view(raw)),
{
    let marker: Marker = match raw {
        None => Marker::Missing,
        Some(b) => match read_field(b, "status") {
            Err(e) => Marker::Unreadable(e),
            Ok((value, shown)) => Marker::Status { value, shown },
        },
    };
    publish_gate(&marker, marker_path, day_dir)
}

/// The status a report with these bytes gives, if it gives one.
pub open spec fn status_in(raw: Seq<u8>) -> Option<ReconcileStatus> {
    match json_field(raw, "status"@) {
        Ok((Some(t), _)) => if t == "pass"@ {
            Some(ReconcileStatus::Pass)
        } else if t == "fail"@ {
            Some(ReconcileStatus::Fail)
        } else if t == "blocked"@ {
            Some(ReconcileStatus::Blocked)
        } else {
            None
        },
        _ => None,
    }
}

/// The status the bytes of a report give.
pub fn status_of(raw: &[u8], path: &str) -> (r: Result<ReconcileStatus, BackfillError>)
    ensures
        match r {
            Ok(s) => status_in(raw@) == Some(s),
            Err(e) => status_in(raw@) is None && (e matches BackfillError::Parse(m) && m@ == (
            match json_field(raw@, "status"@) {
                Ok(p) => unknown_status(p.0, path@),
                Err(e) => e,
            })),
        },
{
    match read_field(raw, "status") {
        Err(e) => Err(BackfillError::Parse(e)),
        Ok((value, _)) => {
            proof {
                lemma_status_texts_differ();
            }
            report_status(
                match &value {
                    Some(t) => Some(t.as_str()),
                    None => None,
                },
                path,
            )
        },
    }
}

proof fn lemma_status_texts_differ()
    ensures
        "pass"@ != "fail"@,
        "pass"@ != "blocked"@,
        "fail"@ != "blocked"@,
{
    reveal_strlit("pass");
    reveal_strlit("fail");
    reveal_strlit("blocked");
    assert("pass"@[0] == 'p');
    assert("fail"@[0] == 'f');
    assert("blocked"@[0] == 'b');
}

/// What a day's captured settlements are read from.
#[derive(Debug, Clone, Copy, PartialEq, Eq, Structural)]
pub enum Source {
    /// The day's own table.
    DayTable,
    /// The table of the day after.
    NextTable,
    /// The log of the day after.
    NextLog,
}

/// The captured set of a published day is read from its own table, from the next
/// day's table where that day is published, and from the next day's log where
/// there is one, in this order.
pub open spec fn sources_of(next: Option<Seq<u8>>, next_log: bool) -> Seq<Source> {
    seq![Source::DayTable] + (if passes(next) {
        seq![Source::NextTable]
    } else {
        seq![]
    }) + (if next_log {
        seq![Source::NextLog]
    } else {
        seq![]
    })
}

/// What the captured set of a day is read from, going by the markers of the day
/// and of the next, and by whether the next day has a log. A day that is not
/// published is blocked; why.
pub fn sources(
    day: Option<&[u8]>,
    next: Option<&[u8]>,
    next_log: bool,
    marker_path: &str,
    day_dir: &str,
) -> (r: Result<Vec<Source>, String>)
    ensures
        r is Ok <==> passes(bytes_view(day)),
        match r {
            Ok(s) => s@ == sources_of(bytes_view(next), next_log),
            Err(reason) => gate_reason(bytes_view(day), marker_path@, day_dir@) == Some(reason@),
        },
{
    if let Some(reason) = gate_of(day, marker_path, day_dir) {
        return Err(reason);
    }
    let mut s: Vec<Source> = vec![Source::DayTable];
    // Only whether the next day is published counts, not why it is not.
    if gate_of(next, "", "").is_none() {
        s.push(Source::NextTable);
    }
    if next_log {
        s.push(Source::NextLog);
    }
    assert(s@ =~= sources_of(bytes_view(next), next_log));
    Ok(s)
}

/// A report's status reads back.
pub proof fn law_statuses_read_back(a: ReconcileStatus, b: ReconcileStatus)
    requires
        status_text(a) == status_text(b),
    ensures
        a == b,
{
    lemma_status_texts_differ();
}

/// A status is written as it is spelled in a report.
pub proof fn law_statuses_are_spelled(s: ReconcileStatus)
    ensures
        status_text(s) == "pass"@ <==> s is Pass,
        status_text(s) == "fail"@ <==> s is Fail,
        status_text(s) == "blocked"@ <==> s is Blocked,
{
    lemma_status_texts_differ();
}

/// The days that passed in a row before a day, looked up one by one backwards; a
/// day without a report breaks the row.
#[derive(Debug, Clone, Copy, PartialEq, Eq, Structural)]
pub struct GreenScan {
    pub days: u32,
    /// Another day is to be looked up.
    pub open: bool,
}

/// The day has a report, and it passed.
pub open spec fn green(status: Option<ReconcileStatus>) -> bool {
    status == Some(ReconcileStatus::Pass)
}

impl GreenScan {
    pub open spec fn wf(self) -> bool {
        self.open ==> self.days < MAX_GREEN_SCAN_DAYS
    }

    /// The scan after one more day back. Once a row is broken, or as long as is
    /// looked back, nothing is counted any more.
    pub open spec fn after(self, status: Option<ReconcileStatus>) -> GreenScan {
        if !self.open {
            self
        } else if green(status) {
            GreenScan {
                days: (self.days + 1) as u32,
                open: self.days + 1 < MAX_GREEN_SCAN_DAYS,
            }
        } else {
            GreenScan { days: self.days, open: false }
        }
    }

    pub fn new() -> (r: GreenScan)
        ensures
            r.wf(),
            r == (GreenScan { days: 0, open: true }),
    {
        GreenScan { days: 0, open: true }
    }

    /// The next day back passed, or did not; whether another is to be looked
    /// up.
    pub fn next(&mut self, status: Option<ReconcileStatus>) -> (more: bool)
        requires
            old(self).wf(),
        ensures
            final(self).wf(),
            *final(self) == old(self).after(status),
            more == final(self).open,
    {
        if self.open {
            match status {
                Some(ReconcileStatus::Pass) => {
                    self.days = self.days + 1;
                    self.open = self.days < MAX_GREEN_SCAN_DAYS;
                },
                _ => {
                    self.open = false;
                },
            }
        }
        self.open
    }

    /// The next day back, going by the bytes of its report if it has one; a
    /// report that gives no status is as none.
    pub fn next_report(&mut self, raw: Option<&[u8]>, path: &str) -> (more: bool)
        requires
            old(self).wf(),
        ensures
            final(self).wf(),
            *final(self) == old(self).after(reported(bytes_view(raw))),
            more == final(self).open,
    {
        let status: Option<ReconcileStatus> = match raw {
            Some(b) => match status_of(b, path) {
                Ok(s) => Some(s),
                Err(_) => None,
            },
            None => None,
        };
        self.next(status)
    }
}

/// The status a day's report gives, if the day has a report that gives one.
pub open spec fn reported(raw: Option<Seq<u8>>) -> Option<ReconcileStatus> {
    match raw {
        Some(b) => status_in(b),
        None => None,
    }
}

/// A scan over the days back, the latest first.
pub open spec fn scanned(history: Seq<Option<ReconcileStatus>>) -> GreenScan
    decreases history.len(),
{
    if history.len() == 0 {
        GreenScan { days: 0, open: true }
    } else {
        scanned(history.drop_last()).after(history.last())
    }
}

/// A scan counts the leading run of `n` passing days: up to the first other day
/// or as far as is looked back, whatever lies beyond.
pub proof fn law_scan_counts_leading_passes(history: Seq<Option<ReconcileStatus>>, n: nat)
    requires
        n <= history.len(),
        n <= MAX_GREEN_SCAN_DAYS,
        forall|i: int| 0 <= i < n ==> green(#[trigger] history[i]),
        n < history.len() && n < MAX_GREEN_SCAN_DAYS ==> !green(history[n as int]),
    ensures
        scanned(history) == (GreenScan {
            days: n as u32,
            open: n == history.len() && n < MAX_GREEN_SCAN_DAYS,
        }),
    decreases history.len(),
{
    if history.len() > 0 {
        let before = history.drop_last();
        if n == history.len() {
            assert(green(history[n - 1]));
            law_scan_counts_leading_passes(before, (n - 1) as nat);
        } else {
            law_scan_counts_leading_passes(before, n);
        }
    }
}

/// The row of green days is cut by the first day that did not pass: with `n`
/// passing reports in a row before one that is missing, failed or blocked, it is
/// `n`, up to four hundred.
pub proof fn law_streak_is_cut_by_the_first_other_day(
    history: Seq<Option<ReconcileStatus>>,
    n: nat,
)
    requires
        n < history.len(),
        n <= 400,
        forall|i: int| 0 <= i < n ==> #[trigger] history[i] == Some(ReconcileStatus::Pass),
        n < 400 ==> history[n as int] != Some(ReconcileStatus::Pass),
    ensures
        scanned(history).days == n,
        !scanned(history).open,
{
    assert forall|i: int| 0 <= i < n implies green(#[trigger] history[i]) by {}
    law_scan_counts_leading_passes(history, n);
}

/// A report has the status that its bytes spell: `pass`, `fail` or `blocked`, and
/// none where they spell anything else.
pub proof fn law_status_is_as_spelled(raw: Seq<u8>)
    ensures
        status_in(raw) == Some(ReconcileStatus::Pass) <==> (json_field(raw, "status"@) matches Ok(p)
            && p.0 == Some("pass"@)),
        status_in(raw) == Some(ReconcileStatus::Fail) <==> (json_field(raw, "status"@) matches Ok(p)
            && p.0 == Some("fail"@)),
        status_in(raw) == Some(ReconcileStatus::Blocked) <==> (json_field(
            raw,
            "status"@,
        ) matches Ok(p) && p.0 == Some("blocked"@)),
        json_field(raw, "status"@) is Err ==> status_in(raw) is None,
{
    lemma_status_texts_differ();
}

/// Only a marker that spells `pass` publishes a day, and no reason is given only
/// then; a day without a marker is not published.
pub proof fn law_only_a_passing_marker_publishes(
    raw: Option<Seq<u8>>,
    marker_path: Seq<char>,
    day_dir: Seq<char>,
)
    ensures
        passes(raw) <==> raw is Some && (json_field(raw->0, "status"@) matches Ok(p) && p.0 == Some(
            "pass"@,
        )),
        gate_reason(raw, marker_path, day_dir) is None <==> passes(raw),
        raw is None ==> !passes(raw),
{
}

/// A published day is always read from its own table, and first; from the next
/// day's table exactly where that day is published; from the next day's log
/// exactly where there is one; and from nothing twice.
pub proof fn law_late_captures_are_looked_for(next: Option<Seq<u8>>, next_log: bool)
    ensures
        sources_of(next, next_log).len() >= 1,
        sources_of(next, next_log)[0] == Source::DayTable,
        sources_of(next, next_log).contains(Source::NextTable) <==> passes(next),
        sources_of(next, next_log).contains(Source::NextLog) <==> next_log,
        sources_of(next, next_log).no_duplicates(),
{
    let s = sources_of(next, next_log);
    if passes(next) {
        assert(s[1] == Source::NextTable);
    }
    if next_log {
        assert(s[s.len() - 1] == Source::NextLog);
    }
}

/// The exit code of a verdict.
pub open spec fn exit_of(status: ReconcileStatus) -> u8 {
    if status == ReconcileStatus::Pass {
        0u8
    } else {
        1u8
    }
}

/// A run succeeds where the day passed, and only there: neither a day that failed
/// nor one that could not be judged is a success.
pub proof fn law_only_a_pass_exits_with_zero(status: ReconcileStatus)
    ensures
        exit_of(status) == 0 <==> status is Pass,
        status is Fail || status is Blocked ==> exit_of(status) == 1,
{
}

/// How a run reports: zero for a pass, one for anything else.
pub fn exit_code(status: ReconcileStatus) -> (r: u8)
    ensures
        r == (if status == ReconcileStatus::Pass {
            0u8
        } else {
            1u8
        }),
        r == exit_of(status),
{
    match status {
        ReconcileStatus::Pass => 0,
        _ => 1,
    }
}

} // verus!
