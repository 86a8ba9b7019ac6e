//! Month-partitioned funding history, for any venue.
use super::month::{falls_in, Month};
use super::partition::{month_after, month_partition, month_partitions, Partition, Visit};
use super::{BackfillError, FundingPoint, PerpMeta};
use crate::calendar::{day_exists, DAY_MS, MAX_YEAR, MIN_YEAR};
use crate::order::{stable_sort, stable_sort_of, Ranked};
use crate::recorder::tables::{FundingRealizedRow, RowKey};
use crate::text::{lowercase, to_lower};
use crate::timed::{key_before, key_lt, law_keys_total, law_keys_transitive};
use crate::types::{ms_to_nanos, signed, Nanos, SourceId};
use vstd::prelude::*;
use vstd::string::*;

verus! {

#[derive(Debug)]
pub struct FundingBackfillCfg {
    /// Datasets land under `<root>/<venue>/funding/`.
    pub out_root: String,
    /// Raw instruments dumps.
    pub meta_root: String,
    /// First month to fetch; by default the earliest onboard month the venue
    /// reports. Only listed symbols carry onboard times, so reaching further
    /// back for delisted ones takes an explicit month.
    pub from: Option<Month>,
}

#[derive(Debug, Clone, Copy, PartialEq, Eq, Structural)]
pub enum MonthOutcome {
    /// Closed month written and published.
    Published { rows: usize },
    /// Current month refreshed as a partial file.
    Partial { rows: usize },
    /// Closed month already has its marker file; not fetched again.
    AlreadyPublished,
    /// Closed month fetched empty; no file written, fetched again by the next
    /// run.
    Empty,
}

/// What a visit to a month comes to.
pub open spec fn outcome_of(closed: bool, visit: Visit) -> MonthOutcome {
    if visit.skipped {
        MonthOutcome::AlreadyPublished
    } else if !closed {
        MonthOutcome::Partial { rows: visit.rows }
    } else if visit.rows == 0 {
        MonthOutcome::Empty
    } else {
        MonthOutcome::Published { rows: visit.rows }
    }
}

/// What came of a month.
pub fn month_outcome(closed: bool, visit: Visit) -> (r: MonthOutcome)
    ensures
        r == (if visit.skipped {
            MonthOutcome::AlreadyPublished
        } else if !closed {
            MonthOutcome::Partial { rows: visit.rows }
        } else if visit.rows == 0 {
            MonthOutcome::Empty
        } else {
            MonthOutcome::Published { rows: visit.rows }
        }),
        r == outcome_of(closed, visit),
{
    if visit.skipped {
        MonthOutcome::AlreadyPublished
    } else if !closed {
        MonthOutcome::Partial { rows: visit.rows }
    } else if visit.rows == 0 {
        MonthOutcome::Empty
    } else {
        MonthOutcome::Published { rows: visit.rows }
    }
}

/// The months of a run by what came of them, and the rows written.
#[derive(Debug, Clone, Copy, PartialEq, Eq, Structural)]
pub struct Tally {
    pub published: usize,
    pub partial: usize,
    pub already_published: usize,
    pub empty: usize,
    pub rows: u128,
}

/// The rows written for a month.
pub open spec fn rows_of(o: MonthOutcome) -> nat {
    match o {
        MonthOutcome::Published { rows } => rows as nat,
        MonthOutcome::Partial { rows } => rows as nat,
        _ => 0,
    }
}

pub open spec fn total_rows(outcomes: Seq<MonthOutcome>) -> nat
    decreases outcomes.len(),
{
    if outcomes.len() == 0 {
        0
    } else {
        total_rows(outcomes.drop_last()) + rows_of(outcomes.last())
    }
}

/// The tally of a run.
pub open spec fn tallies(t: Tally, outcomes: Seq<MonthOutcome>) -> bool {
    &&& t.published == outcomes.filter(|o: MonthOutcome| o is Published).len()
    &&& t.partial == outcomes.filter(|o: MonthOutcome| o is Partial).len()
    &&& t.already_published == outcomes.filter(|o: MonthOutcome| o is AlreadyPublished).len()
    &&& t.empty == outcomes.filter(|o: MonthOutcome| o is Empty).len()
    &&& t.rows == total_rows(outcomes)
}

/// Count what came of the months of a run.
pub fn tally(outcomes: &Vec<MonthOutcome>) -> (r: Tally)
    ensures
        tallies(r, outcomes@),
{
    let mut t: Tally = Tally {
        published: 0,
        partial: 0,
        already_published: 0,
        empty: 0,
        rows: 0,
    };
    let n: usize = outcomes.len();
    let mut i: usize = 0;
    proof {
        reveal(Seq::filter);
    }
    while i < n
        invariant
            i <= n,
            n == outcomes@.len(),
            tallies(t, outcomes@.take(i as int)),
            t.published <= i,
            t.partial <= i,
            t.already_published <= i,
            t.empty <= i,
            t.rows <= i * 0xffff_ffff_ffff_ffff,
        decreases n - i,
    {
        proof {
            reveal(Seq::filter);
            let s = outcomes@.take(i + 1);
            assert(s.drop_last() =~= outcomes@.take(i as int));
            assert(s.last() == outcomes@[i as int]);
        }
        match outcomes[i] {
            MonthOutcome::Published { rows } => {
                t.published = t.published + 1;
                t.rows = t.rows + rows as u128;
            },
            MonthOutcome::Partial { rows } => {
                t.partial = t.partial + 1;
                t.rows = t.rows + rows as u128;
            },
            MonthOutcome::AlreadyPublished => {
                t.already_published = t.already_published + 1;
            },
            MonthOutcome::Empty => {
                t.empty = t.empty + 1;
            },
        }
        i = i + 1;
    }
    assert(outcomes@.take(n as int) =~= outcomes@);
    t
}

proof fn lemma_tally_push(outcomes: Seq<MonthOutcome>, o: MonthOutcome, t: Tally, u: Tally)
    requires
        tallies(t, outcomes),
        tallies(u, outcomes.push(o)),
    ensures
        u.published == t.published + (if o is Published {
            1int
        } else {
            0
        }),
        u.partial == t.partial + (if o is Partial {
            1int
        } else {
            0
        }),
        u.already_published == t.already_published + (if o is AlreadyPublished {
            1int
        } else {
            0
        }),
        u.empty == t.empty + (if o is Empty {
            1int
        } else {
            0
        }),
        u.rows == t.rows + rows_of(o),
{
    reveal(Seq::filter);
    assert(outcomes.push(o).drop_last() =~= outcomes);
}

/// One more month adds one to the count of what came of it and to no other, and
/// its rows to the rows.
pub proof fn law_month_adds_to_its_count(
    outcomes: Seq<MonthOutcome>,
    o: MonthOutcome,
    t: Tally,
    u: Tally,
)
    requires
        tallies(t, outcomes),
        tallies(u, outcomes.push(o)),
    ensures
        u.published + u.partial + u.already_published + u.empty == t.published + t.partial
            + t.already_published + t.empty + 1,
        match o {
            MonthOutcome::Published { rows } => u.published == t.published + 1 && u.rows == t.rows
                + rows,
            MonthOutcome::Partial { rows } => u.partial == t.partial + 1 && u.rows == t.rows + rows,
            MonthOutcome::AlreadyPublished => u.already_published == t.already_published + 1
                && u.rows == t.rows,
            MonthOutcome::Empty => u.empty == t.empty + 1 && u.rows == t.rows,
        },
{
    lemma_tally_push(outcomes, o, t, u);
}

/// Every month is counted once.
pub proof fn law_tally_counts_every_month(outcomes: Seq<MonthOutcome>, t: Tally)
    requires
        tallies(t, outcomes),
    ensures
        t.published + t.partial + t.already_published + t.empty == outcomes.len(),
        outcomes.len() == 0 ==> t.rows == 0,
    decreases outcomes.len(),
{
    lemma_counts_every_month(outcomes);
}

proof fn lemma_counts_every_month(outcomes: Seq<MonthOutcome>)
    ensures
        outcomes.filter(|o: MonthOutcome| o is Published).len() + outcomes.filter(
            |o: MonthOutcome| o is Partial,
        ).len() + outcomes.filter(|o: MonthOutcome| o is AlreadyPublished).len() + outcomes.filter(
            |o: MonthOutcome| o is Empty,
        ).len() == outcomes.len(),
    decreases outcomes.len(),
{
    reveal(Seq::filter);
    if outcomes.len() > 0 {
        lemma_counts_every_month(outcomes.drop_last());
    }
}

/// `t` is the earliest onboard time that any of the perpetuals carries.
pub open spec fn earliest_onboard(perps: Seq<PerpMeta>, t: u64) -> bool {
    &&& exists|i: int| 0 <= i < perps.len() && (#[trigger] perps[i]).onboard_ms == Some(t)
    &&& forall|i: int|
        0 <= i < perps.len() && (#[trigger] perps[i]).onboard_ms is Some ==> t
            <= perps[i].onboard_ms->0
}

/// None of the perpetuals carries an onboard time.
pub open spec fn no_onboard(perps: Seq<PerpMeta>) -> bool {
    forall|i: int| 0 <= i < perps.len() ==> (#[trigger] perps[i]).onboard_ms is None
}

fn least_onboard(perps: &Vec<PerpMeta>) -> (r: Option<u64>)
    ensures
        match r {
            Some(t) => earliest_onboard(perps@, t),
            None => no_onboard(perps@),
        },
{
    let mut best: Option<u64> = None;
    let mut i: usize = 0;
    while i < perps.len()
        invariant
            i <= perps@.len(),
            match best {
                Some(t) => earliest_onboard(perps@.take(i as int), t),
                None => no_onboard(perps@.take(i as int)),
            },
        decreases perps@.len() - i,
    {
        let ghost before = best;
        if let Some(on) = perps[i].onboard_ms {
            best = match best {
                Some(t) => Some(
                    if t <= on {
                        t
                    } else {
                        on
                    },
                ),
                None => Some(on),
            };
        }
        proof {
            let p = perps@.take(i as int);
            let q = perps@.take(i + 1);
            assert(q[i as int] == perps@[i as int]);
            assert(forall|j: int| 0 <= j < i ==> #[trigger] p[j] == q[j]);
            match best {
                Some(t) => {
                    if before is Some && before->0 == t {
                        let j = choose|j: int|
                            0 <= j < p.len() && (#[trigger] p[j]).onboard_ms == Some(t);
                        assert(q[j].onboard_ms == Some(t));
                    }
                    assert(earliest_onboard(q, t));
                },
                None => {
                    assert(no_onboard(q));
                },
            }
        }
        i = i + 1;
    }
    assert(perps@.take(perps@.len() as int) =~= perps@);
    best
}

/// The month a history begins with.
pub open spec fn begins_with(
    from: Option<Month>,
    perps: Seq<PerpMeta>,
    r: Result<Month, BackfillError>,
) -> bool {
    match from {
        Some(m) => r == Ok::<Month, BackfillError>(m),
        None => match r {
            Ok(m) => m.wf() && MIN_YEAR <= m.year <= MAX_YEAR && exists|t: u64| #[trigger]
                earliest_onboard(perps, t) && (if day_exists(signed(t) / DAY_MS as int) {
                    falls_in(signed(t), m)
                } else {
                    m == (Month { year: 1970, month: 1 })
                }),
            Err(_) => no_onboard(perps),
        },
    }
}

/// The first month to fetch.
pub fn first_month(from: Option<Month>, perps: &Vec<PerpMeta>) -> (r: Result<Month, BackfillError>)
    ensures
        match from {
            Some(m) => r == Ok::<Month, BackfillError>(m),
            None => match r {
                Ok(m) => m.wf() && MIN_YEAR <= m.year <= MAX_YEAR && exists|t: u64| #[trigger]
                    earliest_onboard(perps@, t) && (if day_exists(signed(t) / DAY_MS as int) {
                        falls_in(signed(t), m)
                    } else {
                        m == (Month { year: 1970, month: 1 })
                    }),
                Err(e) => no_onboard(perps@) && (e matches BackfillError::Invalid(t) && t@
                    == "venue reports no onboard dates; pass --from YYYY-MM"@),
            },
        },
        begins_with(from, perps@, r),
{
    match from {
        Some(m) => Ok(m),
        None => match least_onboard(perps) {
            Some(t) => {
                assert(earliest_onboard(perps@, t));
                Ok(Month::of_ms(t))
            },
            None => Err(
                BackfillError::Invalid(
                    "venue reports no onboard dates; pass --from YYYY-MM".to_owned(),
                ),
            ),
        },
    }
}

/// The message for a first month that has not come yet.
pub open spec fn future_text(m: Month) -> Seq<char> {
    "--from "@ + m.text() + " is in the future"@
}

/// The partitions of the months from `from` through the current one.
pub fn plan_months(from: Month, current: Month, now_ms: u64) -> (r: Result<
    Vec<Partition>,
    BackfillError,
>)
    requires
        from.wf(),
        MIN_YEAR <= from.year,
        current.dated(),
    ensures
        match r {
            Ok(parts) => !current.precedes(from) && parts@.len() == current.ordinal()
                - from.ordinal() + 1 && forall|i: int|
                0 <= i < parts@.len() ==> month_partition(
                    #[trigger] parts@[i],
                    month_after(from, i),
                    current,
                    now_ms,
                ),
            Err(e) => current.precedes(from) && (e matches BackfillError::Invalid(t) && t@
                == future_text(from)),
        },
{
    if current.before(&from) {
        return Err(
            BackfillError::Invalid(
                "--from ".to_owned().concat(from.to_text().as_str()).concat(" is in the future"),
            ),
        );
    }
    Ok(month_partitions(from, current, now_ms))
}

/// Settlements are ordered by time, then by symbol.
impl Ranked for FundingPoint {
    open spec fn rank_le(a: Self, b: Self) -> bool {
        !key_lt((b.funding_time_ms, b.symbol@), (a.funding_time_ms, a.symbol@))
    }

    proof fn rank_total(a: Self, b: Self) {
        law_keys_total((a.funding_time_ms, a.symbol@), (b.funding_time_ms, b.symbol@));
    }

    proof fn rank_transitive(a: Self, b: Self, c: Self) {
        let x = (a.funding_time_ms, a.symbol@);
        let y = (b.funding_time_ms, b.symbol@);
        let z = (c.funding_time_ms, c.symbol@);
        law_keys_total(x, y);
        law_keys_total(y, z);
        law_keys_total(x, z);
        if key_lt(x, y) && key_lt(y, z) {
            law_keys_transitive(x, y, z);
        }
    }

    fn not_after(&self, other: &Self) -> (r: bool) {
        !key_before(
            other.funding_time_ms,
            other.symbol.as_str(),
            self.funding_time_ms,
            self.symbol.as_str(),
        )
    }
}

/// The row of a settlement. The interval stays open: today's would be wrong for
/// symbols whose cadence changed, and research derives the realized one from
/// consecutive settlements.
pub open spec fn row_of(p: FundingPoint, local_ts: Nanos, r: FundingRealizedRow) -> bool {
    &&& r.key.instrument@ == lowercase(p.symbol@)
    &&& r.key.venue_ts == Some((p.funding_time_ms * 1_000_000) as u64)
    &&& r.key.local_ts == local_ts
    &&& r.key.source == SourceId(0)
    &&& r.rate == p.rate
    &&& r.funding_time == p.funding_time_ms * 1_000_000
    &&& r.interval_ns is None
}

/// The row of a settlement.
pub fn funding_row(p: &FundingPoint, local_ts: Nanos) -> (r: FundingRealizedRow)
    requires
        p.funding_time_ms * 1_000_000 <= u64::MAX,
    ensures
        row_of(*p, local_ts, r),
{
    let ft_ns: u64 = ms_to_nanos(p.funding_time_ms);
    FundingRealizedRow {
        key: RowKey {
            instrument: to_lower(p.symbol.as_str()),
            venue_ts: Some(ft_ns),
            local_ts,
            source: SourceId::rest(),
        },
        rate: p.rate,
        funding_time: ft_ns,
        interval_ns: None,
    }
}

/// The rows tell the settlements of a month.
pub open spec fn tells_month(
    points: Seq<FundingPoint>,
    local_ts: Nanos,
    rows: Seq<FundingRealizedRow>,
) -> bool {
    exists|s: Seq<FundingPoint>| #[trigger]
        stable_sort_of(points, s) && s.len() == rows.len() && forall|i: int|
            0 <= i < s.len() ==> row_of(s[i], local_ts, #[trigger] rows[i])
}

/// The rows of a month, in the order of time and symbol: venue-wide pages
/// arrive in order, histories fetched by symbol do not.
pub fn month_rows(points: Vec<FundingPoint>, local_ts: Nanos) -> (r: Vec<FundingRealizedRow>)
    requires
        forall|i: int|
            0 <= i < points@.len() ==> (#[trigger] points@[i]).funding_time_ms * 1_000_000
                <= u64::MAX,
    ensures
        exists|s: Seq<FundingPoint>| #[trigger]
            stable_sort_of(points@, s) && s.len() == r@.len() && forall|i: int|
                0 <= i < s.len() ==> row_of(s[i], local_ts, #[trigger] r@[i]),
        tells_month(points@, local_ts, r@),
{
    let ghost all = points@;
    let sorted: Vec<FundingPoint> = stable_sort(points);
    proof {
        assert forall|i: int| 0 <= i < sorted@.len() implies (#[trigger] sorted@[i]).funding_time_ms
            * 1_000_000 <= u64::MAX by {
            broadcast use vstd::seq_lib::group_to_multiset_ensures;

            assert(sorted@.to_multiset().count(sorted@[i]) > 0);
            assert(all.contains(sorted@[i]));
        }
    }
    let mut out: Vec<FundingRealizedRow> = Vec::new();
    let mut i: usize = 0;
    while i < sorted.len()
        invariant
            i <= sorted@.len(),
            out@.len() == i,
            forall|j: int|
                0 <= j < sorted@.len() ==> (#[trigger] sorted@[j]).funding_time_ms * 1_000_000
                    <= u64::MAX,
            forall|j: int| 0 <= j < i ==> row_of(sorted@[j], local_ts, #[trigger] out@[j]),
        decreases sorted@.len() - i,
    {
        out.push(funding_row(&sorted[i], local_ts));
        i = i + 1;
    }
    assert(stable_sort_of(all, sorted@));
    out
}

} // verus!
