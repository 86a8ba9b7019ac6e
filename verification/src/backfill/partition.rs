//! The run over a dataset's partitions. A published file is its partition's
//! completion marker: a closed partition that has one is skipped, every other is
//! fetched, symbol by symbol where the venue has no venue-wide history, and
//! written to a temporary file that is renamed into place. The open partition
//! becomes a partial file, replaced once the partition closes.
//!
//! A run decides what to do next; performing it and telling it what came of it
//! is the caller's part.
use super::month::Month;
use super::PerpMeta;
use crate::calendar::{unsigned, MIN_YEAR};
use crate::paths::{join, path_join};
use crate::text::begins_with_text;
use vstd::prelude::*;
use vstd::string::*;

verus! {

/// One partition of a dataset: a month or a day.
#[derive(Debug)]
pub struct Partition {
    pub name: String,
    /// No more data will come for it.
    pub closed: bool,
    /// The part of it that lies in the past, in milliseconds since the epoch:
    /// from `start_ms`, up to but not with `end_ms`.
    pub start_ms: u64,
    pub end_ms: u64,
}

/// What came of a partition.
#[derive(Debug, Clone, Copy, PartialEq, Eq, Structural)]
pub struct Visit {
    /// Its marker file was there already.
    pub skipped: bool,
    pub rows: usize,
}

/// How far a run has come with its partition.
#[derive(Debug, Clone, Copy, PartialEq, Eq, Structural)]
pub enum Stage {
    /// Nothing is known of it yet.
    Entering,
    /// `done` of its requests were answered, with `rows` rows in all.
    Fetching { done: usize, rows: usize },
    /// All requests were answered; the rows are to be published.
    Writing { rows: usize },
    /// There is no partition left.
    Over,
}

/// What a run wants done.
#[derive(Debug)]
pub enum Action {
    /// Look whether the file is there, then call `probed`.
    Probe { file: String },
    /// Fetch the window for the symbol, or for all symbols, then call `fetched`.
    Fetch { symbol: Option<String>, start_ms: u64, end_ms: u64 },
    /// Publish what was fetched for this partition under the name, remove the
    /// superseded file if there is one, then call `published`.
    Publish { file: String, supersedes: Option<String> },
    Done,
}

/// The file a closed partition is published as.
pub open spec fn final_file(name: Seq<char>) -> Seq<char> {
    name + ".parquet"@
}

/// The file the open partition is published as.
pub open spec fn partial_file(name: Seq<char>) -> Seq<char> {
    name + ".partial.parquet"@
}

/// Whether a perpetual can have data before `end_ms`: one that was listed later
/// would only be asked for an empty window.
pub open spec fn listed_before(p: PerpMeta, end_ms: u64) -> bool {
    match p.onboard_ms {
        Some(on) => on < end_ms,
        None => true,
    }
}

/// The requests a partition takes: one for all symbols, or one for each
/// perpetual that can have data.
pub open spec fn requests_of(perps: Seq<PerpMeta>, venue_wide: bool, end_ms: u64) -> Seq<
    Option<Seq<char>>,
> {
    if venue_wide {
        seq![None]
    } else {
        perps.filter(|p: PerpMeta| listed_before(p, end_ms)).map_values(
            |p: PerpMeta| Some(p.symbol@),
        )
    }
}

/// Requests as mathematical values.
pub open spec fn request_views(s: Seq<Option<String>>) -> Seq<Option<Seq<char>>> {
    s.map_values(|r: Option<String>| crate::text::opt_view(r))
}

/// The requests a partition takes.
pub fn requests(perps: &Vec<PerpMeta>, venue_wide: bool, end_ms: u64) -> (r: Vec<Option<String>>)
    ensures
        request_views(r@) == requests_of(perps@, venue_wide, end_ms),
{
    let mut out: Vec<Option<String>> = Vec::new();
    if venue_wide {
        out.push(None);
        assert(request_views(out@) =~= seq![None]);
        return out;
    }
    let mut i: usize = 0;
    let ghost wanted = |p: PerpMeta| listed_before(p, end_ms);
    proof {
        reveal(Seq::filter);
        assert(request_views(out@) =~= requests_of(perps@.take(0), false, end_ms));
    }
    while i < perps.len()
        invariant
            i <= perps@.len(),
            wanted == (|p: PerpMeta| listed_before(p, end_ms)),
            request_views(out@) == requests_of(perps@.take(i as int), false, end_ms),
        decreases perps@.len() - i,
    {
        let ghost old_out = out@;
        let wants: bool = match perps[i].onboard_ms {
            Some(on) => on < end_ms,
            None => true,
        };
        if wants {
            out.push(Some(perps[i].symbol.clone()));
        }
        proof {
            reveal(Seq::filter);
            let t = perps@.take(i + 1);
            assert(t.drop_last() =~= perps@.take(i as int));
            assert(t.last() == perps@[i as int]);
            if wants {
                assert(request_views(out@) =~= request_views(old_out).push(
                    Some(perps@[i as int].symbol@),
                ));
                assert(requests_of(t, false, end_ms) =~= requests_of(
                    perps@.take(i as int),
                    false,
                    end_ms,
                ).push(Some(perps@[i as int].symbol@)));
            }
        }
        i = i + 1;
    }
    assert(perps@.take(perps@.len() as int) =~= perps@);
    out
}

/// The earlier of two instants.
pub open spec fn earlier(a: u64, b: u64) -> u64 {
    if a <= b {
        a
    } else {
        b
    }
}

/// `p` is the partition of the month `m`, with the past ending at `now_ms`.
pub open spec fn month_partition(p: Partition, m: Month, current: Month, now_ms: u64) -> bool {
    &&& p.name@ == m.text()
    &&& p.closed == m.precedes(current)
    &&& p.start_ms == unsigned(m.start())
    &&& p.end_ms == earlier(unsigned(m.following().start()), now_ms)
}

/// The month that comes `i` months after `m`.
pub open spec fn month_after(m: Month, i: int) -> Month {
    let k = m.ordinal() + i;
    Month { year: (k / 12) as i32, month: (k % 12 + 1) as u32 }
}

/// The partitions of the months from `from` through the current one.
pub fn month_partitions(from: Month, current: Month, now_ms: u64) -> (r: Vec<Partition>)
    requires
        from.wf(),
        MIN_YEAR <= from.year,
        current.dated(),
        !current.precedes(from),
    ensures
        r@.len() == current.ordinal() - from.ordinal() + 1,
        forall|i: int|
            0 <= i < r@.len() ==> month_partition(
                #[trigger] r@[i],
                month_after(from, i),
                current,
                now_ms,
            ),
{
    let months: Vec<Month> = from.through(current);
    let mut out: Vec<Partition> = Vec::new();
    let mut i: usize = 0;
    while i < months.len()
        invariant
            i <= months@.len(),
            out@.len() == i,
            from.wf(),
            MIN_YEAR <= from.year,
            current.dated(),
            months@.len() == current.ordinal() - from.ordinal() + 1,
            forall|j: int|
                0 <= j < months@.len() ==> (#[trigger] months@[j]).wf() && months@[j].ordinal()
                    == from.ordinal() + j,
            forall|j: int|
                0 <= j < i ==> month_partition(
                    #[trigger] out@[j],
                    month_after(from, j),
                    current,
                    now_ms,
                ),
        decreases months@.len() - i,
    {
        let m: Month = months[i];
        proof {
            assert(m.wf() && m.ordinal() == from.ordinal() + i);
            assert(m == month_after(from, i as int));
            assert(m.ordinal() <= current.ordinal());
        }
        let (start_ms, end_ms): (u64, u64) = m.bounds_ms();
        out.push(
            Partition {
                name: m.to_text(),
                closed: m.before(&current),
                start_ms,
                end_ms: if end_ms <= now_ms {
                    end_ms
                } else {
                    now_ms
                },
            },
        );
        i = i + 1;
    }
    out
}

/// The directory of a venue's dataset.
pub fn dataset_dir(out_root: &str, venue: &str, dataset: &str) -> (r: String)
    ensures
        r@ == path_join(path_join(out_root@, venue@), dataset@),
{
    join(join(out_root, venue).as_str(), dataset)
}

/// Whether a file is a temporary one that a crashed run left behind.
pub fn stale_tmp(name: &str) -> (r: bool)
    ensures
        r == crate::text::begins_with(name@, ".tmp-"@),
{
    begins_with_text(name, ".tmp-")
}

/// Where a run stands.
pub struct Standing {
    pub at: nat,
    pub stage: Stage,
    pub visits: Seq<Visit>,
}

/// The partition at hand is done with: the next one is entered.
pub open spec fn closed_with(s: Standing, count: nat, visit: Visit) -> Standing {
    Standing {
        at: s.at + 1,
        stage: if s.at + 1 < count {
            Stage::Entering
        } else {
            Stage::Over
        },
        visits: s.visits.push(visit),
    }
}

/// What a run makes of whether the marker file is there.
pub open spec fn after_probe(
    s: Standing,
    parts: Seq<Partition>,
    requests: nat,
    exists_already: bool,
) -> Standing {
    if parts[s.at as int].closed && exists_already {
        closed_with(s, parts.len(), Visit { skipped: true, rows: 0 })
    } else if requests == 0 {
        closed_with(s, parts.len(), Visit { skipped: false, rows: 0 })
    } else {
        Standing { stage: Stage::Fetching { done: 0, rows: 0 }, ..s }
    }
}

/// What a run makes of the answer to a request.
pub open spec fn after_fetch(
    s: Standing,
    parts: Seq<Partition>,
    requests: nat,
    fetched: usize,
) -> Standing {
    let done = s.stage->done;
    let rows = (s.stage->Fetching_rows + fetched) as usize;
    if done + 1 < requests {
        Standing { stage: Stage::Fetching { done: (done + 1) as usize, rows }, ..s }
    } else if rows == 0 {
        closed_with(s, parts.len(), Visit { skipped: false, rows: 0 })
    } else {
        Standing { stage: Stage::Writing { rows }, ..s }
    }
}

/// A run over partitions.
#[derive(Debug)]
pub struct PartitionRun {
    pub parts: Vec<Partition>,
    pub perps: Vec<PerpMeta>,
    pub venue_wide: bool,
    pub at: usize,
    pub stage: Stage,
    /// The requests of the partition at hand.
    pub requests: Vec<Option<String>>,
    pub visits: Vec<Visit>,
}

impl PartitionRun {
    pub open spec fn standing(self) -> Standing {
        Standing { at: self.at as nat, stage: self.stage, visits: self.visits@ }
    }

    /// The number of requests the partition at hand takes.
    pub open spec fn request_count(self) -> nat {
        requests_of(self.perps@, self.venue_wide, self.parts@[self.at as int].end_ms).len()
    }

    pub open spec fn wf(self) -> bool {
        &&& self.at <= self.parts@.len()
        &&& self.visits@.len() == self.at
        &&& self.stage is Over <==> self.at == self.parts@.len()
        &&& self.stage is Fetching || self.stage is Writing ==> request_views(self.requests@)
            == requests_of(self.perps@, self.venue_wide, self.parts@[self.at as int].end_ms)
        &&& self.stage matches Stage::Fetching { done, .. } ==> done < self.requests@.len()
        &&& self.stage matches Stage::Writing { rows } ==> rows > 0
        &&& forall|i: int| 0 <= i < self.at ==> self.visit_ok(i)
    }

    /// Only a closed partition is ever skipped, and a skipped one has no rows.
    pub open spec fn visit_ok(self, i: int) -> bool {
        self.visits@[i].skipped ==> self.parts@[i].closed && self.visits@[i].rows == 0
    }

    /// What a run wants done where it stands.
    pub open spec fn calls_for(self, r: Action) -> bool {
        match self.stage {
            Stage::Entering => r matches Action::Probe { file } && file@ == final_file(
                self.parts@[self.at as int].name@,
            ),
            Stage::Fetching { done, .. } => r matches Action::Fetch { symbol, start_ms, end_ms }
                && crate::text::opt_view(symbol) == requests_of(
                self.perps@,
                self.venue_wide,
                self.parts@[self.at as int].end_ms,
            )[done as int] && start_ms == self.parts@[self.at as int].start_ms && end_ms
                == self.parts@[self.at as int].end_ms,
            Stage::Writing { .. } => r matches Action::Publish { file, supersedes } && (
            if self.parts@[self.at as int].closed {
                file@ == final_file(self.parts@[self.at as int].name@) && crate::text::opt_view(
                    supersedes,
                ) == Some(partial_file(self.parts@[self.at as int].name@))
            } else {
                file@ == partial_file(self.parts@[self.at as int].name@) && supersedes is None
            }),
            Stage::Over => r is Done,
        }
    }

    /// The run is over the same partitions and perpetuals.
    pub open spec fn same_plan(self, o: PartitionRun) -> bool {
        &&& self.parts == o.parts
        &&& self.perps == o.perps
        &&& self.venue_wide == o.venue_wide
    }

    pub fn new(parts: Vec<Partition>, perps: Vec<PerpMeta>, venue_wide: bool) -> (r: PartitionRun)
        ensures
            r.wf(),
            r.parts == parts,
            r.perps == perps,
            r.venue_wide == venue_wide,
            r.standing() == (Standing {
                at: 0,
                stage: if parts@.len() == 0 {
                    Stage::Over
                } else {
                    Stage::Entering
                },
                visits: Seq::empty(),
            }),
    {
        let stage: Stage = if parts.len() == 0 {
            Stage::Over
        } else {
            Stage::Entering
        };
        PartitionRun {
            parts,
            perps,
            venue_wide,
            at: 0,
            stage,
            requests: Vec::new(),
            visits: Vec::new(),
        }
    }

    /// What is to be done next.
    pub fn action(&self) -> (r: Action)
        requires
            self.wf(),
        ensures
            match self.stage {
                Stage::Entering => r matches Action::Probe { file } && file@ == final_file(
                    self.parts@[self.at as int].name@,
                ),
                Stage::Fetching { done, .. } => r matches Action::Fetch { symbol, start_ms, end_ms }
                    && crate::text::opt_view(symbol) == requests_of(
                    self.perps@,
                    self.venue_wide,
                    self.parts@[self.at as int].end_ms,
                )[done as int] && start_ms == self.parts@[self.at as int].start_ms && end_ms
                    == self.parts@[self.at as int].end_ms,
                Stage::Writing { .. } => r matches Action::Publish { file, supersedes } && (
                if self.parts@[self.at as int].closed {
                    file@ == final_file(self.parts@[self.at as int].name@)
                        && crate::text::opt_view(supersedes) == Some(
                        partial_file(self.parts@[self.at as int].name@),
                    )
                } else {
                    file@ == partial_file(self.parts@[self.at as int].name@) && supersedes is None
                }),
                Stage::Over => r is Done,
            },
            self.calls_for(r),
    {
        match self.stage {
            Stage::Over => Action::Done,
            Stage::Entering => Action::Probe {
                file: self.parts[self.at].name.clone().concat(".parquet"),
            },
            Stage::Fetching { done, .. } => {
                let p: &Partition = &self.parts[self.at];
                let symbol: Option<String> = match &self.requests[done] {
                    Some(s) => Some(s.clone()),
                    None => None,
                };
                assert(request_views(self.requests@)[done as int] == crate::text::opt_view(symbol));
                Action::Fetch { symbol, start_ms: p.start_ms, end_ms: p.end_ms }
            },
            Stage::Writing { .. } => {
                let p: &Partition = &self.parts[self.at];
                if p.closed {
                    Action::Publish {
                        file: p.name.clone().concat(".parquet"),
                        supersedes: Some(p.name.clone().concat(".partial.parquet")),
                    }
                } else {
                    Action::Publish {
                        file: p.name.clone().concat(".partial.parquet"),
                        supersedes: None,
                    }
                }
            },
        }
    }

    fn close(&mut self, visit: Visit)
        requires
            old(self).wf(),
            !(old(self).stage is Over),
            visit.skipped ==> old(self).parts@[old(self).at as int].closed && visit.rows == 0,
        ensures
            final(self).wf(),
            final(self).same_plan(*old(self)),
            final(self).standing() == closed_with(
                old(self).standing(),
                old(self).parts@.len(),
                visit,
            ),
    {
        let ghost held = *self;
        let count: usize = self.parts.len();
        self.visits.push(visit);
        self.at = self.at + 1;
        self.stage = if self.at < count {
            Stage::Entering
        } else {
            Stage::Over
        };
        proof {
            assert forall|i: int| 0 <= i < self.at implies self.visit_ok(i) by {
                if i < held.at {
                    assert(held.visit_ok(i));
                }
            }
        }
    }

    /// Whether the marker file of the partition at hand is there.
    pub fn probed(&mut self, exists_already: bool)
        requires
            old(self).wf(),
            old(self).stage is Entering,
        ensures
            final(self).wf(),
            final(self).same_plan(*old(self)),
            final(self).standing() == after_probe(
                old(self).standing(),
                old(self).parts@,
                old(self).request_count(),
                exists_already,
            ),
    {
        if self.parts[self.at].closed && exists_already {
            self.close(Visit { skipped: true, rows: 0 });
        } else {
            self.requests = requests(&self.perps, self.venue_wide, self.parts[self.at].end_ms);
            assert(request_views(self.requests@).len() == self.requests@.len());
            assert forall|i: int| 0 <= i < self.at implies self.visit_ok(i) by {
                assert(old(self).visit_ok(i));
            }
            if self.requests.len() == 0 {
                self.close(Visit { skipped: false, rows: 0 });
            } else {
                self.stage = Stage::Fetching { done: 0, rows: 0 };
                assert forall|i: int| 0 <= i < self.at implies self.visit_ok(i) by {
                    assert(old(self).visit_ok(i));
                }
            }
        }
    }

    /// A request was answered with `fetched` rows.
    pub fn fetched(&mut self, fetched: usize)
        requires
            old(self).wf(),
            old(self).stage matches Stage::Fetching { rows, .. } && rows + fetched <= usize::MAX,
        ensures
            final(self).wf(),
            final(self).same_plan(*old(self)),
            final(self).standing() == after_fetch(
                old(self).standing(),
                old(self).parts@,
                old(self).request_count(),
                fetched,
            ),
    {
        assert(request_views(self.requests@).len() == self.requests@.len());
        let (done, rows): (usize, usize) = match self.stage {
            Stage::Fetching { done, rows } => (done, rows),
            _ => (0, 0),
        };
        let all: usize = rows + fetched;
        let count: usize = self.requests.len();
        if done + 1 < count {
            self.stage = Stage::Fetching { done: done + 1, rows: all };
        } else if all == 0 {
            self.close(Visit { skipped: false, rows: 0 });
        } else {
            self.stage = Stage::Writing { rows: all };
        }
        proof {
            if !(self.stage is Entering || self.stage is Over) {
                assert forall|i: int| 0 <= i < self.at implies self.visit_ok(i) by {
                    assert(old(self).visit_ok(i));
                }
            }
        }
    }

    /// The partition at hand was published.
    pub fn published(&mut self)
        requires
            old(self).wf(),
            old(self).stage is Writing,
        ensures
            final(self).wf(),
            final(self).same_plan(*old(self)),
            final(self).standing() == closed_with(
                old(self).standing(),
                old(self).parts@.len(),
                Visit { skipped: false, rows: old(self).stage->Writing_rows },
            ),
    {
        let rows: usize = match self.stage {
            Stage::Writing { rows } => rows,
            _ => 0,
        };
        self.close(Visit { skipped: false, rows });
    }
}

/// A closed partition whose marker file is there is not fetched: the run goes
/// on to the next.
pub proof fn law_published_is_not_fetched(s: Standing, parts: Seq<Partition>, requests: nat)
    requires
        s.at < parts.len(),
        parts[s.at as int].closed,
    ensures
        ({
            let n = after_probe(s, parts, requests, true);
            &&& n.at == s.at + 1
            &&& !(n.stage is Fetching)
            &&& n.visits == s.visits.push(Visit { skipped: true, rows: 0 })
        }),
{
}

/// The open partition is fetched whatever files are there.
pub proof fn law_open_partition_is_refreshed(
    s: Standing,
    parts: Seq<Partition>,
    requests: nat,
    exists_already: bool,
)
    requires
        s.at < parts.len(),
        !parts[s.at as int].closed,
        requests > 0,
    ensures
        after_probe(s, parts, requests, exists_already).stage == (Stage::Fetching {
            done: 0,
            rows: 0,
        }),
{
}

/// How much a run has behind it: partitions first, then the steps of the one at
/// hand.
pub open spec fn steps_behind(s: Standing) -> (nat, int) {
    (
        s.at,
        match s.stage {
            Stage::Entering => 0,
            Stage::Fetching { done, .. } => 1 + done,
            Stage::Writing { .. } => usize::MAX + 2,
            Stage::Over => 0,
        },
    )
}

pub open spec fn further(a: Standing, b: Standing) -> bool {
    steps_behind(a).0 < steps_behind(b).0 || (steps_behind(a).0 == steps_behind(b).0
        && steps_behind(a).1 < steps_behind(b).1)
}

/// Every answer takes a run further, and none takes it past its last
/// partition: a run ends.
pub proof fn law_run_ends(
    s: Standing,
    parts: Seq<Partition>,
    requests: nat,
    exists_already: bool,
    fetched: usize,
)
    requires
        s.at < parts.len(),
    ensures
        s.stage is Entering ==> further(s, after_probe(s, parts, requests, exists_already)) && after_probe(
            s,
            parts,
            requests,
            exists_already,
        ).at <= parts.len(),
        s.stage is Fetching && s.stage->done < requests <= usize::MAX ==> further(
            s,
            after_fetch(s, parts, requests, fetched),
        ) && after_fetch(s, parts, requests, fetched).at <= parts.len(),
        s.stage is Writing ==> further(
            s,
            closed_with(s, parts.len(), Visit { skipped: false, rows: s.stage->Writing_rows }),
        ),
{
}

} // verus!
