//! The run over the logs of one venue: which are looked at, which are converted,
//! and what is reported of them.
//!
//! A run decides what to do next; performing it and telling it what came of it
//! is the caller's part.
use super::{
    day_dir, day_tmp, is_due, publish_paths, PublishPaths, SweepOutcome, SweepResult, WalFile,
    QA_REPORT_FILE,
};
use crate::calendar::Date;
use crate::paths::{join, path_join};
use vstd::prelude::*;
use vstd::string::*;

verus! {

/// What a run wants done.
#[derive(Debug)]
pub enum SweepAction {
    /// Look whether the day's marker is there, then call `probed`.
    Probe { marker: String },
    /// Convert the log and publish the day, then call `converted`. A result that
    /// says converted has left the marker.
    Convert { wal_path: String, date: Date, paths: PublishPaths },
    Done,
}

/// The first log from `at` on whose day is over.
pub open spec fn next_closed(files: Seq<WalFile>, as_of: Date, at: nat) -> nat
    decreases files.len() - at,
{
    if at >= files.len() || files[at as int].date.precedes(as_of) {
        at
    } else {
        next_closed(files, as_of, at + 1)
    }
}

/// The marker of a day.
pub open spec fn marker_path(out_root: Seq<char>, venue: Seq<char>, date: Date) -> Seq<char> {
    path_join(day_dir(out_root, venue, date), QA_REPORT_FILE@)
}

/// A run over a venue's logs, earliest first.
#[derive(Debug)]
pub struct VenueSweep {
    pub venue: String,
    pub wal_dir: String,
    pub out_root: String,
    pub as_of: Date,
    pub files: Vec<WalFile>,
    /// The log at hand.
    pub at: usize,
    /// The log at hand was found without a marker.
    pub due: bool,
    pub outcomes: Vec<SweepOutcome>,
}

impl VenueSweep {
    pub open spec fn wf(self) -> bool {
        &&& self.at <= self.files@.len()
        &&& self.at < self.files@.len() ==> self.files@[self.at as int].date.precedes(self.as_of)
        &&& self.due ==> self.at < self.files@.len()
        &&& forall|i: int| 0 <= i < self.files@.len() ==> (#[trigger] self.files@[i]).date.wf()
    }

    /// The run is over the same logs.
    pub open spec fn same_plan(self, o: VenueSweep) -> bool {
        &&& self.venue == o.venue
        &&& self.wal_dir == o.wal_dir
        &&& self.out_root == o.out_root
        &&& self.as_of == o.as_of
        &&& self.files == o.files
    }

    /// What a run wants done where it stands.
    pub open spec fn calls_for(self, r: SweepAction) -> bool {
        if self.at >= self.files@.len() {
            r is Done
        } else {
            let f = self.files@[self.at as int];
            if self.due {
                r matches SweepAction::Convert { wal_path, date, paths } && wal_path@ == path_join(
                    self.wal_dir@,
                    f.name@,
                ) && date == f.date && paths.final_dir@ == day_dir(
                    self.out_root@,
                    self.venue@,
                    f.date,
                ) && paths.report@ == marker_path(self.out_root@, self.venue@, f.date)
                    && paths.tmp_dir@ == day_tmp(self.out_root@, self.venue@, f.date)
            } else {
                r matches SweepAction::Probe { marker } && marker@ == marker_path(
                    self.out_root@,
                    self.venue@,
                    f.date,
                )
            }
        }
    }

    /// `o` is what is reported of the log at `i`.
    pub open spec fn reports(self, i: int, result: SweepResult, o: SweepOutcome) -> bool {
        &&& o.venue@ == self.venue@
        &&& o.date == self.files@[i].date
        &&& o.wal_path@ == path_join(self.wal_dir@, self.files@[i].name@)
        &&& o.result == result
    }

    /// The next log whose day is over is at hand.
    pub open spec fn moved_on(self, next: VenueSweep) -> bool {
        &&& next.at == next_closed(self.files@, self.as_of, (self.at + 1) as nat)
        &&& !next.due
    }

    /// What a run makes of whether the marker is there: a day with a marker is
    /// passed over without a word, one without is to be converted.
    pub open spec fn after_probe(self, marked: bool, next: VenueSweep) -> bool {
        &&& next.same_plan(self)
        &&& next.outcomes@ == self.outcomes@
        &&& if marked {
            self.moved_on(next)
        } else {
            next.at == self.at && next.due
        }
    }

    /// What a run makes of a conversion: it is reported, and the run goes on
    /// whatever came of it.
    pub open spec fn after_conversion(self, result: SweepResult, next: VenueSweep) -> bool {
        &&& next.same_plan(self)
        &&& next.outcomes@.len() == self.outcomes@.len() + 1
        &&& next.outcomes@.drop_last() == self.outcomes@
        &&& self.reports(self.at as int, result, next.outcomes@.last())
        &&& self.moved_on(next)
    }

    pub fn new(
        venue: String,
        wal_dir: String,
        out_root: String,
        as_of: Date,
        files: Vec<WalFile>,
    ) -> (r: VenueSweep)
        requires
            forall|i: int| 0 <= i < files@.len() ==> (#[trigger] files@[i]).date.wf(),
        ensures
            r.wf(),
            r.venue == venue,
            r.wal_dir == wal_dir,
            r.out_root == out_root,
            r.as_of == as_of,
            r.files == files,
            r.at == next_closed(files@, as_of, 0),
            !r.due,
            r.outcomes@.len() == 0,
    {
        let mut r: VenueSweep = VenueSweep {
            venue,
            wal_dir,
            out_root,
            as_of,
            files,
            at: 0,
            due: false,
            outcomes: Vec::new(),
        };
        r.skip_open();
        r
    }

    /// Pass over the logs from the one at hand on whose days are not over.
    fn skip_open(&mut self)
        requires
            old(self).at <= old(self).files@.len(),
            forall|i: int|
                0 <= i < old(self).files@.len() ==> (#[trigger] old(self).files@[i]).date.wf(),
        ensures
            final(self).wf(),
            *final(self) == (VenueSweep { at: final(self).at, due: false, ..*old(self) }),
            final(self).at == next_closed(old(self).files@, old(self).as_of, old(self).at as nat),
    {
        let mut at: usize = self.at;
        while at < self.files.len() && !self.files[at].date.before(&self.as_of)
            invariant
                at <= self.files@.len(),
                *self == *old(self),
                next_closed(self.files@, self.as_of, at as nat) == next_closed(
                    self.files@,
                    self.as_of,
                    old(self).at as nat,
                ),
            decreases self.files@.len() - at,
        {
            at = at + 1;
        }
        self.at = at;
        self.due = false;
    }

    /// What is to be done next.
    pub fn action(&self) -> (r: SweepAction)
        requires
            self.wf(),
        ensures
            if self.at >= self.files@.len() {
                r is Done
            } else {
                let f = self.files@[self.at as int];
                if self.due {
                    r matches SweepAction::Convert { wal_path, date, paths } && wal_path@
                        == path_join(self.wal_dir@, f.name@) && date == f.date
                        && paths.final_dir@ == day_dir(self.out_root@, self.venue@, f.date)
                        && paths.report@ == marker_path(self.out_root@, self.venue@, f.date)
                        && paths.tmp_dir@ == day_tmp(self.out_root@, self.venue@, f.date)
                } else {
                    r matches SweepAction::Probe { marker } && marker@ == marker_path(
                        self.out_root@,
                        self.venue@,
                        f.date,
                    )
                }
            },
            self.calls_for(r),
    {
        if self.at >= self.files.len() {
            return SweepAction::Done;
        }
        let f: &WalFile = &self.files[self.at];
        let paths: PublishPaths = publish_paths(
            self.out_root.as_str(),
            self.venue.as_str(),
            &f.date,
        );
        if self.due {
            SweepAction::Convert {
                wal_path: join(self.wal_dir.as_str(), f.name.as_str()),
                date: f.date,
                paths,
            }
        } else {
            SweepAction::Probe { marker: paths.report }
        }
    }

    /// Whether the marker of the log at hand is there.
    pub fn probed(&mut self, marked: bool)
        requires
            old(self).wf(),
            old(self).at < old(self).files@.len(),
            !old(self).due,
        ensures
            final(self).wf(),
            old(self).after_probe(marked, *final(self)),
    {
        if is_due(&self.files[self.at].date, &self.as_of, marked) {
            self.due = true;
        } else {
            assert(self.at < self.files.len());
            self.at = self.at + 1;
            self.skip_open();
        }
    }

    /// What came of converting the log at hand.
    pub fn converted(&mut self, result: SweepResult)
        requires
            old(self).wf(),
            old(self).due,
        ensures
            final(self).wf(),
            old(self).after_conversion(result, *final(self)),
    {
        let f: &WalFile = &self.files[self.at];
        let o: SweepOutcome = SweepOutcome {
            venue: self.venue.clone(),
            date: f.date,
            wal_path: join(self.wal_dir.as_str(), f.name.as_str()),
            result,
        };
        self.outcomes.push(o);
        assert(self.outcomes@.drop_last() =~= old(self).outcomes@);
        assert(self.at < self.files.len());
        self.at = self.at + 1;
        self.skip_open();
    }
}

// ---------------------------------------------------------------------------
// What a run over all logs comes to
// ---------------------------------------------------------------------------

/// The logs that were reported, by position, and the days that have a marker
/// afterwards.
pub struct Swept {
    pub told: Seq<int>,
    pub markers: Set<Date>,
}

/// The log is to be converted: its day is over and has no marker.
pub open spec fn due(f: WalFile, as_of: Date, markers: Set<Date>) -> bool {
    f.date.precedes(as_of) && !markers.contains(f.date)
}

/// A sweep over the logs in their order, where `markers` are the days that have
/// a marker before it and `results[i]` is what converting the log at `i` comes
/// to. A conversion leaves the marker of its day.
pub open spec fn swept(
    files: Seq<WalFile>,
    as_of: Date,
    markers: Set<Date>,
    results: Seq<SweepResult>,
) -> Swept
    decreases files.len(),
{
    if files.len() == 0 {
        Swept { told: Seq::empty(), markers }
    } else {
        let s = swept(files.drop_last(), as_of, markers, results);
        let i = files.len() - 1;
        if due(files[i], as_of, s.markers) {
            Swept {
                told: s.told.push(i),
                markers: if results[i] is Converted {
                    s.markers.insert(files[i].date)
                } else {
                    s.markers
                },
            }
        } else {
            s
        }
    }
}

/// The run has reported what the sweep over the logs it has behind it comes to,
/// and left these markers.
pub open spec fn in_step(
    run: VenueSweep,
    before: Set<Date>,
    results: Seq<SweepResult>,
    markers: Set<Date>,
) -> bool {
    let s = swept(run.files@.take(run.at as int), run.as_of, before, results);
    &&& s.markers == markers
    &&& s.told.len() == run.outcomes@.len()
    &&& forall|k: int|
        0 <= k < s.told.len() ==> run.reports(
            #[trigger] s.told[k],
            results[s.told[k]],
            run.outcomes@[k],
        )
}

proof fn lemma_open_are_passed(
    files: Seq<WalFile>,
    as_of: Date,
    before: Set<Date>,
    results: Seq<SweepResult>,
    at: nat,
)
    requires
        at <= files.len(),
    ensures
        at <= next_closed(files, as_of, at) <= files.len(),
        swept(files.take(next_closed(files, as_of, at) as int), as_of, before, results) == swept(
            files.take(at as int),
            as_of,
            before,
            results,
        ),
    decreases files.len() - at,
{
    if at < files.len() && !files[at as int].date.precedes(as_of) {
        lemma_open_are_passed(files, as_of, before, results, at + 1);
        assert(files.take((at + 1) as int).drop_last() =~= files.take(at as int));
    }
}

/// A run begins in step with the markers that are there.
pub proof fn law_run_begins_in_step(
    run: VenueSweep,
    before: Set<Date>,
    results: Seq<SweepResult>,
)
    requires
        run.at == next_closed(run.files@, run.as_of, 0),
        run.outcomes@.len() == 0,
    ensures
        in_step(run, before, results, before),
{
    lemma_open_are_passed(run.files@, run.as_of, before, results, 0);
    assert(run.files@.take(0) =~= Seq::<WalFile>::empty());
}

/// A run that is told truly which markers are there and what its conversions
/// come to stays in step with the sweep.
pub proof fn law_run_stays_in_step(
    run: VenueSweep,
    next: VenueSweep,
    before: Set<Date>,
    results: Seq<SweepResult>,
    markers: Set<Date>,
)
    requires
        run.wf(),
        run.at < run.files@.len(),
        in_step(run, before, results, markers),
    ensures
        !run.due && run.after_probe(markers.contains(run.files@[run.at as int].date), next)
            ==> in_step(next, before, results, markers),
        run.due && !markers.contains(run.files@[run.at as int].date) && run.after_conversion(
            results[run.at as int],
            next,
        ) ==> in_step(
            next,
            before,
            results,
            if results[run.at as int] is Converted {
                markers.insert(run.files@[run.at as int].date)
            } else {
                markers
            },
        ),
{
    let files = run.files@;
    let at = run.at as int;
    lemma_open_are_passed(files, run.as_of, before, results, (at + 1) as nat);
    assert(files.take(at + 1).drop_last() =~= files.take(at));
    let s = swept(files.take(at), run.as_of, before, results);
    let t = swept(files.take(at + 1), run.as_of, before, results);
    if run.due && !markers.contains(files[at].date) && run.after_conversion(results[at], next) {
        assert(t.told == s.told.push(at));
        assert forall|k: int| 0 <= k < t.told.len() implies next.reports(
            #[trigger] t.told[k],
            results[t.told[k]],
            next.outcomes@[k],
        ) by {
            if k < s.told.len() {
                assert(t.told[k] == s.told[k]);
                assert(next.outcomes@[k] == next.outcomes@.drop_last()[k]);
            }
        }
    }
}

/// The positions below `n` whose logs are due.
pub open spec fn due_positions(files: Seq<WalFile>, as_of: Date, markers: Set<Date>, n: nat) -> Seq<
    int,
>
    decreases n,
{
    if n == 0 {
        Seq::empty()
    } else {
        let p = due_positions(files, as_of, markers, (n - 1) as nat);
        if due(files[n - 1], as_of, markers) {
            p.push(n - 1)
        } else {
            p
        }
    }
}

/// A sweep reports exactly the logs whose day is over and had no marker before
/// it, in their order, whatever the conversions come to: one that fails does not
/// stop the rest.
pub proof fn law_sweep_reports_what_was_due(
    files: Seq<WalFile>,
    as_of: Date,
    before: Set<Date>,
    results: Seq<SweepResult>,
)
    requires
        forall|i: int, j: int|
            0 <= i < j < files.len() ==> (#[trigger] files[i]).date != (#[trigger] files[j]).date,
    ensures
        swept(files, as_of, before, results).told == due_positions(
            files,
            as_of,
            before,
            files.len(),
        ),
        forall|d: Date| #[trigger]
            swept(files, as_of, before, results).markers.contains(d) ==> before.contains(d)
                || exists|i: int| 0 <= i < files.len() && (#[trigger] files[i]).date == d,
    decreases files.len(),
{
    if files.len() > 0 {
        let p = files.drop_last();
        let n = files.len() - 1;
        assert forall|i: int, j: int| 0 <= i < j < p.len() implies (#[trigger] p[i]).date != (
        #[trigger] p[j]).date by {
            assert(p[i] == files[i] && p[j] == files[j]);
        }
        law_sweep_reports_what_was_due(p, as_of, before, results);
        lemma_due_of_prefix(files, as_of, before, n as nat);
        let s = swept(p, as_of, before, results);
        lemma_markers_grow(p, as_of, before, results);
        assert(s.markers.contains(files[n].date) == before.contains(files[n].date)) by {
            if s.markers.contains(files[n].date) && !before.contains(files[n].date) {
                let i = choose|i: int| 0 <= i < p.len() && (#[trigger] p[i]).date == files[n].date;
                assert(files[i].date != files[n].date);
            }
        }
        assert forall|d: Date| #[trigger]
            swept(files, as_of, before, results).markers.contains(d) implies before.contains(d)
            || exists|i: int| 0 <= i < files.len() && (#[trigger] files[i]).date == d by {
            if s.markers.contains(d) {
                if !before.contains(d) {
                    let i = choose|i: int| 0 <= i < p.len() && (#[trigger] p[i]).date == d;
                    assert(files[i].date == d);
                }
            } else {
                assert(files[n].date == d);
            }
        }
    }
}

proof fn lemma_due_of_prefix(files: Seq<WalFile>, as_of: Date, markers: Set<Date>, n: nat)
    requires
        n < files.len(),
    ensures
        due_positions(files, as_of, markers, n) == due_positions(
            files.drop_last(),
            as_of,
            markers,
            n,
        ),
    decreases n,
{
    if n > 0 {
        lemma_due_of_prefix(files, as_of, markers, (n - 1) as nat);
        assert(files.drop_last()[n - 1] == files[n - 1]);
    }
}

proof fn lemma_markers_grow(
    files: Seq<WalFile>,
    as_of: Date,
    before: Set<Date>,
    results: Seq<SweepResult>,
)
    ensures
        before.subset_of(swept(files, as_of, before, results).markers),
    decreases files.len(),
{
    if files.len() > 0 {
        lemma_markers_grow(files.drop_last(), as_of, before, results);
    }
}

/// After a sweep every log is open, has a marker, or was reported without being
/// converted.
proof fn lemma_left_behind(
    files: Seq<WalFile>,
    as_of: Date,
    before: Set<Date>,
    results: Seq<SweepResult>,
    i: int,
)
    requires
        0 <= i < files.len(),
        due(files[i], as_of, swept(files, as_of, before, results).markers),
    ensures
        swept(files, as_of, before, results).told.contains(i),
        !(results[i] is Converted),
    decreases files.len(),
{
    let p = files.drop_last();
    let n = files.len() - 1;
    let s = swept(p, as_of, before, results);
    let t = swept(files, as_of, before, results);
    assert(s.markers.subset_of(t.markers));
    if i < n {
        assert(p[i] == files[i]);
        lemma_left_behind(p, as_of, before, results, i);
        let k = s.told.index_of(i);
        assert(t.told[k] == i);
    } else {
        assert(t.told == s.told.push(n));
        assert(t.told[t.told.len() - 1] == n);
    }
}

/// A second sweep reports of a log only if the first one did and did not convert
/// it: what was converted is not reported again, and where everything was, the
/// second sweep reports nothing.
pub proof fn law_second_sweep_is_silent(
    files: Seq<WalFile>,
    as_of: Date,
    before: Set<Date>,
    results: Seq<SweepResult>,
    again: Seq<SweepResult>,
)
    ensures
        ({
            let first = swept(files, as_of, before, results);
            let second = swept(files, as_of, first.markers, again);
            &&& forall|i: int| #[trigger]
                second.told.contains(i) ==> 0 <= i < files.len() && first.told.contains(i) && !(
                results[i] is Converted)
            &&& (forall|i: int| #[trigger] first.told.contains(i) ==> results[i] is Converted)
                ==> second.told.len() == 0
        }),
{
    let first = swept(files, as_of, before, results);
    let second = swept(files, as_of, first.markers, again);
    assert forall|i: int| #[trigger] second.told.contains(i) implies 0 <= i < files.len()
        && first.told.contains(i) && !(results[i] is Converted) by {
        lemma_told_was_due(files, as_of, first.markers, again, i);
        lemma_left_behind(files, as_of, before, results, i);
    }
    if second.told.len() > 0 {
        assert(second.told.contains(second.told[0]));
    }
}

proof fn lemma_told_was_due(
    files: Seq<WalFile>,
    as_of: Date,
    before: Set<Date>,
    results: Seq<SweepResult>,
    i: int,
)
    requires
        swept(files, as_of, before, results).told.contains(i),
    ensures
        0 <= i < files.len(),
        due(files[i], as_of, before),
    decreases files.len(),
{
    let p = files.drop_last();
    let n = files.len() - 1;
    let s = swept(p, as_of, before, results);
    let t = swept(files, as_of, before, results);
    if files.len() > 0 {
        lemma_markers_grow(p, as_of, before, results);
        if i != n {
            let k = t.told.index_of(i);
            assert(s.told[k] == i);
            lemma_told_was_due(p, as_of, before, results, i);
        } else if !due(files[n], as_of, s.markers) {
            lemma_told_was_due(p, as_of, before, results, i);
        }
    }
}

} // verus!
