//! The sweep over closed logs: convert each to tables, judge it, publish both.
//! The report in a day's directory is its completion marker. Everything is
//! written to a temporary directory, the report last, and one rename publishes
//! it: a crash leaves only a temporary directory behind, and a directory without
//! the marker is made anew.
pub mod run;

use super::qa::report::QaStatus;
use crate::calendar::{as_date, ymd_date, Date};
use crate::order::{stable_sort, stable_sort_of, Ranked};
use crate::paths::{join, path_join};
use crate::text::{
    before, dec, ends_in, law_lex_total, law_lex_transitive, lex_lt, push_u64, strip_tail,
};
use vstd::prelude::*;
use vstd::string::*;

verus! {

/// A log younger than this is left alone though its day is closed: the writer
/// reopens a day for a moment when a backlog crosses midnight.
pub const FRESH_GUARD_NS: u64 = 600_000_000_000;

pub const QA_REPORT_FILE: &'static str = "qa_report.json";

#[derive(Debug)]
pub struct SweepOutcome {
    pub venue: String,
    pub date: Date,
    pub wal_path: String,
    pub result: SweepResult,
}

#[derive(Debug)]
pub enum SweepResult {
    Converted { status: QaStatus, report_path: String },
    /// No report came of it; the next sweep tries again.
    Failed(String),
    /// Closed but written a moment ago.
    SkippedFresh,
}

/// A log with the day in its name.
#[derive(Debug)]
pub struct WalFile {
    pub date: Date,
    pub name: String,
}

/// Logs are ordered by day, then by name.
impl Ranked for WalFile {
    open spec fn rank_le(a: Self, b: Self) -> bool {
        a.date.precedes(b.date) || (a.date == b.date && !lex_lt(b.name@, a.name@))
    }

    proof fn rank_total(a: Self, b: Self) {
        law_lex_total(a.name@, b.name@);
    }

    proof fn rank_transitive(a: Self, b: Self, c: Self) {
        law_lex_total(a.name@, b.name@);
        law_lex_total(b.name@, c.name@);
        law_lex_total(a.name@, c.name@);
        if lex_lt(a.name@, b.name@) && lex_lt(b.name@, c.name@) {
            law_lex_transitive(a.name@, b.name@, c.name@);
        }
    }

    fn not_after(&self, other: &Self) -> (r: bool) {
        self.date.before(&other.date) || (self.date == other.date && !before(
            other.name.as_str(),
            self.name.as_str(),
        ))
    }
}

/// The day of a log's name, if it is one.
pub open spec fn wal_day(name: Seq<char>) -> Option<Date> {
    if ends_in(name, ".wal"@) {
        match as_date(ymd_date(name.take(name.len() - ".wal"@.len()))) {
            Ok(d) => Some(d),
            Err(_) => None,
        }
    } else {
        None
    }
}

/// The names that are logs, in order.
pub open spec fn wal_names(names: Seq<String>) -> Seq<String> {
    names.filter(|n: String| wal_day(n@) is Some)
}

/// `e` lists the logs with their days.
pub open spec fn lists_wals(names: Seq<String>, e: Seq<WalFile>) -> bool {
    &&& e.len() == wal_names(names).len()
    &&& forall|i: int|
        0 <= i < e.len() ==> (#[trigger] e[i]).name == wal_names(names)[i] && wal_day(e[i].name@)
            == Some(e[i].date)
}

/// The logs among the names of a directory, earliest first.
pub fn wal_files(names: &Vec<String>) -> (r: Vec<WalFile>)
    ensures
        exists|e: Seq<WalFile>| #[trigger] lists_wals(names@, e) && stable_sort_of(e, r@),
        forall|i: int| 0 <= i < r@.len() ==> (#[trigger] r@[i]).date.wf(),
{
    let mut out: Vec<WalFile> = Vec::new();
    let mut i: usize = 0;
    proof {
        reveal(Seq::filter);
    }
    while i < names.len()
        invariant
            i <= names@.len(),
            lists_wals(names@.take(i as int), out@),
            forall|j: int| 0 <= j < out@.len() ==> (#[trigger] out@[j]).date.wf(),
        decreases names@.len() - i,
    {
        proof {
            reveal(Seq::filter);
            let t = names@.take(i + 1);
            assert(t.drop_last() =~= names@.take(i as int));
            assert(t.last() == names@[i as int]);
        }
        if let Some(stem) = strip_tail(names[i].as_str(), ".wal") {
            if let Ok(date) = Date::parse_ymd(stem.as_str()) {
                out.push(WalFile { date, name: names[i].clone() });
            }
        }
        i = i + 1;
    }
    assert(names@.take(names@.len() as int) =~= names@);
    let ghost e = out@;
    let sorted: Vec<WalFile> = stable_sort(out);
    proof {
        assert(lists_wals(names@, e) && stable_sort_of(e, sorted@));
        assert forall|j: int| 0 <= j < sorted@.len() implies (#[trigger] sorted@[j]).date.wf() by {
            broadcast use vstd::seq_lib::group_to_multiset_ensures;

            assert(sorted@.to_multiset().count(sorted@[j]) > 0);
            assert(e.contains(sorted@[j]));
        }
    }
    sorted
}

/// The day is over, and nothing was published for it.
pub open spec fn closed_and_unpublished(date: Date, as_of: Date, marker_exists: bool) -> bool {
    date.precedes(as_of) && !marker_exists
}

/// Whether a log is to be converted: its day is over and nothing was published
/// for it yet.
pub fn is_due(date: &Date, as_of: &Date, marker_exists: bool) -> (r: bool)
    ensures
        r == (date.precedes(*as_of) && !marker_exists),
        r == closed_and_unpublished(*date, *as_of, marker_exists),
{
    date.before(as_of) && !marker_exists
}

/// What the age of a log decides.
pub open spec fn gates(age_ns: Result<u64, String>, r: Option<SweepResult>) -> bool {
    match age_ns {
        Ok(age) => if age < FRESH_GUARD_NS {
            r == Some(SweepResult::SkippedFresh)
        } else {
            r is None
        },
        Err(e) => r matches Some(SweepResult::Failed(t)) && t@ == "stat failed: "@ + e@,
    }
}

/// What the age of a log, or the error of looking it up, decides before anything
/// is converted.
pub fn age_gate(age_ns: &Result<u64, String>) -> (r: Option<SweepResult>)
    ensures
        match age_ns {
            Ok(age) => if *age < FRESH_GUARD_NS {
                r == Some(SweepResult::SkippedFresh)
            } else {
                r is None
            },
            Err(e) => r matches Some(SweepResult::Failed(t)) && t@ == "stat failed: "@ + e@,
        },
        gates(*age_ns, r),
{
    match age_ns {
        Ok(age) => if *age < FRESH_GUARD_NS {
            Some(SweepResult::SkippedFresh)
        } else {
            None
        },
        Err(e) => Some(SweepResult::Failed("stat failed: ".to_owned().concat(e.as_str()))),
    }
}

/// Where a day is published and what on the way there.
#[derive(Debug)]
pub struct PublishPaths {
    pub final_dir: String,
    pub tmp_dir: String,
    pub report_part: String,
    pub tmp_report: String,
    pub report: String,
}

pub open spec fn day_dir(out_root: Seq<char>, venue: Seq<char>, date: Date) -> Seq<char> {
    path_join(path_join(out_root, venue), date.text())
}

pub open spec fn day_tmp(out_root: Seq<char>, venue: Seq<char>, date: Date) -> Seq<char> {
    path_join(path_join(out_root, venue), ".tmp-"@ + date.text())
}

pub fn publish_paths(out_root: &str, venue: &str, date: &Date) -> (r: PublishPaths)
    requires
        date.wf(),
    ensures
        r.final_dir@ == day_dir(out_root@, venue@, *date),
        r.tmp_dir@ == day_tmp(out_root@, venue@, *date),
        r.report_part@ == path_join(
            day_tmp(out_root@, venue@, *date),
            QA_REPORT_FILE@ + ".part"@,
        ),
        r.tmp_report@ == path_join(day_tmp(out_root@, venue@, *date), QA_REPORT_FILE@),
        r.report@ == path_join(day_dir(out_root@, venue@, *date), QA_REPORT_FILE@),
{
    let venue_out: String = join(out_root, venue);
    let text: String = date.to_text();
    let final_dir: String = join(venue_out.as_str(), text.as_str());
    let tmp_dir: String = join(
        venue_out.as_str(),
        ".tmp-".to_owned().concat(text.as_str()).as_str(),
    );
    PublishPaths {
        report_part: join(tmp_dir.as_str(), QA_REPORT_FILE.to_owned().concat(".part").as_str()),
        tmp_report: join(tmp_dir.as_str(), QA_REPORT_FILE),
        report: join(final_dir.as_str(), QA_REPORT_FILE),
        final_dir,
        tmp_dir,
    }
}

/// The steps of publishing a day, in order.
#[derive(Debug, Clone, Copy, PartialEq, Eq, Structural)]
pub enum PublishStep {
    /// Remove what a crash left in the temporary directory.
    CleanTmp,
    /// Remove output without a marker: derived data, made anew.
    CleanOutput,
    CreateTmp,
    /// Convert; a failed conversion goes into the report.
    Convert,
    Judge,
    Serialize,
    WriteReport,
    /// The report gets its name in the temporary directory.
    FinalizeReport,
    /// One rename publishes tables and report.
    Publish,
    Done,
}

/// How far a step is.
pub open spec fn step_rank(s: PublishStep) -> int {
    match s {
        PublishStep::CleanTmp => 0,
        PublishStep::CleanOutput => 1,
        PublishStep::CreateTmp => 2,
        PublishStep::Convert => 3,
        PublishStep::Judge => 4,
        PublishStep::Serialize => 5,
        PublishStep::WriteReport => 6,
        PublishStep::FinalizeReport => 7,
        PublishStep::Publish => 8,
        PublishStep::Done => 9,
    }
}

/// The step after a step that succeeded.
pub open spec fn step_after(s: PublishStep, final_exists: bool) -> PublishStep {
    match s {
        PublishStep::CleanTmp => if final_exists {
            PublishStep::CleanOutput
        } else {
            PublishStep::CreateTmp
        },
        PublishStep::CleanOutput => PublishStep::CreateTmp,
        PublishStep::CreateTmp => PublishStep::Convert,
        PublishStep::Convert => PublishStep::Judge,
        PublishStep::Judge => PublishStep::Serialize,
        PublishStep::Serialize => PublishStep::WriteReport,
        PublishStep::WriteReport => PublishStep::FinalizeReport,
        PublishStep::FinalizeReport => PublishStep::Publish,
        PublishStep::Publish => PublishStep::Done,
        PublishStep::Done => PublishStep::Done,
    }
}

/// The first step.
pub fn first_step(tmp_exists: bool, final_exists: bool) -> (r: PublishStep)
    ensures
        r == (if tmp_exists {
            PublishStep::CleanTmp
        } else {
            step_after(PublishStep::CleanTmp, final_exists)
        }),
{
    if tmp_exists {
        PublishStep::CleanTmp
    } else if final_exists {
        PublishStep::CleanOutput
    } else {
        PublishStep::CreateTmp
    }
}

/// The step after a step that succeeded.
pub fn next_step(s: PublishStep, final_exists: bool) -> (r: PublishStep)
    ensures
        r == step_after(s, final_exists),
{
    match s {
        PublishStep::CleanTmp => if final_exists {
            PublishStep::CleanOutput
        } else {
            PublishStep::CreateTmp
        },
        PublishStep::CleanOutput => PublishStep::CreateTmp,
        PublishStep::CreateTmp => PublishStep::Convert,
        PublishStep::Convert => PublishStep::Judge,
        PublishStep::Judge => PublishStep::Serialize,
        PublishStep::Serialize => PublishStep::WriteReport,
        PublishStep::WriteReport => PublishStep::FinalizeReport,
        PublishStep::FinalizeReport => PublishStep::Publish,
        PublishStep::Publish => PublishStep::Done,
        PublishStep::Done => PublishStep::Done,
    }
}

/// The marker lands last: whatever steps come first, nothing is published before
/// the report has its name.
pub proof fn law_report_lands_before_publish(s: PublishStep, final_exists: bool)
    ensures
        s != PublishStep::Done ==> step_rank(step_after(s, final_exists)) > step_rank(s),
        step_after(s, final_exists) == PublishStep::Publish ==> s == PublishStep::FinalizeReport,
        step_after(s, final_exists) == PublishStep::FinalizeReport ==> s
            == PublishStep::WriteReport,
        step_after(s, final_exists) == PublishStep::WriteReport ==> s == PublishStep::Serialize,
        step_after(s, final_exists) == PublishStep::Serialize ==> s == PublishStep::Judge,
{
}

/// What a failed step is called; a conversion does not fail the sweep.
pub open spec fn step_name(s: PublishStep) -> Seq<char> {
    match s {
        PublishStep::CleanTmp => "clean stale tmp"@,
        PublishStep::CleanOutput => "clean partial output"@,
        PublishStep::CreateTmp => "create tmp dir"@,
        PublishStep::Judge => "qa pass failed"@,
        PublishStep::Serialize => "serialize"@,
        PublishStep::WriteReport => "write report"@,
        PublishStep::FinalizeReport => "finalize report"@,
        _ => "publish"@,
    }
}

/// The result of a step that failed.
pub fn step_failed(s: PublishStep, error: &str) -> (r: SweepResult)
    requires
        s != PublishStep::Convert,
        s != PublishStep::Done,
    ensures
        r matches SweepResult::Failed(t) && t@ == step_name(s) + ": "@ + error@,
{
    let name: &str = match s {
        PublishStep::CleanTmp => "clean stale tmp",
        PublishStep::CleanOutput => "clean partial output",
        PublishStep::CreateTmp => "create tmp dir",
        PublishStep::Judge => "qa pass failed",
        PublishStep::Serialize => "serialize",
        PublishStep::WriteReport => "write report",
        PublishStep::FinalizeReport => "finalize report",
        _ => "publish",
    };
    SweepResult::Failed(name.to_owned().concat(": ").concat(error))
}

/// Whether an outcome is a problem.
pub open spec fn is_problem(r: SweepResult) -> bool {
    match r {
        SweepResult::Converted { status, .. } => status == QaStatus::Fail,
        SweepResult::Failed(_) => true,
        SweepResult::SkippedFresh => false,
    }
}

/// How many outcomes are problems.
pub fn problems(outcomes: &Vec<SweepOutcome>) -> (r: usize)
    ensures
        r == outcomes@.filter(|o: SweepOutcome| is_problem(o.result)).len(),
{
    let ghost bad = |o: SweepOutcome| is_problem(o.result);
    let mut n: usize = 0;
    let mut i: usize = 0;
    proof {
        reveal(Seq::filter);
    }
    while i < outcomes.len()
        invariant
            i <= outcomes@.len(),
            n <= i,
            bad == (|o: SweepOutcome| is_problem(o.result)),
            n == outcomes@.take(i as int).filter(bad).len(),
        decreases outcomes@.len() - i,
    {
        let count: usize = outcomes.len();
        proof {
            reveal(Seq::filter);
            let t = outcomes@.take(i + 1);
            assert(t.drop_last() =~= outcomes@.take(i as int));
            assert(t.last() == outcomes@[i as int]);
        }
        let problem: bool = match &outcomes[i].result {
            SweepResult::Converted { status, .. } => *status == QaStatus::Fail,
            SweepResult::Failed(_) => true,
            SweepResult::SkippedFresh => false,
        };
        if problem {
            n = n + 1;
        }
        i = i + 1;
    }
    assert(outcomes@.take(outcomes@.len() as int) =~= outcomes@);
    n
}

/// The line an outcome is reported with.
pub open spec fn outcome_text(o: SweepOutcome) -> Seq<char> {
    o.venue@ + "/"@ + o.date.text() + ": "@ + (match o.result {
        SweepResult::Converted { status, report_path } => (if status == QaStatus::Pass {
            "PASS ("@
        } else {
            "FAIL ("@
        }) + report_path@ + ")"@,
        SweepResult::Failed(e) => "ERROR "@ + e@,
        SweepResult::SkippedFresh => "skipped (recently written)"@,
    })
}

pub fn outcome_line(o: &SweepOutcome) -> (r: String)
    requires
        o.date.wf(),
    ensures
        r@ == outcome_text(*o),
{
    let tail: String = match &o.result {
        SweepResult::Converted { status, report_path } => {
            let head: &str = match status {
                QaStatus::Pass => "PASS (",
                QaStatus::Fail => "FAIL (",
            };
            head.to_owned().concat(report_path.as_str()).concat(")")
        },
        SweepResult::Failed(e) => "ERROR ".to_owned().concat(e.as_str()),
        SweepResult::SkippedFresh => "skipped (recently written)".to_owned(),
    };
    o.venue.clone().concat("/").concat(o.date.to_text().as_str()).concat(": ").concat(
        tail.as_str(),
    )
}

/// The line a sweep ends with.
pub fn summary_line(swept: usize, as_of: &Date, failed: usize) -> (r: String)
    requires
        as_of.wf(),
    ensures
        r@ == "swept "@ + dec(swept as nat) + " file(s) as of "@ + as_of.text() + ", "@ + dec(
            failed as nat,
        ) + " problem(s)"@,
{
    let mut s: String = "swept ".to_owned();
    push_u64(&mut s, swept as u64);
    s.append(" file(s) as of ");
    s.append(as_of.to_text().as_str());
    s.append(", ");
    push_u64(&mut s, failed as u64);
    s.append(" problem(s)");
    s
}

} // verus!
