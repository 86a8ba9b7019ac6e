//! Which log file a record goes to. Files are dated by receive time, so they
//! hold records in the order of their arrival, and they close at midnight.
use crate::calendar::{law_dates_are_distinct, nanos_to_date, Date, DAY_NS};
use crate::paths::{join, path_join};
use crate::text::same;
use crate::types::Nanos;
use vstd::prelude::*;
use vstd::string::*;

verus! {

/// How often written records are made durable.
pub const FSYNC_INTERVAL_NS: u64 = 1_000_000_000;

/// How many records may wait for the writer: a couple of seconds' burst, so that
/// one slow sync does not hold up the venue connection.
pub const CHANNEL_CAPACITY: usize = 100_000;

/// What is left of the time between two syncs.
pub open spec fn until_sync(elapsed_ns: u64) -> u64 {
    if elapsed_ns <= FSYNC_INTERVAL_NS {
        (FSYNC_INTERVAL_NS - elapsed_ns) as u64
    } else {
        0
    }
}

/// How long the writer may wait for a record before it has to sync.
pub fn sync_wait(elapsed_ns: u64) -> (r: u64)
    ensures
        r == (if elapsed_ns <= FSYNC_INTERVAL_NS {
            FSYNC_INTERVAL_NS - elapsed_ns
        } else {
            0
        }),
        r == until_sync(elapsed_ns),
{
    if elapsed_ns <= FSYNC_INTERVAL_NS {
        FSYNC_INTERVAL_NS - elapsed_ns
    } else {
        0
    }
}

/// Whether a sync is due.
pub fn sync_due(elapsed_ns: u64) -> (r: bool)
    ensures
        r == (elapsed_ns >= FSYNC_INTERVAL_NS),
        r == (until_sync(elapsed_ns) == 0),
{
    elapsed_ns >= FSYNC_INTERVAL_NS
}

/// A file that is being written.
#[derive(Debug)]
pub struct LogFile {
    pub venue: String,
    pub date: Date,
    pub path: String,
}

impl Clone for LogFile {
    fn clone(&self) -> (r: Self)
        ensures
            r == *self,
    {
        LogFile { venue: self.venue.clone(), date: self.date, path: self.path.clone() }
    }
}

/// Where the records of a venue and a day go.
pub open spec fn log_path(
    base_dir: Seq<char>,
    venue: Seq<char>,
    date: Date,
    extension: Seq<char>,
) -> Seq<char> {
    path_join(path_join(base_dir, venue), date.text() + "."@ + extension)
}

/// The file of the venue and the day is open.
pub open spec fn is_open(open: Seq<LogFile>, venue: Seq<char>, date: Date) -> bool {
    exists|i: int|
        0 <= i < open.len() && (#[trigger] open[i]).venue@ == venue && open[i].date == date
}

/// Where a record goes.
#[derive(Debug)]
pub struct Routed {
    pub date: Date,
    pub path: String,
    /// The file was not open: it is now.
    pub opened: bool,
    /// It belongs to a day that is over.
    pub late: bool,
}

/// A record is filed under its venue and the day it was received.
pub open spec fn files_under(
    o: LogBook,
    n: LogBook,
    venue: Seq<char>,
    local_ts: Nanos,
    today: Date,
    r: Routed,
) -> bool {
    &&& r.date.number() == local_ts as int / DAY_NS as int
    &&& r.path@ == log_path(o.base_dir@, venue, r.date, o.extension@)
    &&& r.opened == !is_open(o.open@, venue, r.date)
    &&& r.late == (r.opened && r.date.precedes(today))
    &&& is_open(n.open@, venue, r.date)
}

/// The files of days that are over are closed, the others stay open.
pub open spec fn closes(
    o: Seq<LogFile>,
    n: Seq<LogFile>,
    closed: Seq<LogFile>,
    today: Date,
) -> bool {
    &&& n == o.filter(|f: LogFile| !f.date.precedes(today))
    &&& closed == o.filter(|f: LogFile| f.date.precedes(today))
}

/// The files that are being written.
#[derive(Debug)]
pub struct LogBook {
    pub base_dir: String,
    pub extension: String,
    pub open: Vec<LogFile>,
}

impl LogBook {
    /// No file is open twice, and each is where its venue and day belong.
    pub open spec fn wf(self) -> bool {
        &&& forall|i: int, j: int|
            0 <= i < j < self.open@.len() ==> (#[trigger] self.open@[i]).venue@ != (
            #[trigger] self.open@[j]).venue@ || self.open@[i].date != self.open@[j].date
        &&& forall|i: int|
            0 <= i < self.open@.len() ==> (#[trigger] self.open@[i]).path@ == log_path(
                self.base_dir@,
                self.open@[i].venue@,
                self.open@[i].date,
                self.extension@,
            )
    }

    pub fn new(base_dir: &str, extension: &str) -> (r: LogBook)
        ensures
            r.wf(),
            r.base_dir@ == base_dir@,
            r.extension@ == extension@,
            r.open@.len() == 0,
    {
        LogBook {
            base_dir: base_dir.to_owned(),
            extension: extension.to_owned(),
            open: Vec::new(),
        }
    }

    fn has(&self, venue: &str, date: &Date) -> (r: bool)
        ensures
            r == is_open(self.open@, venue@, *date),
    {
        let mut i: usize = 0;
        while i < self.open.len()
            invariant
                i <= self.open@.len(),
                forall|j: int|
                    0 <= j < i ==> (#[trigger] self.open@[j]).venue@ != venue@
                        || self.open@[j].date != *date,
            decreases self.open@.len() - i,
        {
            if self.open[i].date == *date && same(self.open[i].venue.as_str(), venue) {
                assert(self.open@[i as int].venue@ == venue@);
                return true;
            }
            i = i + 1;
        }
        false
    }

    /// Route a record of a venue by the time it was received.
    pub fn route(&mut self, venue: &str, local_ts: Nanos, today: &Date) -> (r: Routed)
        requires
            old(self).wf(),
        ensures
            final(self).wf(),
            final(self).base_dir == old(self).base_dir,
            final(self).extension == old(self).extension,
            r.date.wf(),
            r.date.number() == local_ts as int / DAY_NS as int,
            r.path@ == log_path(old(self).base_dir@, venue@, r.date, old(self).extension@),
            r.opened == !is_open(old(self).open@, venue@, r.date),
            r.late == (r.opened && r.date.precedes(*today)),
            if r.opened {
                final(self).open@.len() == old(self).open@.len() + 1
                    && final(self).open@.drop_last() == old(self).open@
                    && final(self).open@.last().venue@ == venue@ && final(self).open@.last().date
                    == r.date
            } else {
                final(self).open@ == old(self).open@
            },
            files_under(*old(self), *final(self), venue@, local_ts, *today, r),
    {
        let date: Date = nanos_to_date(local_ts);
        let dir: String = join(self.base_dir.as_str(), venue);
        let name: String = date.to_text().concat(".").concat(self.extension.as_str());
        let path: String = join(dir.as_str(), name.as_str());
        let opened: bool = !self.has(venue, &date);
        if opened {
            let ghost o = self.open@;
            self.open.push(LogFile { venue: venue.to_owned(), date, path: path.clone() });
            proof {
                let n = self.open@;
                assert(n.drop_last() =~= o);
                assert(n[n.len() - 1].venue@ == venue@ && n[n.len() - 1].date == date);
                assert forall|i: int, j: int| 0 <= i < j < n.len() implies (#[trigger] n[i]).venue@
                    != (#[trigger] n[j]).venue@ || n[i].date != n[j].date by {
                    assert(n[i] == o[i]);
                    if j < o.len() {
                        assert(n[j] == o[j]);
                    }
                }
            }
        }
        let late: bool = opened && date.before(today);
        Routed { date, path, opened, late }
    }

    /// Close the files of days that are over: they are complete.
    pub fn rotate(&mut self, today: &Date) -> (r: Vec<LogFile>)
        requires
            old(self).wf(),
        ensures
            final(self).wf(),
            final(self).base_dir == old(self).base_dir,
            final(self).extension == old(self).extension,
            final(self).open@ == old(self).open@.filter(|f: LogFile| !f.date.precedes(*today)),
            r@ == old(self).open@.filter(|f: LogFile| f.date.precedes(*today)),
            closes(old(self).open@, final(self).open@, r@, *today),
    {
        let ghost o = self.open@;
        let ghost keep = |f: LogFile| !f.date.precedes(*today);
        let ghost drop = |f: LogFile| f.date.precedes(*today);
        let mut kept: Vec<LogFile> = Vec::new();
        let mut closed: Vec<LogFile> = Vec::new();
        let mut i: usize = 0;
        proof {
            reveal(Seq::filter);
        }
        while i < self.open.len()
            invariant
                i <= self.open@.len(),
                self.open@ == o,
                keep == (|f: LogFile| !f.date.precedes(*today)),
                drop == (|f: LogFile| f.date.precedes(*today)),
                kept@ == o.take(i as int).filter(keep),
                closed@ == o.take(i as int).filter(drop),
            decreases self.open@.len() - i,
        {
            proof {
                reveal(Seq::filter);
                let t = o.take(i + 1);
                assert(t.drop_last() =~= o.take(i as int));
                assert(t.last() == o[i as int]);
            }
            if self.open[i].date.before(today) {
                closed.push(self.open[i].clone());
            } else {
                kept.push(self.open[i].clone());
            }
            i = i + 1;
        }
        proof {
            assert(o.take(o.len() as int) =~= o);
            lemma_kept(*old(self), o, keep);
        }
        self.open = kept;
        closed
    }
}

proof fn lemma_kept(b: LogBook, s: Seq<LogFile>, keep: spec_fn(LogFile) -> bool)
    requires
        forall|i: int, j: int|
            0 <= i < j < s.len() ==> (#[trigger] s[i]).venue@ != (#[trigger] s[j]).venue@
                || s[i].date != s[j].date,
        forall|i: int|
            0 <= i < s.len() ==> (#[trigger] s[i]).path@ == log_path(
                b.base_dir@,
                s[i].venue@,
                s[i].date,
                b.extension@,
            ),
    ensures
        forall|i: int, j: int|
            0 <= i < j < s.filter(keep).len() ==> (#[trigger] s.filter(keep)[i]).venue@ != (
            #[trigger] s.filter(keep)[j]).venue@ || s.filter(keep)[i].date != s.filter(
                keep,
            )[j].date,
        forall|i: int|
            0 <= i < s.filter(keep).len() ==> s.contains(#[trigger] s.filter(keep)[i])
                && s.filter(keep)[i].path@ == log_path(
                b.base_dir@,
                s.filter(keep)[i].venue@,
                s.filter(keep)[i].date,
                b.extension@,
            ),
    decreases s.len(),
{
    reveal(Seq::filter);
    if s.len() > 0 {
        let d = s.drop_last();
        assert forall|i: int, j: int| 0 <= i < j < d.len() implies (#[trigger] d[i]).venue@ != (
        #[trigger] d[j]).venue@ || d[i].date != d[j].date by {
            assert(s[i] == d[i] && s[j] == d[j]);
        }
        assert forall|i: int| 0 <= i < d.len() implies (#[trigger] d[i]).path@ == log_path(
            b.base_dir@,
            d[i].venue@,
            d[i].date,
            b.extension@,
        ) by {
            assert(s[i] == d[i]);
        }
        lemma_kept(b, d, keep);
        let f = s.filter(keep);
        let g = d.filter(keep);
        assert forall|i: int| 0 <= i < f.len() implies s.contains(#[trigger] f[i]) && f[i].path@
            == log_path(b.base_dir@, f[i].venue@, f[i].date, b.extension@) by {
            if i < g.len() {
                assert(d.contains(g[i]));
                let k = d.index_of(g[i]);
                assert(s[k] == f[i]);
            } else {
                assert(s[s.len() - 1] == f[i]);
            }
        }
        assert forall|i: int, j: int| 0 <= i < j < f.len() implies (#[trigger] f[i]).venue@ != (
        #[trigger] f[j]).venue@ || f[i].date != f[j].date by {
            if j < g.len() {
                assert(f[i] == g[i] && f[j] == g[j]);
            } else {
                assert(d.contains(g[i]));
                let k = d.index_of(g[i]);
                assert(s[k] == f[i] && s[s.len() - 1] == f[j]);
            }
        }
    }
}

/// Records of a venue go to one file exactly when they were received on one day.
pub proof fn law_one_file_per_day(a: Date, b: Date, t: Nanos, u: Nanos)
    requires
        a.wf(),
        b.wf(),
        a.number() == t as int / DAY_NS as int,
        b.number() == u as int / DAY_NS as int,
    ensures
        a == b <==> t as int / DAY_NS as int == u as int / DAY_NS as int,
{
    if a.number() == b.number() {
        law_dates_are_distinct(
            a.year as int,
            a.month as int,
            a.day as int,
            b.year as int,
            b.month as int,
            b.day as int,
        );
    }
}

} // verus!
