//! Calendar months, the unit backfilled history is partitioned by.
use super::BackfillError;
use crate::calendar::{
    date_exists, day_exists, day_number, law_dates_are_ordered, law_month_length, to_unsigned, unsigned, Date, DAY_MS, MAX_YEAR, MIN_YEAR,
};
use crate::text::{
    after_first, before_first, law_padded_parses, law_split_at_first, lemma_padded, padded,
    parse_bounded, parse_uint, push_padded, quote, quoted, split_first,
};
use crate::types::{signed, to_signed};
use vstd::prelude::*;
use vstd::string::*;

verus! {

/// One calendar month.
#[derive(Debug, Clone, Copy, PartialEq, Eq, PartialOrd, Ord, Structural)]
pub struct Month {
    pub year: i32,
    pub month: u32,
}

/// What is wrong with a text that should be a month; nothing if it is one.
pub open spec fn month_fault(s: Seq<char>) -> Option<Seq<char>> {
    if !s.contains('-') {
        Some("want YYYY-MM"@)
    } else if parse_uint(before_first(s, '-'), i32::MAX as nat) is None {
        Some("bad year"@)
    } else {
        match parse_uint(after_first(s, '-'), u32::MAX as nat) {
            None => Some("bad month"@),
            Some(m) => if 1 <= m <= 12 {
                None
            } else {
                Some("01..=12"@)
            },
        }
    }
}

/// The message for such a text.
pub open spec fn fault_text(s: Seq<char>, reason: Seq<char>) -> Seq<char> {
    "month "@ + quoted(s) + ": "@ + reason
}

/// The month a text without a fault denotes.
pub open spec fn month_value(s: Seq<char>) -> Month {
    Month {
        year: parse_uint(before_first(s, '-'), i32::MAX as nat)->0 as i32,
        month: parse_uint(after_first(s, '-'), u32::MAX as nat)->0 as u32,
    }
}

/// `r` is what reading `s` as `YYYY-MM` gives.
pub open spec fn month_read(s: Seq<char>, r: Result<Month, BackfillError>) -> bool {
    match month_fault(s) {
        Some(reason) => r matches Err(BackfillError::Invalid(e)) && e@ == fault_text(s, reason),
        None => r matches Ok(m) && m == month_value(s) && m.year >= 0 && m.wf(),
    }
}

/// The instant, in milliseconds since the epoch, falls on a day of the month.
pub open spec fn falls_in(ms: int, r: Month) -> bool {
    exists|d: int| #[trigger]
        date_exists(r.year as int, r.month as int, d) && day_number(
            r.year as int,
            r.month as int,
            d,
        ) == ms / DAY_MS as int
}

fn invalid(s: &str, reason: &str) -> (r: BackfillError)
    ensures
        r matches BackfillError::Invalid(e) && e@ == fault_text(s@, reason@),
{
    BackfillError::Invalid(
        "month ".to_owned().concat(quote(s).as_str()).concat(": ").concat(reason),
    )
}

impl Month {
    /// A month there is in every year.
    pub open spec fn wf(self) -> bool {
        1 <= self.month <= 12
    }

    /// Months since the January of year 0.
    pub open spec fn ordinal(self) -> int {
        self.year * 12 + self.month - 1
    }

    /// Whether the month comes strictly before another.
    pub open spec fn precedes(self, o: Month) -> bool {
        self.year < o.year || (self.year == o.year && self.month < o.month)
    }

    /// The month after.
    pub open spec fn following(self) -> Month {
        if self.month == 12 {
            Month { year: (self.year + 1) as i32, month: 1 }
        } else {
            Month { year: self.year, month: (self.month + 1) as u32 }
        }
    }

    /// The month and the one after begin on dates that exist.
    pub open spec fn dated(self) -> bool {
        self.wf() && MIN_YEAR <= self.year && self.year < MAX_YEAR + (if self.month < 12 {
            1int
        } else {
            0
        })
    }

    /// Milliseconds from the epoch to the midnight the month begins with.
    pub open spec fn start(self) -> int {
        day_number(self.year as int, self.month as int, 1) * DAY_MS
    }

    /// `YYYY-MM`.
    pub open spec fn text(self) -> Seq<char> {
        (if self.year >= 0 {
            padded(self.year as nat, 4)
        } else {
            "-"@ + padded((-self.year) as nat, 3)
        }) + "-"@ + padded(self.month as nat, 2)
    }

    /// Parse `YYYY-MM`.
    pub fn parse(s: &str) -> (r: Result<Month, BackfillError>)
        ensures
            month_read(s@, r),
    {
        let (y, m): (String, String) = match split_first(s, '-') {
            Some(parts) => parts,
            None => {
                return Err(invalid(s, "want YYYY-MM"));
            },
        };
        let year: i32 = match parse_bounded(y.as_str(), i32::MAX as u64) {
            Some(v) => v as i32,
            None => {
                return Err(invalid(s, "bad year"));
            },
        };
        let month: u32 = match parse_bounded(m.as_str(), u32::MAX as u64) {
            Some(v) => v as u32,
            None => {
                return Err(invalid(s, "bad month"));
            },
        };
        if !(1 <= month && month <= 12) {
            return Err(invalid(s, "01..=12"));
        }
        Ok(Month { year, month })
    }

    /// The month of an instant; the epoch's where there is none.
    pub fn of_ms(ms: u64) -> (r: Month)
        ensures
            r.wf(),
            MIN_YEAR <= r.year <= MAX_YEAR,
            day_exists(signed(ms) / DAY_MS as int) ==> falls_in(signed(ms), r),
            !day_exists(signed(ms) / DAY_MS as int) ==> r == (Month { year: 1970, month: 1 }),
    {
        let date: Date = Date::of_millis(to_signed(ms));
        assert(date_exists(date.year as int, date.month as int, date.day as int));
        Month { year: date.year, month: date.month }
    }

    /// The month a date lies in.
    pub fn of_date(date: &Date) -> (r: Month)
        ensures
            r == (Month { year: date.year, month: date.month }),
    {
        Month { year: date.year, month: date.month }
    }

    /// The month after.
    pub fn next(self) -> (r: Month)
        requires
            self.month == 12 ==> self.year < i32::MAX,
            self.month < u32::MAX,
        ensures
            r == self.following(),
            self.wf() ==> r.wf() && r.ordinal() == self.ordinal() + 1,
    {
        if self.month == 12 {
            Month { year: self.year + 1, month: 1 }
        } else {
            Month { year: self.year, month: self.month + 1 }
        }
    }

    /// The month in UTC, from its first instant to the first of the next, in
    /// milliseconds since the epoch.
    pub fn bounds_ms(self) -> (r: (u64, u64))
        requires
            self.dated(),
        ensures
            r.0 == unsigned(self.start()),
            r.1 == unsigned(self.following().start()),
    {
        let first: Date = Date { year: self.year, month: self.month, day: 1 };
        let n: Month = self.next();
        let last: Date = Date { year: n.year, month: n.month, day: 1 };
        (to_unsigned(first.start_ms()), to_unsigned(last.start_ms()))
    }

    /// Whether the month comes strictly before another.
    pub fn before(&self, o: &Month) -> (r: bool)
        ensures
            r == self.precedes(*o),
    {
        self.year < o.year || (self.year == o.year && self.month < o.month)
    }

    /// All months from this one through `last`, both included.
    pub fn through(self, last: Month) -> (r: Vec<Month>)
        requires
            self.wf(),
            last.wf(),
            !last.precedes(self) ==> (last.year < i32::MAX || last.month < 12),
        ensures
            r@.len() == (if self.ordinal() <= last.ordinal() {
                last.ordinal() - self.ordinal() + 1
            } else {
                0
            }),
            forall|i: int|
                0 <= i < r@.len() ==> (#[trigger] r@[i]).wf() && r@[i].ordinal() == self.ordinal()
                    + i,
    {
        let mut out: Vec<Month> = Vec::new();
        let mut m: Month = self;
        while !last.before(&m)
            invariant
                self.wf(),
                last.wf(),
                m.wf(),
                m.ordinal() == self.ordinal() + out@.len(),
                !last.precedes(m) ==> (last.year < i32::MAX || last.month < 12),
                out@.len() > 0 ==> m.ordinal() <= last.ordinal() + 1,
                forall|i: int|
                    0 <= i < out@.len() ==> (#[trigger] out@[i]).wf() && out@[i].ordinal()
                        == self.ordinal() + i,
            decreases last.ordinal() - m.ordinal() + 1,
        {
            out.push(m);
            m = m.next();
        }
        out
    }

    /// `YYYY-MM`.
    pub fn to_text(&self) -> (r: String)
        ensures
            r@ == self.text(),
    {
        let mut s: String = String::new();
        if self.year >= 0 {
            push_padded(&mut s, self.year as u64, 4);
            assert(s@ =~= padded(self.year as nat, 4));
        } else {
            s.append("-");
            push_padded(&mut s, (-(self.year as i64)) as u64, 3);
            assert(s@ =~= "-"@ + padded((-self.year) as nat, 3));
        }
        s.append("-");
        push_padded(&mut s, self.month as u64, 2);
        s
    }
}

/// A month's text reads back as the month.
pub proof fn law_month_reads_back(m: Month, r: Result<Month, BackfillError>)
    requires
        m.wf(),
        m.year >= 0,
        month_read(m.text(), r),
    ensures
        r == Ok::<Month, BackfillError>(m),
{
    let y = padded(m.year as nat, 4);
    let k = padded(m.month as nat, 2);
    reveal_strlit("-");
    assert("-"@ =~= seq!['-']);
    lemma_padded(m.year as nat, 4);
    assert(!y.contains('-')) by {
        if y.contains('-') {
            let i = y.index_of('-');
            assert(crate::text::is_digit(y[i]));
        }
    }
    assert(m.text() == y + seq!['-'] + k);
    law_split_at_first(y, '-', k);
    law_padded_parses(m.year as nat, 4, i32::MAX as nat);
    law_padded_parses(m.month as nat, 2, u32::MAX as nat);
    assert(m.text()[y.len() as int] == '-');
}

/// The order of months is the order of their ordinals.
pub proof fn law_months_are_ordered(a: Month, b: Month)
    requires
        a.wf(),
        b.wf(),
    ensures
        a.precedes(b) <==> a.ordinal() < b.ordinal(),
        a == b <==> a.ordinal() == b.ordinal(),
{
}

/// An instant falls in the month whose bounds hold it and in no other: the
/// first instant does, the last does, the first of the next month does not.
pub proof fn law_month_holds_its_instants(m: Month, ms: int, r: Month)
    requires
        m.dated(),
        r.wf(),
        falls_in(ms, r),
    ensures
        r == m <==> m.start() <= ms < m.following().start(),
{
    let day = ms / DAY_MS as int;
    let d = choose|d: int| #[trigger]
        date_exists(r.year as int, r.month as int, d) && day_number(
            r.year as int,
            r.month as int,
            d,
        ) == day;
    let n = m.following();
    let a = day_number(m.year as int, m.month as int, 1);
    let b = day_number(n.year as int, n.month as int, 1);
    assert(a <= day < b <==> a * 86_400_000 <= ms < b * 86_400_000);
    if r.precedes(m) {
        law_dates_are_ordered(r.year as int, r.month as int, d, m.year as int, m.month as int, 1);
    } else if m.precedes(r) {
        assert(!r.precedes(n));
        if !(r == n && d == 1) {
            law_dates_are_ordered(
                n.year as int,
                n.month as int,
                1,
                r.year as int,
                r.month as int,
                d,
            );
        }
    } else {
        if d > 1 {
            law_dates_are_ordered(m.year as int, m.month as int, 1, r.year as int, r.month as int, d);
        }
        law_dates_are_ordered(r.year as int, r.month as int, d, n.year as int, n.month as int, 1);
    }
}

/// Months tile time: each is as long as its days, and the next begins where it
/// ends.
pub proof fn law_months_tile(m: Month)
    requires
        m.dated(),
    ensures
        m.start() + 28 * DAY_MS <= m.following().start() <= m.start() + 31 * DAY_MS,
        m.following().wf(),
{
    law_month_length(m.year as int, m.month as int);
}

} // verus!
