//! The proleptic Gregorian calendar in UTC: dates, the days they number, and
//! the instants their midnights fall on.
pub mod laws;

use crate::text::{
    all_digits, digits_value, is_digit, lex_lt, padded, parse_bounded, piece, push_padded,
};
use vstd::prelude::*;
use vstd::string::*;

verus! {

pub const MIN_YEAR: i32 = -262_143;

pub const MAX_YEAR: i32 = 262_142;

pub const DAY_MS: i64 = 86_400_000;

pub const DAY_NS: i64 = 86_400_000_000_000;

// ---------------------------------------------------------------------------
// The calendar
// ---------------------------------------------------------------------------

pub open spec fn leap(y: int) -> bool {
    y % 4 == 0 && (y % 100 != 0 || y % 400 == 0)
}

pub open spec fn month_days(y: int, m: int) -> int {
    if m == 2 {
        if leap(y) {
            29
        } else {
            28
        }
    } else if m == 4 || m == 6 || m == 9 || m == 11 {
        30
    } else {
        31
    }
}

/// The date exists and its year is representable.
pub open spec fn date_exists(y: int, m: int, d: int) -> bool {
    MIN_YEAR <= y <= MAX_YEAR && 1 <= m <= 12 && 1 <= d <= month_days(y, m)
}

/// Days from the start of year 1 to the start of year `y`.
pub open spec fn days_before_year(y: int) -> int {
    365 * (y - 1) + (y - 1) / 4 - (y - 1) / 100 + (y - 1) / 400
}

/// Days of year `y` before its month `m`.
pub open spec fn days_before_month(y: int, m: int) -> int
    decreases m,
{
    if m <= 1 {
        0
    } else {
        days_before_month(y, m - 1) + month_days(y, m - 1)
    }
}

/// Days from 1970-01-01 to the date.
pub open spec fn day_number(y: int, m: int, d: int) -> int {
    days_before_year(y) - days_before_year(1970) + days_before_month(y, m) + d - 1
}

/// The first and the last day there is.
pub open spec fn day_exists(n: int) -> bool {
    day_number(MIN_YEAR as int, 1, 1) <= n <= day_number(MAX_YEAR as int, 12, 31)
}

proof fn lemma_months(y: int)
    ensures
        days_before_month(y, 1) == 0,
        days_before_month(y, 2) == 31,
        forall|m: int|
            1 <= m <= 12 ==> 0 <= #[trigger] days_before_month(y, m) && days_before_month(y, m)
                + month_days(y, m) <= 365 + (if leap(y) {
                1int
            } else {
                0
            }),
        days_before_month(y, 12) == 334 + (if leap(y) {
            1int
        } else {
            0
        }),
        days_before_month(y, 12) + month_days(y, 12) == 365 + (if leap(y) {
            1int
        } else {
            0
        }),
{
    reveal_with_fuel(days_before_month, 13);
}

proof fn lemma_four(y: int)
    ensures
        y / 4 == (y - 1) / 4 + (if y % 4 == 0 {
            1int
        } else {
            0
        }),
{
}

proof fn lemma_hundred(y: int)
    ensures
        y / 100 == (y - 1) / 100 + (if y % 100 == 0 {
            1int
        } else {
            0
        }),
{
}

proof fn lemma_four_hundred(y: int)
    ensures
        y / 400 == (y - 1) / 400 + (if y % 400 == 0 {
            1int
        } else {
            0
        }),
{
}

proof fn lemma_multiples(y: int)
    ensures
        y % 400 == 0 ==> y % 100 == 0,
        y % 100 == 0 ==> y % 4 == 0,
{
}

proof fn lemma_years(y: int)
    ensures
        days_before_year(y + 1) == days_before_year(y) + 365 + (if leap(y) {
            1int
        } else {
            0
        }),
{
    lemma_four(y);
    lemma_hundred(y);
    lemma_four_hundred(y);
    lemma_multiples(y);
    let a = (y - 1) / 4;
    let b = (y - 1) / 100;
    let c = (y - 1) / 400;
    assert(y + 1 - 1 == y);
    assert(days_before_year(y + 1) == 365 * y + y / 4 - y / 100 + y / 400);
    assert(days_before_year(y) == 365 * (y - 1) + a - b + c);
}

proof fn lemma_years_grow(y: int, z: int)
    requires
        y <= z,
    ensures
        days_before_year(y) <= days_before_year(z),
    decreases z - y,
{
    if y < z {
        lemma_years_grow(y, z - 1);
        lemma_years(z - 1);
    }
}

proof fn lemma_months_grow(y: int, m: int, n: int)
    requires
        1 <= m < n <= 12,
    ensures
        days_before_month(y, m) + month_days(y, m) <= days_before_month(y, n),
    decreases n - m,
{
    if m + 1 < n {
        lemma_months_grow(y, m, n - 1);
    }
}

/// Later dates have greater day numbers.
pub proof fn law_dates_are_ordered(y: int, m: int, d: int, y2: int, m2: int, d2: int)
    requires
        date_exists(y, m, d),
        date_exists(y2, m2, d2),
        y < y2 || (y == y2 && (m < m2 || (m == m2 && d < d2))),
    ensures
        day_number(y, m, d) < day_number(y2, m2, d2),
{
    if y < y2 {
        lemma_months(y);
        lemma_months(y2);
        lemma_years(y);
        lemma_years_grow(y + 1, y2);
    } else if m < m2 {
        lemma_months_grow(y, m, m2);
    }
}

/// No two dates have the same day number.
pub proof fn law_dates_are_distinct(y: int, m: int, d: int, y2: int, m2: int, d2: int)
    requires
        date_exists(y, m, d),
        date_exists(y2, m2, d2),
        day_number(y, m, d) == day_number(y2, m2, d2),
    ensures
        y == y2 && m == m2 && d == d2,
{
    if y < y2 || (y == y2 && (m < m2 || (m == m2 && d < d2))) {
        law_dates_are_ordered(y, m, d, y2, m2, d2);
    } else if y2 < y || (y == y2 && (m2 < m || (m == m2 && d2 < d))) {
        law_dates_are_ordered(y2, m2, d2, y, m, d);
    }
}

/// The first of the next month is as many days on as the month has.
pub proof fn law_month_length(y: int, m: int)
    requires
        1 <= m <= 12,
    ensures
        m < 12 ==> day_number(y, m + 1, 1) == day_number(y, m, 1) + month_days(y, m),
        m == 12 ==> day_number(y + 1, 1, 1) == day_number(y, 12, 1) + 31,
        28 <= month_days(y, m) <= 31,
{
    lemma_months(y);
    lemma_months(y + 1);
    lemma_years(y);
}

/// Every date lies between the first and the last day.
pub proof fn lemma_date_in_range(y: int, m: int, d: int)
    requires
        date_exists(y, m, d),
    ensures
        day_exists(day_number(y, m, d)),
        -100_000_000 <= day_number(y, m, d) <= 100_000_000,
{
    lemma_extent();
    if !(y == MIN_YEAR && m == 1 && d == 1) {
        law_dates_are_ordered(MIN_YEAR as int, 1, 1, y, m, d);
    }
    if !(y == MAX_YEAR && m == 12 && d == 31) {
        law_dates_are_ordered(y, m, d, MAX_YEAR as int, 12, 31);
    }
}

proof fn lemma_extent()
    ensures
        day_number(MIN_YEAR as int, 1, 1) == -96_465_292,
        day_number(MAX_YEAR as int, 12, 31) == 95_026_236,
{
    lemma_months(MIN_YEAR as int);
    lemma_months(MAX_YEAR as int);
    assert(!leap(MAX_YEAR as int));
}

// ---------------------------------------------------------------------------
// What chrono computes
// ---------------------------------------------------------------------------

/// `chrono::NaiveDate::from_ymd_opt`, then the midnight of that date as a UTC
/// timestamp: there is one exactly when the date exists, and it is as many whole
/// days after the epoch as the date is.
#[verifier::external_body]
fn midnight_millis(y: i32, m: u32, d: u32) -> (r: Option<i64>)
    ensures
        match r {
            Some(ms) => date_exists(y as int, m as int, d as int) && ms == day_number(
                y as int,
                m as int,
                d as int,
            ) * DAY_MS,
            None => !date_exists(y as int, m as int, d as int),
        },
{
    let midnight = chrono::NaiveDate::from_ymd_opt(y, m, d)?.and_hms_opt(0, 0, 0)?;
    Some(midnight.and_utc().timestamp_millis())
}

/// `chrono::DateTime::timestamp_nanos_opt` at the midnight of a date: the same
/// instant in nanoseconds, where a signed 64-bit number holds it.
#[verifier::external_body]
fn midnight_nanos(y: i32, m: u32, d: u32) -> (r: Option<i64>)
    requires
        date_exists(y as int, m as int, d as int),
    ensures
        match r {
            Some(ns) => ns == day_number(y as int, m as int, d as int) * DAY_NS,
            None => !(i64::MIN <= day_number(y as int, m as int, d as int) * DAY_NS <= i64::MAX),
        },
{
    let midnight = chrono::NaiveDate::from_ymd_opt(y, m, d)?.and_hms_opt(0, 0, 0)?;
    midnight.and_utc().timestamp_nanos_opt()
}

/// `chrono::DateTime::from_timestamp_millis`, then the UTC date of that
/// instant: the date on whose day the instant falls, where there is one.
#[verifier::external_body]
fn date_of_millis(ms: i64) -> (r: Option<(i32, u32, u32)>)
    ensures
        match r {
            Some((y, m, d)) => date_exists(y as int, m as int, d as int) && day_number(
                y as int,
                m as int,
                d as int,
            ) == ms as int / DAY_MS as int,
            None => !day_exists(ms as int / DAY_MS as int),
        },
{
    let date = chrono::DateTime::from_timestamp_millis(ms)?.date_naive();
    Some((
        chrono::Datelike::year(&date),
        chrono::Datelike::month(&date),
        chrono::Datelike::day(&date),
    ))
}

/// What `chrono::NaiveDate`'s `FromStr` reads, or the text of its error.
pub uninterp spec fn iso_date(s: Seq<char>) -> Result<(i32, u32, u32), Seq<char>>;

/// What `chrono::NaiveDate::parse_from_str` reads with `%Y-%m-%d`, or the text of
/// its error.
pub uninterp spec fn ymd_date(s: Seq<char>) -> Result<(i32, u32, u32), Seq<char>>;

/// `r` is the outcome `named` of a parse, with a date that exists.
pub open spec fn date_read(
    named: Result<(i32, u32, u32), Seq<char>>,
    r: Result<(i32, u32, u32), String>,
) -> bool {
    match (named, r) {
        (Ok(p), Ok(q)) => p == q && date_exists(q.0 as int, q.1 as int, q.2 as int),
        (Err(t), Err(e)) => t == e@,
        _ => false,
    }
}

/// `chrono::NaiveDate`'s `FromStr`; the accepted syntax and the errors are not
/// spelled out here, the result only gets a name. What it reads is a date that
/// exists.
#[verifier::external_body]
fn read_iso(s: &str) -> (r: Result<(i32, u32, u32), String>)
    ensures
        date_read(iso_date(s@), r),
{
    match s.parse::<chrono::NaiveDate>() {
        Ok(date) => Ok((
            chrono::Datelike::year(&date),
            chrono::Datelike::month(&date),
            chrono::Datelike::day(&date),
        )),
        Err(e) => Err(e.to_string()),
    }
}

/// `chrono::NaiveDate::parse_from_str` with `%Y-%m-%d`; the accepted syntax and
/// the errors are not spelled out here, the result only gets a name. What it
/// reads is a date that exists.
#[verifier::external_body]
fn read_ymd(s: &str) -> (r: Result<(i32, u32, u32), String>)
    ensures
        date_read(ymd_date(s@), r),
{
    match chrono::NaiveDate::parse_from_str(s, "%Y-%m-%d") {
        Ok(date) => Ok((
            chrono::Datelike::year(&date),
            chrono::Datelike::month(&date),
            chrono::Datelike::day(&date),
        )),
        Err(e) => Err(e.to_string()),
    }
}

// ---------------------------------------------------------------------------
// Dates
// ---------------------------------------------------------------------------

/// A UTC calendar date.
#[derive(Debug, Clone, Copy, Hash, PartialEq, Eq, PartialOrd, Ord, Structural)]
pub struct Date {
    pub year: i32,
    pub month: u32,
    pub day: u32,
}

/// The date of a parse, or its error.
pub open spec fn as_date(p: Result<(i32, u32, u32), Seq<char>>) -> Result<Date, Seq<char>> {
    match p {
        Ok((year, month, day)) => Ok(Date { year, month, day }),
        Err(t) => Err(t),
    }
}

/// The error of a parse by its characters.
pub open spec fn parse_view(r: Result<Date, String>) -> Result<Date, Seq<char>> {
    match r {
        Ok(d) => Ok(d),
        Err(e) => Err(e@),
    }
}

impl Date {
    /// The date exists.
    pub open spec fn wf(self) -> bool {
        date_exists(self.year as int, self.month as int, self.day as int)
    }

    /// Days from 1970-01-01.
    pub open spec fn number(self) -> int {
        day_number(self.year as int, self.month as int, self.day as int)
    }

    /// Nanoseconds from the epoch to the midnight of the date, as an unsigned
    /// number; zero where a signed one does not hold them.
    pub open spec fn start_ns(self) -> u64 {
        let ns = self.number() * DAY_NS;
        if i64::MIN <= ns <= i64::MAX {
            unsigned(ns)
        } else {
            0
        }
    }

    /// The date as text: `YYYY-MM-DD`, with a sign where the year has not four
    /// digits.
    pub open spec fn text(self) -> Seq<char> {
        let y = self.year as int;
        (if 0 <= y <= 9999 {
            padded(y as nat, 4)
        } else if y > 9999 {
            "+"@ + padded(y as nat, 4)
        } else {
            "-"@ + padded((-y) as nat, 4)
        }) + "-"@ + padded(self.month as nat, 2) + "-"@ + padded(self.day as nat, 2)
    }

    /// Whether a date comes strictly before another.
    pub open spec fn precedes(self, o: Date) -> bool {
        self.year < o.year || (self.year == o.year && (self.month < o.month || (self.month
            == o.month && self.day < o.day)))
    }

    pub fn before(&self, o: &Date) -> (r: bool)
        ensures
            r == self.precedes(*o),
    {
        self.year < o.year || (self.year == o.year && (self.month < o.month || (self.month
            == o.month && self.day < o.day)))
    }

    /// Parse a date as it stands in a dump's name, a fee schedule or behind
    /// `--date`.
    pub fn parse_iso(s: &str) -> (r: Result<Date, String>)
        ensures
            parse_view(r) == as_date(iso_date(s@)),
            r matches Ok(d) ==> d.wf(),
    {
        match read_iso(s) {
            Ok((year, month, day)) => Ok(Date { year, month, day }),
            Err(e) => Err(e),
        }
    }

    /// Parse a date as it stands in a log's name or behind `--as-of`.
    pub fn parse_ymd(s: &str) -> (r: Result<Date, String>)
        ensures
            parse_view(r) == as_date(ymd_date(s@)),
            r matches Ok(d) ==> d.wf(),
    {
        match read_ymd(s) {
            Ok((year, month, day)) => Ok(Date { year, month, day }),
            Err(e) => Err(e),
        }
    }

    /// The date on which an instant falls; the epoch's where there is none.
    pub fn of_millis(ms: i64) -> (r: Date)
        ensures
            r.wf(),
            day_exists(ms as int / DAY_MS as int) ==> r.number() == ms as int / DAY_MS as int,
            !day_exists(ms as int / DAY_MS as int) ==> r == (Date { year: 1970, month: 1, day: 1 }),
    {
        match date_of_millis(ms) {
            Some((year, month, day)) => {
                proof {
                    lemma_date_in_range(year as int, month as int, day as int);
                }
                Date { year, month, day }
            },
            None => Date { year: 1970, month: 1, day: 1 },
        }
    }

    /// Milliseconds from the epoch to the midnight of the date.
    pub fn start_ms(&self) -> (r: i64)
        requires
            self.wf(),
        ensures
            r == self.number() * DAY_MS,
    {
        midnight_millis(self.year, self.month, self.day).unwrap()
    }

    /// Nanoseconds from the epoch to the midnight of the date; zero where a
    /// signed 64-bit number does not hold them.
    pub fn day_ns(&self) -> (r: u64)
        requires
            self.wf(),
        ensures
            r == self.start_ns(),
    {
        match midnight_nanos(self.year, self.month, self.day) {
            Some(ns) => to_unsigned(ns),
            None => 0,
        }
    }

    /// The date `n` days earlier.
    pub fn minus_days(&self, n: u32) -> (r: Date)
        requires
            self.wf(),
            day_exists(self.number() - n),
        ensures
            r.wf(),
            r.number() == self.number() - n,
    {
        proof {
            lemma_date_in_range(self.year as int, self.month as int, self.day as int);
            lemma_extent();
            assert((self.number() - n) * DAY_MS == self.number() * DAY_MS - n * DAY_MS)
                by (nonlinear_arith);
            vstd::arithmetic::div_mod::lemma_div_multiples_vanish(
                self.number() - n,
                DAY_MS as int,
            );
            assert(((self.number() - n) * DAY_MS) / DAY_MS as int == self.number() - n);
        }
        let ms: i64 = self.start_ms() - n as i64 * DAY_MS;
        Date::of_millis(ms)
    }

    /// The date after.
    pub fn next_day(&self) -> (r: Date)
        requires
            self.wf(),
            day_exists(self.number() + 1),
        ensures
            r.wf(),
            r.number() == self.number() + 1,
    {
        proof {
            lemma_date_in_range(self.year as int, self.month as int, self.day as int);
            assert(((self.number() + 1) * DAY_MS) / DAY_MS as int == self.number() + 1) by {
                vstd::arithmetic::div_mod::lemma_div_multiples_vanish(
                    self.number() + 1,
                    DAY_MS as int,
                );
            }
        }
        let ms: i64 = self.start_ms() + DAY_MS;
        Date::of_millis(ms)
    }

    /// The date as text.
    pub fn to_text(&self) -> (r: String)
        requires
            self.wf(),
        ensures
            r@ == self.text(),
    {
        let mut s: String = String::new();
        if 0 <= self.year && self.year <= 9999 {
            push_padded(&mut s, self.year as u64, 4);
            assert(s@ =~= padded(self.year as nat, 4));
        } else if self.year > 9999 {
            s.append("+");
            push_padded(&mut s, self.year as u64, 4);
            assert(s@ =~= "+"@ + padded(self.year as nat, 4));
        } else {
            s.append("-");
            push_padded(&mut s, (-self.year) as u64, 4);
            assert(s@ =~= "-"@ + padded((-self.year) as nat, 4));
        }
        s.append("-");
        push_padded(&mut s, self.month as u64, 2);
        s.append("-");
        push_padded(&mut s, self.day as u64, 2);
        s
    }
}

/// A signed 64-bit number read as an unsigned one.
pub open spec fn unsigned(x: int) -> u64 {
    if x >= 0 {
        x as u64
    } else {
        (x + 0x1_0000_0000_0000_0000) as u64
    }
}

pub fn to_unsigned(x: i64) -> (r: u64)
    ensures
        r == unsigned(x as int),
{
    if x >= 0 {
        x as u64
    } else {
        let back: u64 = (-(x + 1)) as u64;
        u64::MAX - back
    }
}

/// The capture date of an instant. Files are dated by receive time: venue
/// clocks must not pick the file.
pub fn nanos_to_date(nanos: u64) -> (r: Date)
    ensures
        r.wf(),
        r.number() == nanos as int / DAY_NS as int,
{
    let ms: i64 = (nanos / 1_000_000) as i64;
    proof {
        lemma_extent();
        assert((nanos as int / 1_000_000) / DAY_MS as int == nanos as int / DAY_NS as int) by {
            vstd::arithmetic::div_mod::lemma_div_denominator(
                nanos as int,
                1_000_000,
                DAY_MS as int,
            );
        }
        assert(0 <= nanos as int / DAY_NS as int <= 213_504);
    }
    Date::of_millis(ms)
}

// ---------------------------------------------------------------------------
// Days in file names
// ---------------------------------------------------------------------------

/// The date that a text of the form `YYYY-MM-DD` writes, if it is of that form
/// and the date exists.
pub open spec fn written_day(s: Seq<char>) -> Option<Date> {
    if s.len() == 10 && s[4] == '-' && s[7] == '-' && all_digits(s.subrange(0, 4)) && all_digits(
        s.subrange(5, 7),
    ) && all_digits(s.subrange(8, 10)) {
        let y = digits_value(s.subrange(0, 4));
        let m = digits_value(s.subrange(5, 7));
        let d = digits_value(s.subrange(8, 10));
        if date_exists(y as int, m as int, d as int) {
            Some(Date { year: y as i32, month: m as u32, day: d as u32 })
        } else {
            None
        }
    } else {
        None
    }
}

proof fn lemma_two_digits(s: Seq<char>)
    requires
        s.len() == 2,
        all_digits(s),
    ensures
        digits_value(s) == 10 * (s[0] as nat - 48) + (s[1] as nat - 48),
        digits_value(s) <= 99,
{
    reveal_with_fuel(digits_value, 3);
    assert(is_digit(s[0]) && is_digit(s[1]));
    assert(s.drop_last()[0] == s[0]);
}

proof fn lemma_four_digits(s: Seq<char>)
    requires
        s.len() == 4,
        all_digits(s),
    ensures
        digits_value(s) == 1000 * (s[0] as nat - 48) + 100 * (s[1] as nat - 48) + 10 * (s[2] as nat
            - 48) + (s[3] as nat - 48),
        digits_value(s) <= 9999,
{
    reveal_with_fuel(digits_value, 5);
    assert(is_digit(s[0]) && is_digit(s[1]) && is_digit(s[2]) && is_digit(s[3]));
    assert(s.drop_last()[2] == s[2]);
    assert(s.drop_last().drop_last()[1] == s[1]);
    assert(s.drop_last().drop_last().drop_last()[0] == s[0]);
}

/// The number that the `n` characters at `from` write, if they are digits.
fn number_at(s: &str, from: usize, n: usize) -> (r: Option<u64>)
    requires
        n == 2 || n == 4,
        from + n <= s@.len() <= 10,
    ensures
        match r {
            Some(v) => all_digits(s@.subrange(from as int, from + n)) && v == digits_value(
                s@.subrange(from as int, from + n),
            ),
            None => !all_digits(s@.subrange(from as int, from + n)),
        },
{
    let part: String = piece(s, from, from + n);
    let c: char = s.get_char(from);
    if c < '0' || c > '9' {
        assert(!is_digit(part@[0]));
        return None;
    }
    proof {
        assert(part@[0] == c);
        if all_digits(part@) {
            if n == 2 {
                lemma_two_digits(part@);
            } else {
                lemma_four_digits(part@);
            }
        }
    }
    parse_bounded(part.as_str(), 9999)
}

/// Read a date of the form `YYYY-MM-DD`.
pub fn read_written_day(s: &str) -> (r: Option<Date>)
    ensures
        r == written_day(s@),
        r matches Some(d) ==> d.wf(),
{
    if s.unicode_len() != 10 || s.get_char(4) != '-' || s.get_char(7) != '-' {
        return None;
    }
    match (number_at(s, 0, 4), number_at(s, 5, 2), number_at(s, 8, 2)) {
        (Some(y), Some(m), Some(d)) => {
            proof {
                lemma_four_digits(s@.subrange(0, 4));
                lemma_two_digits(s@.subrange(5, 7));
                lemma_two_digits(s@.subrange(8, 10));
            }
            let date: Date = Date { year: y as i32, month: m as u32, day: d as u32 };
            match midnight_millis(date.year, date.month, date.day) {
                Some(_) => Some(date),
                None => None,
            }
        },
        _ => None,
    }
}

/// Days written in file names sort as text: with the same tail behind them, the
/// earlier comes first in dictionary order, and one date is written one way.
pub proof fn law_written_days_sort_as_text(a: Seq<char>, b: Seq<char>, tail: Seq<char>)
    requires
        written_day(a) is Some,
        written_day(b) is Some,
    ensures
        lex_lt(a + tail, b + tail) <==> written_day(a)->0.precedes(written_day(b)->0),
        written_day(a) == written_day(b) ==> a == b,
{
    lemma_four_digits(a.subrange(0, 4));
    lemma_two_digits(a.subrange(5, 7));
    lemma_two_digits(a.subrange(8, 10));
    lemma_four_digits(b.subrange(0, 4));
    lemma_two_digits(b.subrange(5, 7));
    lemma_two_digits(b.subrange(8, 10));
    assert(forall|i: int| 0 <= i < 4 ==> is_digit(#[trigger] a.subrange(0, 4)[i]) && is_digit(
        #[trigger] b.subrange(0, 4)[i],
    ));
    assert(forall|i: int| 0 <= i < 2 ==> is_digit(#[trigger] a.subrange(5, 7)[i]) && is_digit(
        #[trigger] b.subrange(5, 7)[i],
    ));
    assert(forall|i: int| 0 <= i < 2 ==> is_digit(#[trigger] a.subrange(8, 10)[i]) && is_digit(
        #[trigger] b.subrange(8, 10)[i],
    ));
    if a == b {
        crate::text::law_lex_total(a + tail, a + tail);
    } else {
        let k = lemma_first_difference(a, b);
        lemma_lex_at(a + tail, b + tail, k);
    }
}

proof fn lemma_first_difference(a: Seq<char>, b: Seq<char>) -> (k: int)
    requires
        a.len() == b.len(),
        a != b,
    ensures
        0 <= k < a.len(),
        a[k] != b[k],
        forall|i: int| 0 <= i < k ==> a[i] == b[i],
    decreases a.len(),
{
    if a.len() == 0 {
        assert(a =~= b);
        0
    } else if a[0] != b[0] {
        0
    } else {
        assert(a =~= seq![a[0]] + a.drop_first());
        assert(b =~= seq![b[0]] + b.drop_first());
        let k = lemma_first_difference(a.drop_first(), b.drop_first());
        assert forall|i: int| 0 <= i < k + 1 implies a[i] == b[i] by {
            if i > 0 {
                assert(a.drop_first()[i - 1] == b.drop_first()[i - 1]);
            }
        }
        k + 1
    }
}

proof fn lemma_lex_at(a: Seq<char>, b: Seq<char>, k: int)
    requires
        0 <= k < a.len(),
        k < b.len(),
        a[k] != b[k],
        forall|i: int| 0 <= i < k ==> a[i] == b[i],
    ensures
        lex_lt(a, b) <==> a[k] < b[k],
    decreases k,
{
    if k > 0 {
        assert(a[0] == b[0]);
        lemma_lex_at(a.drop_first(), b.drop_first(), k - 1);
    }
}

} // verus!
