//! What makes the calendar the one everybody uses.
use super::{day_number, law_dates_are_ordered, month_days, unsigned, Date};
use crate::types::signed;
use vstd::prelude::*;

verus! {

/// Days are numbered from the first of January 1970. A year has 365 days, one
/// more where four divides it, but not where a hundred does, unless four hundred
/// does.
pub proof fn law_years_have_their_length(y: int)
    ensures
        day_number(1970, 1, 1) == 0,
        day_number(y + 1, 1, 1) - day_number(y, 1, 1) == (if y % 400 == 0 || (y % 4 == 0 && y % 100
            != 0) {
            366int
        } else {
            365
        }),
{
    assert(super::days_before_month(y, 1) == 0);
    assert(super::days_before_month(y + 1, 1) == 0);
    assert(super::days_before_month(1970, 1) == 0);
}

/// Months have the lengths that everybody knows, and in a month and at its end
/// one day follows the other.
pub proof fn law_days_follow_one_another(y: int, m: int, d: int)
    requires
        1 <= m <= 12,
    ensures
        day_number(y, m, d + 1) == day_number(y, m, d) + 1,
        m < 12 ==> day_number(y, m + 1, 1) == day_number(y, m, month_days(y, m)) + 1,
        m == 4 || m == 6 || m == 9 || m == 11 ==> month_days(y, m) == 30,
        m == 1 || m == 3 || m == 5 || m == 7 || m == 8 || m == 10 || m == 12 ==> month_days(y, m)
            == 31,
        m == 2 ==> month_days(y, m) == (if y % 400 == 0 || (y % 4 == 0 && y % 100 != 0) {
            29int
        } else {
            28
        }),
{
}

/// The order of dates is the order of their days.
pub proof fn law_earlier_dates_have_smaller_numbers(a: Date, b: Date)
    requires
        a.wf(),
        b.wf(),
    ensures
        a.precedes(b) <==> a.number() < b.number(),
        a == b <==> a.number() == b.number(),
{
    let (y, m, d) = (a.year as int, a.month as int, a.day as int);
    let (y2, m2, d2) = (b.year as int, b.month as int, b.day as int);
    if a.precedes(b) {
        law_dates_are_ordered(y, m, d, y2, m2, d2);
    } else if b.precedes(a) {
        law_dates_are_ordered(y2, m2, d2, y, m, d);
    }
}

/// From midnight to midnight it is a day's nanoseconds, while they fit.
pub proof fn law_midnights_are_a_day_apart(a: Date, b: Date)
    requires
        a.wf(),
        b.wf(),
        b.number() == a.number() + 1,
        a.number() >= 0,
        b.number() * 86_400_000_000_000 <= i64::MAX,
    ensures
        b.start_ns() - a.start_ns() == 86_400_000_000_000,
        a.start_ns() == a.number() * 86_400_000_000_000,
{
}

/// Reading an unsigned word as a signed one and back changes nothing, and small
/// numbers are the same either way.
pub proof fn law_words_keep_their_bits(x: u64)
    ensures
        unsigned(signed(x)) == x,
        i64::MIN <= signed(x) <= i64::MAX,
        x <= i64::MAX ==> signed(x) == x,
        x > i64::MAX ==> signed(x) < 0,
{
}

} // verus!
