//! Civil dates from a wall-clock timestamp.
//!
//! A compilation context captures one timestamp (seconds since the epoch)
//! and serves "today's date", adjustable by a caller-supplied hour offset.
use vstd::prelude::*;

verus! {

/// Gregorian leap-year rule.
pub open spec fn is_leap_year(y: int) -> bool {
    y % 4 == 0 && (y % 100 != 0 || y % 400 == 0)
}

/// Days in a calendar year.
pub open spec fn days_in_year(y: int) -> int {
    if is_leap_year(y) {
        366
    } else {
        365
    }
}

/// Days in a calendar month (1 through 12).
pub open spec fn days_in_month(y: int, m: int) -> int {
    if m == 2 {
        if is_leap_year(y) {
            29
        } else {
            28
        }
    } else if m == 4 || m == 6 || m == 9 || m == 11 {
        30
    } else {
        31
    }
}

/// Days strictly before year `y`, counted from 1970-01-01.
pub open spec fn days_before_year(y: int) -> int
    decreases y - 1970,
{
    if y <= 1970 {
        0
    } else {
        days_before_year(y - 1) + days_in_year(y - 1)
    }
}

/// Days of year `y` strictly before month `m`.
pub open spec fn days_before_month(y: int, m: int) -> int
    decreases m,
{
    if m <= 1 {
        0
    } else {
        days_before_month(y, m - 1) + days_in_month(y, m - 1)
    }
}

/// A well-formed calendar date within the supported range.
pub open spec fn valid_date(y: int, m: int, d: int) -> bool {
    1970 <= y && 1 <= m <= 12 && 1 <= d <= days_in_month(y, m)
}

/// The day number (days since 1970-01-01) of a calendar date.
pub open spec fn day_number(y: int, m: int, d: int) -> int {
    days_before_year(y) + days_before_month(y, m) + (d - 1)
}

/// A calendar date, as the external renderer expects it.
#[derive(Clone, Copy, PartialEq, Eq, Structural, Debug)]
pub struct Date {
    pub year: i64,
    pub month: u8,
    pub day: u8,
}

/// Every year holds at least 365 days, so day numbers grow at least
/// linearly with the year.
proof fn lemma_days_before_year_lb(y: int)
    requires
        y >= 1970,
    ensures
        days_before_year(y) >= 365 * (y - 1970),
    decreases y - 1970,
{
    if y > 1970 {
        lemma_days_before_year_lb(y - 1);
    }
}

/// The twelve months of a year add up to the year's days.
proof fn lemma_year_months(y: int)
    ensures
        days_before_month(y, 13) == days_in_year(y),
{
    reveal_with_fuel(days_before_month, 13);
}

/// Months only accumulate days as the year advances.
proof fn lemma_days_before_month_mono(y: int, a: int, b: int)
    requires
        1 <= a <= b <= 13,
    ensures
        days_before_month(y, a) <= days_before_month(y, b),
    decreases b - a,
{
    if a < b {
        lemma_days_before_month_mono(y, a, b - 1);
    }
}

/// Years only accumulate days as time advances.
proof fn lemma_days_before_year_mono(a: int, b: int)
    requires
        1970 <= a <= b,
    ensures
        days_before_year(a) <= days_before_year(b),
    decreases b - a,
{
    if a < b {
        lemma_days_before_year_mono(a, b - 1);
    }
}

/// A valid date's day number falls within its own year.
proof fn lemma_day_number_in_year(y: int, m: int, d: int)
    requires
        valid_date(y, m, d),
    ensures
        days_before_year(y) <= day_number(y, m, d) < days_before_year(y + 1),
{
    lemma_days_before_month_mono(y, 1, m);
    lemma_days_before_month_mono(y, m + 1, 13);
    lemma_year_months(y);
    assert(days_before_month(y, m + 1) == days_before_month(y, m) + days_in_month(y, m));
    assert(days_before_year(y + 1) == days_before_year(y) + days_in_year(y));
}

/// Law: day numbers name dates uniquely — two well-formed dates with the
/// same day number are the same date, so [`civil_from_days`] returns the
/// one calendar date of its argument.
pub proof fn lemma_day_number_unique(y1: int, m1: int, d1: int, y2: int, m2: int, d2: int)
    requires
        valid_date(y1, m1, d1),
        valid_date(y2, m2, d2),
        day_number(y1, m1, d1) == day_number(y2, m2, d2),
    ensures
        y1 == y2,
        m1 == m2,
        d1 == d2,
{
    lemma_day_number_in_year(y1, m1, d1);
    lemma_day_number_in_year(y2, m2, d2);
    if y1 < y2 {
        lemma_days_before_year_mono(y1 + 1, y2);
        assert(false);
    }
    if y2 < y1 {
        lemma_days_before_year_mono(y2 + 1, y1);
        assert(false);
    }
    if m1 < m2 {
        lemma_days_before_month_mono(y1, m1 + 1, m2);
        assert(days_before_month(y1, m1 + 1) == days_before_month(y1, m1) + days_in_month(
            y1,
            m1,
        ));
        assert(false);
    }
    if m2 < m1 {
        lemma_days_before_month_mono(y1, m2 + 1, m1);
        assert(days_before_month(y1, m2 + 1) == days_before_month(y1, m2) + days_in_month(
            y1,
            m2,
        ));
        assert(false);
    }
}

/// The calendar date with the given day number: the unique well-formed date
/// whose [`day_number`] is `total`.
pub fn civil_from_days(total: i64) -> (r: Date)
    requires
        0 <= total <= 2932896,
    ensures
        valid_date(r.year as int, r.month as int, r.day as int),
        day_number(r.year as int, r.month as int, r.day as int) == total,
{
    let mut year: i64 = 1970;
    let mut rem: i64 = total;
    let mut year_len: i64 = if (year % 4 == 0 && (year % 100 != 0 || year % 400 == 0)) {
        366
    } else {
        365
    };
    while rem >= year_len
        invariant
            1970 <= year <= 10010,
            0 <= rem,
            year_len == days_in_year(year as int),
            days_before_year(year as int) + rem == total,
            0 <= total <= 2932896,
        decreases rem,
    {
        rem = rem - year_len;
        year = year + 1;
        proof {
            assert(days_before_year(year as int) == days_before_year(year as int - 1)
                + days_in_year(year as int - 1));
            lemma_days_before_year_lb(year as int);
            assert(365 * (year as int - 1970) <= total);
        }
        year_len = if (year % 4 == 0 && (year % 100 != 0 || year % 400 == 0)) {
            366
        } else {
            365
        };
    }
    let ghost rem_year: int = rem as int;
    let mut month: i64 = 1;
    let mut month_len: i64 = month_days(year, month);
    while rem >= month_len
        invariant
            1 <= month <= 12,
            0 <= rem,
            1970 <= year,
            month_len == days_in_month(year as int, month as int),
            days_before_month(year as int, month as int) + rem == rem_year,
            rem_year < days_in_year(year as int),
            days_before_year(year as int) + rem_year == total,
        decreases rem,
    {
        rem = rem - month_len;
        month = month + 1;
        proof {
            if month > 12 {
                lemma_year_months(year as int);
                assert(days_before_month(year as int, 13) <= rem_year);
                assert(false);
            }
        }
        month_len = month_days(year, month);
    }
    let day: i64 = rem + 1;
    Date { year, month: month as u8, day: day as u8 }
}

/// Days in the given month, as executable code.
fn month_days(year: i64, month: i64) -> (r: i64)
    requires
        1 <= month <= 12,
    ensures
        r == days_in_month(year as int, month as int),
{
    if month == 2 {
        if year % 4 == 0 && (year % 100 != 0 || year % 400 == 0) {
            29
        } else {
            28
        }
    } else if month == 4 || month == 6 || month == 9 || month == 11 {
        30
    } else {
        31
    }
}

} // verus!
