//! Calendar dates, held as the day number in the proleptic Gregorian
//! calendar (1 January of year 1 is day 1), so that comparing day numbers is
//! comparing dates chronologically. Dates are made from year, month and day
//! by `chrono`.

use vstd::prelude::*;
use chrono::Datelike;

verus! {

/// Earliest year that `chrono::NaiveDate` represents.
pub const MIN_YEAR: i32 = -262143;

/// Latest year that `chrono::NaiveDate` represents.
pub const MAX_YEAR: i32 = 262142;

/// Gregorian leap year (year 0 is a leap year).
pub open spec fn is_leap_year(y: int) -> bool {
    y % 4 == 0 && (y % 100 != 0 || y % 400 == 0)
}

/// Number of days of month `m` (1 to 12) of year `y`.
pub open spec fn days_in_month(y: int, m: int) -> int {
    if m == 2 {
        if is_leap_year(y) {
            29
        } else {
            28
        }
    } else if m == 4 || m == 6 || m == 9 || m == 11 {
        30
    } else {
        31
    }
}

/// Number of days of year `y` before the first of month `m`.
pub open spec fn days_before_month(y: int, m: int) -> int
    decreases m,
{
    if m <= 1 {
        0
    } else {
        days_before_month(y, m - 1) + days_in_month(y, m - 1)
    }
}

/// Number of days before 1 January of year `y`, counted from 1 January of
/// year 1 (negative before it).
pub open spec fn days_before_year(y: int) -> int {
    365 * (y - 1) + (y - 1) / 4 - (y - 1) / 100 + (y - 1) / 400
}

/// The day number of `y-m-d`: 1 January of year 1 is day 1.
pub open spec fn day_number(y: int, m: int, d: int) -> int {
    days_before_year(y) + days_before_month(y, m) + d
}

/// `y-m-d` is a date of the calendar that `chrono` represents.
pub open spec fn valid_ymd(y: int, m: int, d: int) -> bool {
    &&& MIN_YEAR <= y <= MAX_YEAR
    &&& 1 <= m <= 12
    &&& 1 <= d <= days_in_month(y, m)
}

/// Days before a month of the year: at most 335.
proof fn lemma_days_before_month_range(y: int, m: int)
    requires
        1 <= m <= 12,
    ensures
        0 <= days_before_month(y, m) <= 335,
    decreases m,
{
    if m > 1 {
        lemma_days_before_month_range(y, m - 1);
        reveal_with_fuel(days_before_month, 2);
        assert(days_before_month(y, m) <= 335) by {
            reveal_with_fuel(days_before_month, 12);
        }
    }
}

/// Day numbers of valid dates fit in an `i32`.
proof fn lemma_day_number_range(y: int, m: int, d: int)
    requires
        valid_ymd(y, m, d),
    ensures
        i32::MIN < day_number(y, m, d) < i32::MAX,
{
    lemma_days_before_month_range(y, m);
    let z = y - 1;
    assert(-262144 <= z <= 262141);
    assert(-65536 <= z / 4 <= 65536);
    assert(-2622 <= z / 100 <= 2622);
    assert(-656 <= z / 400 <= 656);
}

/// `y-m-d` comes before `y2-m2-d2` on the calendar.
pub open spec fn ymd_before(y: int, m: int, d: int, y2: int, m2: int, d2: int) -> bool {
    y < y2 || (y == y2 && m < m2) || (y == y2 && m == m2 && d < d2)
}

/// Going one year forward adds the length of the year: 366 days for a leap
/// year, 365 otherwise.
proof fn lemma_year_length(y: int)
    ensures
        days_before_year(y + 1) == days_before_year(y) + if is_leap_year(y) {
            366int
        } else {
            365int
        },
        days_before_month(y, 12) + days_in_month(y, 12) == if is_leap_year(y) {
            366int
        } else {
            365int
        },
{
    reveal_with_fuel(days_before_month, 13);
    let z = y - 1;
    assert(y / 4 - z / 4 == if y % 4 == 0 {
        1int
    } else {
        0int
    });
    assert(y / 100 - z / 100 == if y % 100 == 0 {
        1int
    } else {
        0int
    });
    assert(y / 400 - z / 400 == if y % 400 == 0 {
        1int
    } else {
        0int
    });
    assert(y % 400 == 0 ==> y % 100 == 0);
    assert(y % 100 == 0 ==> y % 4 == 0);
}

/// Later years start later.
proof fn lemma_days_before_year_monotone(y: int, y2: int)
    requires
        y < y2,
    ensures
        days_before_year(y) + days_before_month(y, 12) + days_in_month(y, 12) <= days_before_year(
            y2,
        ),
    decreases y2 - y,
{
    lemma_year_length(y);
    if y + 1 < y2 {
        lemma_days_before_month_range(y + 1, 12);
        lemma_year_length(y + 1);
        lemma_days_before_year_monotone(y + 1, y2);
    }
}

/// Later months of a year start after the end of earlier ones.
proof fn lemma_days_before_month_monotone(y: int, m: int, m2: int)
    requires
        1 <= m < m2 <= 12,
    ensures
        days_before_month(y, m) + days_in_month(y, m) <= days_before_month(y, m2),
    decreases m2 - m,
{
    if m + 1 < m2 {
        lemma_days_before_month_monotone(y, m + 1, m2);
    }
}

/// Day numbers follow the calendar: of two valid dates, the earlier one has
/// the smaller day number.
pub proof fn lemma_day_number_chronological(y: int, m: int, d: int, y2: int, m2: int, d2: int)
    requires
        valid_ymd(y, m, d),
        valid_ymd(y2, m2, d2),
        ymd_before(y, m, d, y2, m2, d2),
    ensures
        day_number(y, m, d) < day_number(y2, m2, d2),
{
    lemma_days_before_month_range(y2, m2);
    if y < y2 {
        if m < 12 {
            lemma_days_before_month_monotone(y, m, 12);
        }
        lemma_days_before_year_monotone(y, y2);
    } else if m < m2 {
        lemma_days_before_month_monotone(y, m, m2);
    }
}

/// Calls `chrono::NaiveDate::from_ymd_opt` and, on a date, its
/// `num_days_from_ce`.
/// Claimed of them: `from_ymd_opt` gives a date exactly for the valid
/// year-month-day triples of the proleptic Gregorian calendar within
/// `chrono`'s year range, and `num_days_from_ce` counts days with 1 January
/// of year 1 as day 1.
#[verifier::external_body]
fn chrono_day_number(year: i32, month: u32, day: u32) -> (r: Option<i32>)
    ensures
        r == (if valid_ymd(year as int, month as int, day as int) {
            Some(day_number(year as int, month as int, day as int) as i32)
        } else {
            None
        }),
{
    match chrono::NaiveDate::from_ymd_opt(year, month, day) {
        Some(date) => Some(date.num_days_from_ce()),
        None => None,
    }
}

/// A calendar date.
#[derive(Debug, Clone, Copy, PartialEq, Eq, PartialOrd, Ord, Hash)]
pub struct Date {
    days: i32,
}

impl View for Date {
    type V = int;

    /// The day number.
    closed spec fn view(&self) -> int {
        self.days as int
    }
}

impl Date {
    /// The date `year-month-day`, or `None` where there is no such date.
    pub fn from_ymd(year: i32, month: u32, day: u32) -> (r: Option<Date>)
        ensures
            r is Some <==> valid_ymd(year as int, month as int, day as int),
            r matches Some(d) ==> d@ == day_number(year as int, month as int, day as int),
    {
        match chrono_day_number(year, month, day) {
            Some(days) => {
                proof {
                    lemma_day_number_range(year as int, month as int, day as int);
                }
                Some(Date { days })
            },
            None => None,
        }
    }

    /// The day number: 1 January of year 1 is day 1.
    pub fn day_number(&self) -> (r: i32)
        ensures
            r == self@,
    {
        self.days
    }

    /// `self` comes strictly before `other`.
    pub fn is_before(&self, other: &Date) -> (r: bool)
        ensures
            r == (self@ < other@),
    {
        self.days < other.days
    }
}

} // verus!
