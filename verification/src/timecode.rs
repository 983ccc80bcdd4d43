//! Proleptic Gregorian calendar arithmetic: date validity and conversion of
//! a UTC calendar time to milliseconds since the epoch (1970-01-01T00:00:00Z).

use vstd::prelude::*;

verus! {

/// Gregorian leap-year rule.
pub open spec fn is_leap_year(y: int) -> bool {
    y % 4 == 0 && (y % 100 != 0 || y % 400 == 0)
}

/// Number of days in year `y`.
pub open spec fn days_in_year(y: int) -> int {
    if is_leap_year(y) {
        366
    } else {
        365
    }
}

/// Number of days in month `m` (1-based) of year `y`.
pub open spec fn days_in_month(y: int, m: int) -> int {
    if m == 2 {
        if is_leap_year(y) {
            29
        } else {
            28
        }
    } else if m == 4 || m == 6 || m == 9 || m == 11 {
        30
    } else {
        31
    }
}

/// Days from 1970-01-01 to January 1 of year `y`; negative before 1970.
pub open spec fn days_before_year(y: int) -> int
    decreases
            (if y >= 1970 {
                y - 1970
            } else {
                1970 - y
            }),
{
    if y == 1970 {
        0
    } else if y > 1970 {
        days_before_year(y - 1) + days_in_year(y - 1)
    } else {
        days_before_year(y + 1) - days_in_year(y)
    }
}

/// Days from January 1 of year `y` to the first day of month `m` of `y`.
pub open spec fn days_before_month(y: int, m: int) -> int
    decreases m,
{
    if m <= 1 {
        0
    } else {
        days_before_month(y, m - 1) + days_in_month(y, m - 1)
    }
}

/// Days from 1970-01-01 to the calendar date `y`-`m`-`d`.
pub open spec fn epoch_days(y: int, m: int, d: int) -> int {
    days_before_year(y) + days_before_month(y, m) + (d - 1)
}

/// Milliseconds from the epoch to `y`-`m`-`d` `h`:`mi`:00 UTC.
pub open spec fn epoch_millis(y: int, m: int, d: int, h: int, mi: int) -> int {
    ((epoch_days(y, m, d) * 24 + h) * 60 + mi) * 60000
}

/// A calendar date the feed decoder accepts: a four-digit year and a day
/// that exists in its month.
pub open spec fn valid_date(y: int, m: int, d: int) -> bool {
    1000 <= y <= 9999 && 1 <= m <= 12 && 1 <= d <= days_in_month(y, m)
}

/// A valid hour and minute of a day.
pub open spec fn valid_hm(h: int, mi: int) -> bool {
    0 <= h <= 23 && 0 <= mi <= 59
}

proof fn lemma_days_before_year_bounds(y: int)
    requires
        1000 <= y <= 10000,
    ensures
        y >= 1970 ==> 0 <= days_before_year(y) <= 366 * (y - 1970),
        y < 1970 ==> -366 * (1970 - y) <= days_before_year(y) <= 0,
    decreases
            (if y >= 1970 {
                y - 1970
            } else {
                1970 - y
            }),
{
    if y > 1970 {
        lemma_days_before_year_bounds(y - 1);
    } else if y < 1970 {
        lemma_days_before_year_bounds(y + 1);
    }
}

/// Executable leap-year test.
pub fn leap_year(y: u32) -> (r: bool)
    ensures
        r == is_leap_year(y as int),
{
    y % 4 == 0 && (y % 100 != 0 || y % 400 == 0)
}

/// Executable days-in-year.
pub fn year_days(y: u32) -> (r: u32)
    ensures
        r as int == days_in_year(y as int),
{
    if leap_year(y) {
        366
    } else {
        365
    }
}

/// Executable days-in-month.
pub fn month_days(y: u32, m: u32) -> (r: u32)
    ensures
        r as int == days_in_month(y as int, m as int),
{
    if m == 2 {
        if leap_year(y) {
            29
        } else {
            28
        }
    } else if m == 4 || m == 6 || m == 9 || m == 11 {
        30
    } else {
        31
    }
}

/// Milliseconds since the epoch of the UTC instant `y`-`m`-`d` `h`:`mi`:00.
pub fn utc_epoch_millis(y: u32, m: u32, d: u32, h: u32, mi: u32) -> (r: i64)
    requires
        valid_date(y as int, m as int, d as int),
        valid_hm(h as int, mi as int),
    ensures
        r as int == epoch_millis(y as int, m as int, d as int, h as int, mi as int),
{
    let mut days: i64 = 0;
    if y >= 1970 {
        let mut yy: u32 = 1970;
        while yy < y
            invariant
                1970 <= yy <= y,
                y <= 9999,
                days as int == days_before_year(yy as int),
                0 <= days as int <= 366 * (yy - 1970),
            decreases y - yy,
        {
            days = days + year_days(yy) as i64;
            yy = yy + 1;
        }
    } else {
        let mut yy: u32 = 1970;
        while yy > y
            invariant
                y <= yy <= 1970,
                1000 <= y,
                days as int == days_before_year(yy as int),
                -366 * (1970 - yy as int) <= days as int <= 0,
            decreases yy - y,
        {
            days = days - year_days(yy - 1) as i64;
            yy = yy - 1;
        }
    }
    let mut mm: u32 = 1;
    let mut mdays: i64 = 0;
    while mm < m
        invariant
            1 <= mm <= m,
            m <= 12,
            1000 <= y <= 9999,
            mdays as int == days_before_month(y as int, mm as int),
            0 <= mdays as int <= 31 * (mm - 1),
        decreases m - mm,
    {
        mdays = mdays + month_days(y, mm) as i64;
        mm = mm + 1;
    }
    proof {
        lemma_days_before_year_bounds(y as int);
    }
    let total_days: i64 = days + mdays + (d as i64 - 1);
    ((total_days * 24 + h as i64) * 60 + mi as i64) * 60000
}

} // verus!
