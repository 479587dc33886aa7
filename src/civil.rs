//! Calendar days as day numbers.
//!
//! A day is identified by its number in the proleptic Gregorian calendar,
//! counted as chrono counts it: January 1 of year 1 is day 1, a Monday.
//! Conversions between day numbers and year/month/day go through chrono.
use chrono::Datelike;
use vstd::prelude::*;

verus! {

/// The day number of a calendar date, where chrono knows that date.
pub uninterp spec fn ce_day_of(year: int, month: int, day: int) -> Option<int>;

/// The calendar date (year, month, day) of a day number, where chrono can represent it.
pub uninterp spec fn civil_of(n: int) -> Option<(int, int, int)>;

/// Relies on chrono's `NaiveDate::from_ymd_opt` and `Datelike::num_days_from_ce`:
/// the day number of an existing date, and `None` for a date that does not exist
/// or lies outside chrono's range.
#[verifier::external_body]
pub(crate) fn ce_day(year: i32, month: u32, day: u32) -> (r: Option<i32>)
    ensures
        r matches Some(n) ==> ce_day_of(year as int, month as int, day as int) == Some(n as int),
        r is None ==> ce_day_of(year as int, month as int, day as int) is None,
{
    chrono::NaiveDate::from_ymd_opt(year, month, day).map(|d| d.num_days_from_ce())
}

/// Relies on chrono's `NaiveDate::from_num_days_from_ce_opt` and the `Datelike`
/// accessors: the year, month and day of a day number, and `None` out of range.
#[verifier::external_body]
fn civil_from_ce_day(n: i32) -> (r: Option<(i32, u32, u32)>)
    ensures
        r matches Some(t) ==> civil_of(n as int) == Some((t.0 as int, t.1 as int, t.2 as int)),
        r is None ==> civil_of(n as int) is None,
{
    chrono::NaiveDate::from_num_days_from_ce_opt(n).map(|d| (d.year(), d.month(), d.day()))
}

/// The day number of a calendar date; `None` when the date does not exist.
pub fn day_number(year: i32, month: u32, day: u32) -> (r: Option<i64>)
    ensures
        match r {
            Some(n) => ce_day_of(year as int, month as int, day as int) == Some(n as int),
            None => ce_day_of(year as int, month as int, day as int) is None,
        },
{
    match ce_day(year, month, day) {
        Some(n) => Some(n as i64),
        None => None,
    }
}

/// Day numbers that fit chrono's own 32-bit count.
pub open spec fn is_i32_day(n: int) -> bool {
    i32::MIN <= n <= i32::MAX
}

/// The calendar date of any day number; `None` where chrono has none.
pub open spec fn civil_date_of(n: int) -> Option<(int, int, int)> {
    if is_i32_day(n) {
        civil_of(n)
    } else {
        None
    }
}

/// Year, month and day of a day number.
pub fn civil_date(n: i64) -> (r: Option<(i32, u32, u32)>)
    ensures
        r matches Some(t) ==> civil_date_of(n as int) == Some((t.0 as int, t.1 as int, t.2 as int)),
        r is None ==> civil_date_of(n as int) is None,
{
    if n < i32::MIN as i64 || n > i32::MAX as i64 {
        None
    } else {
        civil_from_ce_day(n as i32)
    }
}

/// The date key `YYYYMMDD` of a date, as a number.
pub open spec fn date_key_of(year: int, month: int, day: int) -> int {
    year * 10000 + month * 100 + day
}

/// The date key `YYYYMMDD` of a day number, for days from year 1 to year 9999.
pub fn date_key(n: i64) -> (r: Option<u32>)
    ensures
        r matches Some(k) ==> civil_date_of(n as int) matches Some(t) && 1 <= t.0 <= 9999
            && k == date_key_of(t.0, t.1, t.2),
        r is None ==> !(civil_date_of(n as int) matches Some(t) && 1 <= t.0 <= 9999 && 1 <= t.1
            <= 12 && 1 <= t.2 <= 31),
{
    match civil_date(n) {
        Some((y, m, d)) => {
            if 1 <= y && y <= 9999 && 1 <= m && m <= 12 && 1 <= d && d <= 31 {
                Some(y as u32 * 10000 + m * 100 + d)
            } else {
                None
            }
        },
        None => None,
    }
}

/// Day of the week, 0 for Sunday through 6 for Saturday.
///
/// Day 1 is a Monday, so the weekday is the day number modulo 7.
pub open spec fn weekday_of(n: int) -> int {
    n % 7
}

pub fn weekday(n: i64) -> (r: u32)
    ensures
        r == weekday_of(n as int),
        r < 7,
{
    let m = n % 7;
    if m < 0 {
        (m + 7) as u32
    } else {
        m as u32
    }
}

/// The Sunday that starts the week holding day `n`.
pub open spec fn week_start_of(n: int) -> int {
    n - weekday_of(n)
}

/// The last day for which recurrences are generated: the Saturday that ends
/// the week `weeks_ahead` whole weeks after the week of `today`.
pub open spec fn horizon_of(today: int, weeks_ahead: int) -> int {
    week_start_of(today) + 7 * weeks_ahead + 6
}

pub fn horizon_day(today: i32, weeks_ahead: u32) -> (r: i64)
    ensures
        r == horizon_of(today as int, weeks_ahead as int),
{
    let start = today as i64 - weekday(today as i64) as i64;
    start + 7 * (weeks_ahead as i64) + 6
}

/// Whether `year` is a leap year of the Gregorian calendar.
pub open spec fn is_leap(year: int) -> bool {
    (year % 4 == 0 && year % 100 != 0) || year % 400 == 0
}

/// Days in a month (1 to 12) of a year.
pub open spec fn days_in_month_of(year: int, month: int) -> int {
    if month == 2 {
        if is_leap(year) {
            29
        } else {
            28
        }
    } else if month == 4 || month == 6 || month == 9 || month == 11 {
        30
    } else {
        31
    }
}

pub fn days_in_month(year: i64, month: u32) -> (r: u32)
    ensures
        r == days_in_month_of(year as int, month as int),
{
    if month == 2 {
        if (year % 4 == 0 && year % 100 != 0) || year % 400 == 0 {
            29
        } else {
            28
        }
    } else if month == 4 || month == 6 || month == 9 || month == 11 {
        30
    } else {
        31
    }
}

} // verus!
