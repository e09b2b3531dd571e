//! Timestamps for log lines and log file names.
//!
//! Each log line starts with the wall-clock time of day as `HH:MM:SS.mmm`;
//! each log file is named after the moment it was opened, as
//! `YYYYMMDD_HHMMSS`. Both are computed here from the seconds since the Unix
//! epoch (the clock itself is read by the caller), with the Gregorian
//! calendar.

use vstd::prelude::*;
use crate::text::{append_zero_padded, zero_padded};

verus! {

/// Whether `y` is a Gregorian leap year.
pub open spec fn is_leap_year(y: int) -> bool {
    (y % 4 == 0 && y % 100 != 0) || y % 400 == 0
}

/// The number of days in year `y`.
pub open spec fn year_length(y: int) -> int {
    if is_leap_year(y) { 366 } else { 365 }
}

/// The number of days from 1 January 1970 to 1 January of year `y`
/// (`y` from 1970 on).
pub open spec fn days_before_year(y: int) -> int
    decreases y - 1970,
{
    if y <= 1970 {
        0
    } else {
        days_before_year(y - 1) + year_length(y - 1)
    }
}

/// The number of days in month `m` (1 to 12).
pub open spec fn month_length(leap: bool, m: int) -> int {
    if m == 2 {
        if leap { 29 } else { 28 }
    } else if m == 4 || m == 6 || m == 9 || m == 11 {
        30
    } else {
        31
    }
}

/// The number of days of a year before the first of month `m` (1 to 13).
pub open spec fn days_before_month(leap: bool, m: int) -> int {
    let l: int = if leap { 1 } else { 0 };
    if m <= 1 { 0 }
    else if m == 2 { 31 }
    else if m == 3 { 59 + l }
    else if m == 4 { 90 + l }
    else if m == 5 { 120 + l }
    else if m == 6 { 151 + l }
    else if m == 7 { 181 + l }
    else if m == 8 { 212 + l }
    else if m == 9 { 243 + l }
    else if m == 10 { 273 + l }
    else if m == 11 { 304 + l }
    else if m == 12 { 334 + l }
    else { 365 + l }
}

/// Whether year `y`, month `m`, day `d` is the date `days` days after
/// 1 January 1970.
pub open spec fn is_date_of(days: int, y: int, m: int, d: int) -> bool {
    &&& y >= 1970
    &&& 1 <= m <= 12
    &&& 1 <= d <= month_length(is_leap_year(y), m)
    &&& days == days_before_year(y) + days_before_month(is_leap_year(y), m) + d - 1
}

/// The date `days` days after 1 January 1970, as year, month and day.
pub open spec fn civil_date(days: int) -> (int, int, int) {
    choose|t: (int, int, int)| is_date_of(days, t.0, t.1, t.2)
}

proof fn lemma_year_before_next(y: int)
    requires
        y >= 1970,
    ensures
        days_before_year(y + 1) == days_before_year(y) + year_length(y),
{
}

proof fn lemma_days_before_year_monotonic(a: int, b: int)
    requires
        1970 <= a <= b,
    ensures
        days_before_year(a) + (b - a) * 365 <= days_before_year(b),
    decreases b - a,
{
    if a < b {
        lemma_days_before_year_monotonic(a, b - 1);
        lemma_year_before_next(b - 1);
    }
}

/// A date's day offset lies within its year and its month.
proof fn lemma_date_bounds(days: int, y: int, m: int, d: int)
    requires
        is_date_of(days, y, m, d),
    ensures
        days_before_year(y) <= days < days_before_year(y + 1),
        days_before_month(is_leap_year(y), m) <= days - days_before_year(y) < days_before_month(is_leap_year(y), m + 1),
{
    lemma_year_before_next(y);
}

/// Every day count from 1970 on names exactly one date.
pub proof fn law_date_unique(days: int, y1: int, m1: int, d1: int, y2: int, m2: int, d2: int)
    requires
        is_date_of(days, y1, m1, d1),
        is_date_of(days, y2, m2, d2),
    ensures
        y1 == y2 && m1 == m2 && d1 == d2,
{
    lemma_date_bounds(days, y1, m1, d1);
    lemma_date_bounds(days, y2, m2, d2);
    if y1 < y2 {
        lemma_days_before_year_monotonic(y1 + 1, y2);
    } else if y2 < y1 {
        lemma_days_before_year_monotonic(y2 + 1, y1);
    }
    assert(y1 == y2);
    let leap = is_leap_year(y1);
    if m1 < m2 {
        assert(days_before_month(leap, m1 + 1) <= days_before_month(leap, m2));
    } else if m2 < m1 {
        assert(days_before_month(leap, m2 + 1) <= days_before_month(leap, m1));
    }
}

proof fn lemma_civil_date_is(days: int, y: int, m: int, d: int)
    requires
        is_date_of(days, y, m, d),
    ensures
        civil_date(days) == (y, m, d),
{
    let w = (y, m, d);
    assert(is_date_of(days, w.0, w.1, w.2));
    let t = civil_date(days);
    assert(is_date_of(days, t.0, t.1, t.2));
    law_date_unique(days, y, m, d, t.0, t.1, t.2);
}

/// Whether `y` is a Gregorian leap year.
pub fn is_leap(y: i64) -> (r: bool)
    ensures
        r == is_leap_year(y as int),
{
    (y % 4 == 0 && y % 100 != 0) || y % 400 == 0
}

fn days_in_month(leap: bool, m: u32) -> (r: u64)
    requires
        1 <= m <= 12,
    ensures
        r == month_length(leap, m as int),
{
    if m == 2 {
        if leap { 29 } else { 28 }
    } else if m == 4 || m == 6 || m == 9 || m == 11 {
        30
    } else {
        31
    }
}

/// The date `days` days after 1 January 1970: year, month (1 to 12) and day
/// of the month (from 1).
pub fn civil_from_days(days: u64) -> (r: (i64, u32, u32))
    ensures
        is_date_of(days as int, r.0 as int, r.1 as int, r.2 as int),
        (r.0 as int, r.1 as int, r.2 as int) == civil_date(days as int),
{
    let mut y: i64 = 1970;
    let mut d: u64 = days;
    loop
        invariant
            1970 <= y,
            (y - 1970) * 365 <= days - d,
            d <= days,
            days == days_before_year(y as int) + d,
        ensures
            1970 <= y,
            days == days_before_year(y as int) + d,
            d < year_length(y as int),
        decreases d,
    {
        let year_days: u64 = if is_leap(y) { 366 } else { 365 };
        if d < year_days {
            break;
        }
        proof {
            lemma_year_before_next(y as int);
        }
        d = d - year_days;
        y = y + 1;
    }
    let leap = is_leap(y);
    let mut m: u32 = 1;
    while m < 12
        invariant
            1 <= m <= 12,
            days == days_before_year(y as int) + days_before_month(leap, m as int) + d,
            leap == is_leap_year(y as int),
            days_before_month(leap, m as int) + d < days_before_month(leap, 13),
        ensures
            1 <= m <= 12,
            days == days_before_year(y as int) + days_before_month(leap, m as int) + d,
            d < month_length(leap, m as int),
        decreases 12 - m,
    {
        let month_days = days_in_month(leap, m);
        if d < month_days {
            break;
        }
        d = d - month_days;
        m = m + 1;
    }
    let day: u32 = (d + 1) as u32;
    proof {
        lemma_civil_date_is(days as int, y as int, m as int, day as int);
    }
    (y, m, day)
}

/// A time of day as `HH:MM:SS.mmm` text.
pub open spec fn clock_text(secs_of_day: nat, millis: nat) -> Seq<char> {
    zero_padded(secs_of_day / 3600, 2) + seq![':'] + zero_padded((secs_of_day % 3600) / 60, 2) + seq![':']
        + zero_padded(secs_of_day % 60, 2) + seq!['.'] + zero_padded(millis, 3)
}

/// A moment as `YYYYMMDD_HHMMSS` text.
pub open spec fn stamp_text(date: (int, int, int), secs_of_day: nat) -> Seq<char> {
    zero_padded(date.0 as nat, 4) + zero_padded(date.1 as nat, 2) + zero_padded(date.2 as nat, 2) + seq!['_']
        + zero_padded(secs_of_day / 3600, 2) + zero_padded((secs_of_day % 3600) / 60, 2)
        + zero_padded(secs_of_day % 60, 2)
}

/// The time of day of a log line, `total_secs` seconds and `millis`
/// milliseconds after the Unix epoch, as `HH:MM:SS.mmm`.
pub fn clock_timestamp(total_secs: u64, millis: u32) -> (r: String)
    ensures
        r@ == clock_text((total_secs % 86400) as nat, millis as nat),
{
    proof {
        reveal_strlit(":");
        reveal_strlit(".");
    }
    let time_secs = total_secs % 86400;
    let mut s = String::new();
    append_zero_padded(&mut s, time_secs / 3600, 2);
    s.append(":");
    append_zero_padded(&mut s, (time_secs % 3600) / 60, 2);
    s.append(":");
    append_zero_padded(&mut s, time_secs % 60, 2);
    s.append(".");
    append_zero_padded(&mut s, millis as u64, 3);
    assert(s@ =~= clock_text(time_secs as nat, millis as nat));
    s
}

/// The name stamp of a log file opened `secs` seconds after the Unix epoch,
/// as `YYYYMMDD_HHMMSS`.
pub fn filename_timestamp(secs: u64) -> (r: String)
    ensures
        r@ == stamp_text(civil_date((secs / 86400) as int), (secs % 86400) as nat),
{
    proof {
        reveal_strlit("_");
    }
    let (y, m, day) = civil_from_days(secs / 86400);
    let time_secs = secs % 86400;
    let mut s = String::new();
    append_zero_padded(&mut s, y as u64, 4);
    append_zero_padded(&mut s, m as u64, 2);
    append_zero_padded(&mut s, day as u64, 2);
    s.append("_");
    append_zero_padded(&mut s, time_secs / 3600, 2);
    append_zero_padded(&mut s, (time_secs % 3600) / 60, 2);
    append_zero_padded(&mut s, time_secs % 60, 2);
    assert(s@ =~= stamp_text((y as int, m as int, day as int), time_secs as nat));
    s
}

} // verus!
