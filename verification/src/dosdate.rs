//! FAT (MS-DOS) date/time to Unix epoch seconds.
//!
//! A packed 32-bit FAT date/time (UTC) holds the time in its low 16 bits and
//! the date in its high 16 bits:
//!
//! - time: bits 0–4 = seconds / 2, bits 5–10 = minutes, bits 11–15 = hours
//! - date: bits 0–4 = day (1–31), bits 5–8 = month (1–12), bits 9–15 = years
//!   since 1980
//!
//! A value of `0` (the "no timestamp" sentinel) yields `None`.

use vstd::prelude::*;

verus! {

/// Whether `year` is a Gregorian leap year.
pub open spec fn is_leap_year(year: int) -> bool {
    (year % 4 == 0 && year % 100 != 0) || year % 400 == 0
}

/// The number of days in `year`.
pub open spec fn year_length(year: int) -> int {
    if is_leap_year(year) {
        366
    } else {
        365
    }
}

/// Days from 1970-01-01 to the first day of `year`.
pub open spec fn days_before_year(year: int) -> int
    decreases year - 1970,
{
    if year <= 1970 {
        0
    } else {
        days_before_year(year - 1) + year_length(year - 1)
    }
}

/// Days in `month` (1–12) of a non-leap year.
pub open spec fn common_month_length(month: int) -> int {
    if month == 2 {
        28
    } else if month == 4 || month == 6 || month == 9 || month == 11 {
        30
    } else {
        31
    }
}

/// Days from the first day of `year` to the first day of `month` in it.
pub open spec fn days_before_month(year: int, month: int) -> int
    decreases month,
{
    if month <= 1 {
        0
    } else {
        days_before_month(year, month - 1) + common_month_length(month - 1) + (if month - 1 == 2
            && is_leap_year(year) {
            1int
        } else {
            0int
        })
    }
}

/// Seconds field of a packed FAT date/time.
pub open spec fn fat_second(value: u32) -> int {
    (value % 0x1_0000) % 32 * 2
}

/// Minutes field of a packed FAT date/time.
pub open spec fn fat_minute(value: u32) -> int {
    ((value % 0x1_0000) / 32 % 64) as int
}

/// Hours field of a packed FAT date/time.
pub open spec fn fat_hour(value: u32) -> int {
    ((value % 0x1_0000) / 2048 % 32) as int
}

/// Day-of-month field of a packed FAT date/time.
pub open spec fn fat_day(value: u32) -> int {
    ((value / 0x1_0000) % 32) as int
}

/// Month field of a packed FAT date/time.
pub open spec fn fat_month(value: u32) -> int {
    ((value / 0x1_0000) / 32 % 16) as int
}

/// Year of a packed FAT date/time.
pub open spec fn fat_year(value: u32) -> int {
    1980 + (value / 0x1_0000) / 512 % 128
}

/// Seconds since the Unix epoch of the calendar instant that the fields of
/// `value` name.
pub open spec fn fat_epoch_seconds(value: u32) -> int {
    (days_before_year(fat_year(value)) + days_before_month(fat_year(value), fat_month(value))
        + fat_day(value) - 1) * 86_400 + fat_hour(value) * 3_600 + fat_minute(value) * 60
        + fat_second(value)
}

/// The Unix time of a packed FAT date/time: `None` for `0` and for a month
/// outside 1–12 or a day outside 1–31.
pub open spec fn spec_fat_to_epoch(value: u32) -> Option<i64> {
    if value == 0 {
        None
    } else if fat_month(value) < 1 || fat_month(value) > 12 || fat_day(value) < 1 || fat_day(value)
        > 31 {
        None
    } else {
        Some(fat_epoch_seconds(value) as i64)
    }
}

proof fn lemma_days_before_year_bound(year: int)
    requires
        year >= 1970,
    ensures
        0 <= days_before_year(year) <= (year - 1970) * 366,
    decreases year - 1970,
{
    if year > 1970 {
        lemma_days_before_year_bound(year - 1);
    }
}

proof fn lemma_days_before_month_bound(year: int, month: int)
    requires
        month >= 1,
    ensures
        0 <= days_before_month(year, month) <= (month - 1) * 31,
    decreases month,
{
    if month > 1 {
        lemma_days_before_month_bound(year, month - 1);
    }
}

/// The epoch seconds of any packed FAT value lie well inside `i64`.
proof fn lemma_fat_epoch_seconds_bound(value: u32)
    requires
        1 <= fat_month(value) <= 12,
        1 <= fat_day(value) <= 31,
    ensures
        0 <= fat_epoch_seconds(value) < 5_000_000_000,
{
    lemma_days_before_year_bound(fat_year(value));
    lemma_days_before_month_bound(fat_year(value), fat_month(value));
}


/// Days in `month` (1–12) of `year`.
pub open spec fn month_length_in(year: int, month: int) -> int {
    common_month_length(month) + (if month == 2 && is_leap_year(year) {
        1int
    } else {
        0int
    })
}

/// Whether the fields of `value` name a real instant: a month of 1–12, a day
/// that exists in that month, and a time of day within 00:00:00–23:59:58.
pub open spec fn fat_is_valid_instant(value: u32) -> bool {
    &&& 1 <= fat_month(value) <= 12
    &&& 1 <= fat_day(value) <= month_length_in(fat_year(value), fat_month(value))
    &&& fat_hour(value) <= 23
    &&& fat_minute(value) <= 59
    &&& fat_second(value) <= 58
}

/// The packed value is its fields laid out from the most significant (year)
/// to the least significant (seconds / 2).
proof fn lemma_fat_fields(v: u32)
    ensures
        v == (fat_year(v) - 1980) * 0x200_0000 + fat_month(v) * 0x20_0000 + fat_day(v) * 0x1_0000
            + fat_hour(v) * 0x800 + fat_minute(v) * 0x20 + fat_second(v) / 2,
        0 <= fat_year(v) - 1980 < 128,
        0 <= fat_month(v) < 16,
        0 <= fat_day(v) < 32,
        0 <= fat_hour(v) < 32,
        0 <= fat_minute(v) < 64,
        0 <= fat_second(v) / 2 < 32,
        fat_second(v) % 2 == 0,
{
    assert(v == (v / 0x1_0000 / 512 % 128) * 0x200_0000 + (v / 0x1_0000 / 32 % 16) * 0x20_0000 + (v
        / 0x1_0000 % 32) * 0x1_0000 + (v % 0x1_0000 / 2048 % 32) * 0x800 + (v % 0x1_0000 / 32 % 64)
        * 0x20 + (v % 0x1_0000 % 32)) by (bit_vector);
}

proof fn lemma_days_before_month_step(year: int, month: int)
    requires
        1 <= month,
    ensures
        days_before_month(year, month + 1) == days_before_month(year, month) + month_length_in(
            year,
            month,
        ),
{
}

/// The months of a year fill the whole year.
proof fn lemma_days_before_month_13(year: int)
    ensures
        days_before_month(year, 13) == year_length(year),
{
    reveal_with_fuel(days_before_month, 13);
}

/// A day of month `m1` comes before the first day of any later month.
proof fn lemma_days_before_later_month(year: int, m1: int, m2: int)
    requires
        1 <= m1 < m2,
    ensures
        days_before_month(year, m1) + month_length_in(year, m1) <= days_before_month(year, m2),
    decreases m2 - m1,
{
    lemma_days_before_month_step(year, m1);
    if m1 + 1 < m2 {
        lemma_days_before_later_month(year, m1 + 1, m2);
        lemma_days_before_month_step(year, m1 + 1);
    }
}

/// A day of year `y1` comes before the first day of any later year.
proof fn lemma_days_before_later_year(y1: int, y2: int)
    requires
        1970 <= y1 < y2,
    ensures
        days_before_year(y1) + year_length(y1) <= days_before_year(y2),
    decreases y2 - y1,
{
    if y1 + 1 < y2 {
        lemma_days_before_later_year(y1 + 1, y2);
    }
}

/// Numbers written in the same mixed radix compare as their digit tuples do.
proof fn lemma_mixed_radix_order(x: (int, int, int, int, int, int), y: (int, int, int, int, int, int))
    requires
        0 <= x.1 < 16 && 0 <= x.2 < 32 && 0 <= x.3 < 32 && 0 <= x.4 < 64 && 0 <= x.5 < 32,
        0 <= y.1 < 16 && 0 <= y.2 < 32 && 0 <= y.3 < 32 && 0 <= y.4 < 64 && 0 <= y.5 < 32,
        x.0 * 0x200_0000 + x.1 * 0x20_0000 + x.2 * 0x1_0000 + x.3 * 0x800 + x.4 * 0x20 + x.5 < y.0
            * 0x200_0000 + y.1 * 0x20_0000 + y.2 * 0x1_0000 + y.3 * 0x800 + y.4 * 0x20 + y.5,
    ensures
        x.0 < y.0 || (x.0 == y.0 && (x.1 < y.1 || (x.1 == y.1 && (x.2 < y.2 || (x.2 == y.2 && (x.3
            < y.3 || (x.3 == y.3 && (x.4 < y.4 || (x.4 == y.4 && x.5 < y.5))))))))),
{
    if x.0 > y.0 {
        assert(x.0 * 0x200_0000 >= y.0 * 0x200_0000 + 0x200_0000);
    } else if x.0 == y.0 && x.1 > y.1 {
        assert(x.1 * 0x20_0000 >= y.1 * 0x20_0000 + 0x20_0000);
    } else if x.0 == y.0 && x.1 == y.1 && x.2 > y.2 {
        assert(x.2 * 0x1_0000 >= y.2 * 0x1_0000 + 0x1_0000);
    } else if x.0 == y.0 && x.1 == y.1 && x.2 == y.2 && x.3 > y.3 {
        assert(x.3 * 0x800 >= y.3 * 0x800 + 0x800);
    } else if x.0 == y.0 && x.1 == y.1 && x.2 == y.2 && x.3 == y.3 && x.4 > y.4 {
        assert(x.4 * 0x20 >= y.4 * 0x20 + 0x20);
    }
}

/// The day number of a valid instant's date.
spec fn fat_day_number(v: u32) -> int {
    days_before_year(fat_year(v)) + days_before_month(fat_year(v), fat_month(v)) + fat_day(v) - 1
}

/// The second of the day of a valid instant.
spec fn fat_time_of_day(v: u32) -> int {
    fat_hour(v) * 3_600 + fat_minute(v) * 60 + fat_second(v)
}

/// An earlier date of two valid instants has a smaller day number.
proof fn lemma_earlier_date(v1: u32, v2: u32)
    requires
        fat_is_valid_instant(v1),
        fat_is_valid_instant(v2),
        fat_year(v1) < fat_year(v2) || (fat_year(v1) == fat_year(v2) && (fat_month(v1) < fat_month(
            v2,
        ) || (fat_month(v1) == fat_month(v2) && fat_day(v1) < fat_day(v2)))),
    ensures
        fat_day_number(v1) < fat_day_number(v2),
{
    let (y1, m1) = (fat_year(v1), fat_month(v1));
    let (y2, m2) = (fat_year(v2), fat_month(v2));
    if y1 < y2 {
        lemma_days_before_later_month(y1, m1, 13);
        lemma_days_before_month_13(y1);
        lemma_days_before_later_year(y1, y2);
        lemma_days_before_month_bound(y2, m2);
    } else if m1 < m2 {
        lemma_days_before_later_month(y1, m1, m2);
    }
}

/// Distinct valid FAT date/times keep their order: a larger packed value is a
/// strictly later instant, so the conversion is strictly increasing (and
/// injective) on values that name real instants.
pub proof fn lemma_fat_to_epoch_strictly_increasing(v1: u32, v2: u32)
    requires
        v1 < v2,
        fat_is_valid_instant(v1),
        fat_is_valid_instant(v2),
    ensures
        spec_fat_to_epoch(v1) is Some,
        spec_fat_to_epoch(v2) is Some,
        spec_fat_to_epoch(v1).unwrap() < spec_fat_to_epoch(v2).unwrap(),
{
    lemma_fat_fields(v1);
    lemma_fat_fields(v2);
    lemma_fat_epoch_seconds_bound(v1);
    lemma_fat_epoch_seconds_bound(v2);
    let x = (
        fat_year(v1) - 1980,
        fat_month(v1),
        fat_day(v1),
        fat_hour(v1),
        fat_minute(v1),
        fat_second(v1) / 2,
    );
    let y = (
        fat_year(v2) - 1980,
        fat_month(v2),
        fat_day(v2),
        fat_hour(v2),
        fat_minute(v2),
        fat_second(v2) / 2,
    );
    lemma_mixed_radix_order(x, y);
    let day1 = fat_day_number(v1);
    let day2 = fat_day_number(v2);
    let tod1 = fat_time_of_day(v1);
    let tod2 = fat_time_of_day(v2);
    assert(fat_epoch_seconds(v1) == day1 * 86_400 + tod1);
    assert(fat_epoch_seconds(v2) == day2 * 86_400 + tod2);
    assert(0 <= tod1 < 86_400);
    assert(0 <= tod2 < 86_400);
    if x.0 == y.0 && x.1 == y.1 && x.2 == y.2 {
        assert(tod1 < tod2);
    } else {
        lemma_earlier_date(v1, v2);
        assert(day1 * 86_400 + 86_400 <= day2 * 86_400);
    }
}


/// Days from 1970-01-01 to the proleptic Gregorian date `y-m-d`, by the
/// closed-form count of days from 0000-03-01 (a year is taken to start in
/// March, so that the leap day is its last day).
pub open spec fn civil_days(y: int, m: int, d: int) -> int {
    let yy = if m <= 2 {
        y - 1
    } else {
        y
    };
    let mp = if m > 2 {
        m - 3
    } else {
        m + 9
    };
    365 * yy + yy / 4 - yy / 100 + yy / 400 + (153 * mp + 2) / 5 + d - 1 - 719_468
}

/// The leap years up to and including `n`, counted from year 1.
spec fn leap_count(n: int) -> int {
    n / 4 - n / 100 + n / 400
}

proof fn lemma_leap_count_step(y: int)
    requires
        y >= 1,
    ensures
        leap_count(y) == leap_count(y - 1) + if is_leap_year(y) {
            1int
        } else {
            0int
        },
{
}

proof fn lemma_days_before_year_closed(y: int)
    requires
        y >= 1970,
    ensures
        days_before_year(y) == 365 * (y - 1970) + leap_count(y - 1) - 477,
    decreases y - 1970,
{
    if y > 1970 {
        lemma_days_before_year_closed(y - 1);
        lemma_leap_count_step(y - 1);
    }
}

/// Days before each month of a common year.
pub open spec fn cumulative_common_days(m: int) -> int {
    if m == 1 {
        0
    } else if m == 2 {
        31
    } else if m == 3 {
        59
    } else if m == 4 {
        90
    } else if m == 5 {
        120
    } else if m == 6 {
        151
    } else if m == 7 {
        181
    } else if m == 8 {
        212
    } else if m == 9 {
        243
    } else if m == 10 {
        273
    } else if m == 11 {
        304
    } else {
        334
    }
}

/// The months of the year have their Gregorian lengths: the days before
/// month `m` are 0, 31, 59, 90, 120, 151, 181, 212, 243, 273, 304 and 334,
/// one more from March on in a leap year.
pub proof fn lemma_days_before_month_gregorian(y: int, m: int)
    requires
        1 <= m <= 12,
    ensures
        days_before_month(y, m) == cumulative_common_days(m) + if m > 2 && is_leap_year(y) {
            1int
        } else {
            0int
        },
{
    reveal_with_fuel(days_before_month, 12);
}

/// `fat_to_epoch` is civil time: the seconds it gives are the days from the
/// epoch to the packed date (by the closed-form Gregorian day count) times
/// 86400, plus the packed time of day.
pub proof fn lemma_fat_to_epoch_is_civil_time(v: u32)
    requires
        v != 0,
        1 <= fat_month(v) <= 12,
        1 <= fat_day(v) <= 31,
    ensures
        spec_fat_to_epoch(v) == Some(
            (civil_days(fat_year(v), fat_month(v), fat_day(v)) * 86_400 + fat_hour(v) * 3_600
                + fat_minute(v) * 60 + fat_second(v)) as i64,
        ),
{
    let y = fat_year(v);
    let m = fat_month(v);
    lemma_days_before_year_closed(y);
    lemma_leap_count_step(y);
    lemma_days_before_month_gregorian(y, m);
    assert(days_before_year(y) + days_before_month(y, m) == civil_days(y, m, 1));
}

/// Whether `year` is a Gregorian leap year.
pub fn is_leap(year: u64) -> (r: bool)
    ensures
        r == is_leap_year(year as int),
{
    (year % 4 == 0 && year % 100 != 0) || year % 400 == 0
}

/// Days in `month` (1–12) of a non-leap year.
fn month_length(month: u64) -> (r: u64)
    ensures
        r == common_month_length(month as int),
{
    if month == 2 {
        28
    } else if month == 4 || month == 6 || month == 9 || month == 11 {
        30
    } else {
        31
    }
}

/// Convert a packed 32-bit FAT date/time (UTC) to Unix epoch seconds.
///
/// Returns `None` when the value is `0` (no timestamp) or when the packed
/// fields are out of range (month `0`/`>12`, day `0`/`>31`): a malformed
/// field never yields a bogus timestamp.
pub fn fat_to_epoch(value: u32) -> (r: Option<i64>)
    ensures
        r == spec_fat_to_epoch(value),
{
    if value == 0 {
        return None;
    }
    let time = value % 0x1_0000;
    let date = value / 0x1_0000;

    let second = (time % 32 * 2) as u64;
    let minute = (time / 32 % 64) as u64;
    let hour = (time / 2048 % 32) as u64;

    let day = (date % 32) as u64;
    let month = (date / 32 % 16) as u64;
    let year = 1980 + (date / 512 % 128) as u64;

    if !(1 <= month && month <= 12) || !(1 <= day && day <= 31) {
        return None;
    }
    proof {
        lemma_days_before_year_bound(year as int);
        lemma_fat_epoch_seconds_bound(value);
    }
    // Days from the Unix epoch (1970-01-01) to the start of `year`.
    let mut days: u64 = 0;
    let mut y: u64 = 1970;
    while y < year
        invariant
            1970 <= y <= year,
            year <= 2107,
            days == days_before_year(y as int),
            days_before_year(year as int) <= (year - 1970) * 366,
        decreases year - y,
    {
        proof {
            lemma_days_before_year_bound(y + 1);
        }
        days = days + if is_leap(y) {
            366
        } else {
            365
        };
        y = y + 1;
    }
    // Days from the start of `year` to the start of `month`.
    let mut m: u64 = 1;
    while m < month
        invariant
            1 <= m <= month <= 12,
            year <= 2107,
            days == days_before_year(year as int) + days_before_month(year as int, m as int),
            days_before_year(year as int) <= (year - 1970) * 366,
        decreases month - m,
    {
        proof {
            lemma_days_before_month_bound(year as int, m as int);
        }
        days = days + month_length(m);
        if m == 2 && is_leap(year) {
            days = days + 1;
        }
        m = m + 1;
    }
    days = days + day - 1;

    let secs = days * 86_400 + hour * 3_600 + minute * 60 + second;
    Some(secs as i64)
}

} // verus!
