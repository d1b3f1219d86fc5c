//! The mathematical model of the calendar: what a year, month, day or
//! timestamp means as an integer, independent of any executable code.

use vstd::prelude::*;

verus! {

use crate::DayOfTheWeek;
use crate::Month;
use crate::NaiveDateTime;

/// Days from January 1 of year 0 to January 1 of 1970 (the Unix epoch).
pub const DAYS_FROM_YEAR_ZERO_TO_EPOCH: i64 = 719528;

pub const SECONDS_PER_MINUTE: i64 = 60;

pub const SECONDS_PER_HOUR: i64 = SECONDS_PER_MINUTE * 60;

pub const SECONDS_PER_DAY: i64 = SECONDS_PER_HOUR * 24;

pub const DAYS_PER_COMMON_YEAR: i64 = 365;

/// The leap year schedule of the Gregorian calendar cycles every 400 years.
/// In one cycle, there are 100 years multiple of 4, of which 4 are multiples
/// of 100, of which 1 is a multiple of 400.
pub const LEAP_DAYS_PER_400YEARS: i64 = 97;

pub const DAYS_PER_400YEARS: i64 = DAYS_PER_COMMON_YEAR * 400 + LEAP_DAYS_PER_400YEARS;

/// Day count (from January 1 of year 0) of January 1 of the first year an
/// `i32` can hold: `days_from_year_zero(i32::MIN)`.
pub const FIRST_REPRESENTABLE_DAY: i64 = -784352296305;

/// Day count of January 1 of the first year beyond `i32`:
/// `days_from_year_zero(i32::MAX + 1)`.
pub const FIRST_UNREPRESENTABLE_DAY: i64 = 784352296305;

/// First second of the first representable day, in seconds since the epoch.
pub const MIN_REPRESENTABLE_SECONDS: i64 = -67768100567971200;

/// Last second of the last representable day, in seconds since the epoch.
pub const MAX_REPRESENTABLE_SECONDS: i64 = 67767976233532799;

/// No time zone shifts the clock by more than this many seconds: a fixed
/// offset is stored as an `i32` count of seconds.
pub const OFFSET_BOUND: i64 = 2147483648;

/// An instant whose calendar rendering, in every time zone this crate can
/// express, falls in a year an `i32` can hold.
pub open spec fn timestamp_in_range(t: int) -> bool {
    MIN_REPRESENTABLE_SECONDS + 2 * OFFSET_BOUND <= t <= MAX_REPRESENTABLE_SECONDS - 2
        * OFFSET_BOUND
}

/// A second count whose calendar rendering falls in a year an `i32` can
/// hold.
pub open spec fn representable_seconds(s: int) -> bool {
    MIN_REPRESENTABLE_SECONDS <= s <= MAX_REPRESENTABLE_SECONDS
}

/// The Gregorian leap-year rule, extended to every integer year
/// (the proleptic calendar: year 0 is leap, as are -4, -8, ...).
pub open spec fn is_leap_year(y: int) -> bool {
    y % 4 == 0 && (y % 100 != 0 || y % 400 == 0)
}

pub open spec fn days_in_year(y: int) -> int {
    if is_leap_year(y) {
        366
    } else {
        365
    }
}

/// Leap days strictly between January 1 of year 0 and January 1 of year `y`,
/// counted negatively when `y` lies before year 0.
pub open spec fn leap_days_before(y: int) -> int {
    if y > 0 {
        (y - 1) / 4 - (y - 1) / 100 + (y - 1) / 400 + 1
    } else {
        -((-y) / 4 - (-y) / 100 + (-y) / 400)
    }
}

/// Days from January 1 of year 0 to January 1 of year `y`
/// (negative when `y` lies before year 0).
pub open spec fn days_from_year_zero(y: int) -> int {
    365 * y + leap_days_before(y)
}

/// The 1-based ordinal of a month.
pub open spec fn month_number(m: Month) -> int {
    match m {
        Month::January => 1,
        Month::February => 2,
        Month::March => 3,
        Month::April => 4,
        Month::May => 5,
        Month::June => 6,
        Month::July => 7,
        Month::August => 8,
        Month::September => 9,
        Month::October => 10,
        Month::November => 11,
        Month::December => 12,
    }
}

/// Days in a month, by whether the year is leap.
pub open spec fn month_length(m: Month, leap: bool) -> int {
    match m {
        Month::January => 31,
        Month::February => if leap {
            29
        } else {
            28
        },
        Month::March => 31,
        Month::April => 30,
        Month::May => 31,
        Month::June => 30,
        Month::July => 31,
        Month::August => 31,
        Month::September => 30,
        Month::October => 31,
        Month::November => 30,
        Month::December => 31,
    }
}

/// Days between January 1 and the first day of the month, by year kind.
pub open spec fn month_days_before(m: Month, leap: bool) -> int {
    match m {
        Month::January => 0,
        Month::February => 31,
        Month::March => if leap {
            60
        } else {
            59
        },
        Month::April => if leap {
            91
        } else {
            90
        },
        Month::May => if leap {
            121
        } else {
            120
        },
        Month::June => if leap {
            152
        } else {
            151
        },
        Month::July => if leap {
            182
        } else {
            181
        },
        Month::August => if leap {
            213
        } else {
            212
        },
        Month::September => if leap {
            244
        } else {
            243
        },
        Month::October => if leap {
            274
        } else {
            273
        },
        Month::November => if leap {
            305
        } else {
            304
        },
        Month::December => if leap {
            335
        } else {
            334
        },
    }
}

/// 0-based day of the year of a date (0 = January 1).
pub open spec fn day_of_year_of(d: NaiveDateTime) -> int {
    month_days_before(d.month, is_leap_year(d.year as int)) + d.day - 1
}

/// Signed day count of a date relative to the Unix epoch
/// (1970-01-01 is day 0, 1969-12-31 is day -1).
pub open spec fn days_since_unix_of(d: NaiveDateTime) -> int {
    days_from_year_zero(d.year as int) - DAYS_FROM_YEAR_ZERO_TO_EPOCH + day_of_year_of(d)
}

/// Seconds since midnight of a date-time's clock reading.
pub open spec fn seconds_of_day(d: NaiveDateTime) -> int {
    d.hour * 3600 + d.minute * 60 + d.second
}

/// The timestamp a date-time denotes when its fields are read in UTC.
pub open spec fn timestamp_of(d: NaiveDateTime) -> int {
    days_since_unix_of(d) * 86400 + seconds_of_day(d)
}

/// The ISO 8601 number of a day of the week: Monday is 1, Sunday is 7.
pub open spec fn iso_number_of(w: DayOfTheWeek) -> int {
    match w {
        DayOfTheWeek::Monday => 1,
        DayOfTheWeek::Tuesday => 2,
        DayOfTheWeek::Wednesday => 3,
        DayOfTheWeek::Thursday => 4,
        DayOfTheWeek::Friday => 5,
        DayOfTheWeek::Saturday => 6,
        DayOfTheWeek::Sunday => 7,
    }
}

/// The ISO day-of-week number of the day `days` days after the Unix epoch
/// (which was a Thursday, ISO number 4).
pub open spec fn iso_day_of_week(days: int) -> int {
    (days + 3) % 7 + 1
}

use vstd::arithmetic::div_mod::lemma_fundamental_div_mod;
use vstd::arithmetic::div_mod::lemma_fundamental_div_mod_converse;
use vstd::arithmetic::div_mod::lemma_mod_bound;

/// Stepping the dividend down by one lowers the quotient exactly at the
/// multiples of the divisor.
proof fn lemma_div_step(n: int, k: int)
    requires
        n >= 1,
        k > 0,
    ensures
        n / k - (n - 1) / k == if n % k == 0 {
            1int
        } else {
            0int
        },
{
    let q: int = n / k;
    let r: int = n % k;
    lemma_fundamental_div_mod(n, k);
    lemma_mod_bound(n, k);
    if r == 0 {
        assert(n - 1 == (q - 1) * k + (k - 1)) by (nonlinear_arith)
            requires
                n == k * q + r,
                r == 0,
        ;
        lemma_fundamental_div_mod_converse(n - 1, k, q - 1, k - 1);
    } else {
        assert(n - 1 == q * k + (r - 1)) by (nonlinear_arith)
            requires
                n == k * q + r,
        ;
        lemma_fundamental_div_mod_converse(n - 1, k, q, r - 1);
    }
}

/// A number and its negation are divisible by the same divisors.
pub proof fn lemma_neg_divisible(y: int, k: int)
    requires
        k > 0,
    ensures
        (y % k == 0) == ((-y) % k == 0),
{
    let q: int = y / k;
    let r: int = y % k;
    lemma_fundamental_div_mod(y, k);
    lemma_mod_bound(y, k);
    if r == 0 {
        assert(-y == (-q) * k + 0) by (nonlinear_arith)
            requires
                y == k * q + r,
                r == 0,
        ;
        lemma_fundamental_div_mod_converse(-y, k, -q, 0);
    } else {
        assert(-y == (-q - 1) * k + (k - r)) by (nonlinear_arith)
            requires
                y == k * q + r,
        ;
        lemma_fundamental_div_mod_converse(-y, k, -q - 1, k - r);
    }
}

/// How the leap-day count changes from one year to the next: it grows by
/// one exactly when the year being crossed is leap.
#[verifier::rlimit(50)]
pub proof fn lemma_leap_days_step(y: int)
    ensures
        leap_days_before(y + 1) == leap_days_before(y) + if is_leap_year(y) {
            1int
        } else {
            0int
        },
{
    if y >= 1 {
        lemma_div_step(y, 4);
        lemma_div_step(y, 100);
        lemma_div_step(y, 400);
    } else if y == 0 {
        assert(leap_days_before(1) == 1);
        assert(leap_days_before(0) == 0);
        assert(is_leap_year(0));
    } else {
        let n: int = -y;
        lemma_div_step(n, 4);
        lemma_div_step(n, 100);
        lemma_div_step(n, 400);
        lemma_neg_divisible(y, 4);
        lemma_neg_divisible(y, 100);
        lemma_neg_divisible(y, 400);
    }
}

/// One calendar year of days separates the day counts of consecutive years.
pub proof fn lemma_days_step(y: int)
    ensures
        days_from_year_zero(y + 1) == days_from_year_zero(y) + days_in_year(y),
{
    lemma_leap_days_step(y);
}

/// Day counts grow by at least 365 per year, so they are strictly ordered.
pub proof fn lemma_days_monotone(y1: int, y2: int)
    requires
        y1 <= y2,
    ensures
        days_from_year_zero(y1) + 365 * (y2 - y1) <= days_from_year_zero(y2),
    decreases y2 - y1,
{
    if y1 < y2 {
        lemma_days_monotone(y1, y2 - 1);
        lemma_days_step(y2 - 1);
    }
}

/// The leap-day count stays within a narrow band around 97/400 of the year
/// number; this is what makes the 400-year-cycle year estimate work.
pub proof fn lemma_leap_days_bounds(y: int)
    ensures
        97 * y - 396 <= 400 * leap_days_before(y) <= 97 * y + 699,
{
    if y > 0 {
        let z: int = y - 1;
        lemma_fundamental_div_mod(z, 4);
        lemma_fundamental_div_mod(z, 100);
        lemma_fundamental_div_mod(z, 400);
        lemma_mod_bound(z, 4);
        lemma_mod_bound(z, 100);
        lemma_mod_bound(z, 400);
    } else {
        let n: int = -y;
        lemma_fundamental_div_mod(n, 4);
        lemma_fundamental_div_mod(n, 100);
        lemma_fundamental_div_mod(n, 400);
        lemma_mod_bound(n, 4);
        lemma_mod_bound(n, 100);
        lemma_mod_bound(n, 400);
    }
}

/// The 400-year-cycle estimate for the year that contains absolute day `d`
/// is off by at most one year in either direction.
pub proof fn lemma_year_estimate(d: int)
    ensures
        days_from_year_zero((400 * d) / 146097 - 1) <= d,
        d < days_from_year_zero((400 * d) / 146097 + 2),
{
    let y: int = (400 * d) / 146097;
    lemma_fundamental_div_mod(400 * d, 146097);
    lemma_mod_bound(400 * d, 146097);
    lemma_leap_days_bounds(y - 1);
    lemma_leap_days_bounds(y + 2);
    assert(146097 * y <= 400 * d < 146097 * (y + 1)) by (nonlinear_arith)
        requires
            400 * d == 146097 * y + (400 * d) % 146097,
            0 <= (400 * d) % 146097 < 146097,
    ;
    assert(400 * days_from_year_zero(y - 1) < 146097 * y);
    assert(400 * days_from_year_zero(y + 2) > 146097 * (y + 1));
}

/// The year containing the day `d` days after January 1 of year 0: the
/// 400-year-cycle estimate, corrected by at most one year either way.
pub open spec fn year_of_day(d: int) -> int {
    let y = (400 * d) / 146097;
    if d < days_from_year_zero(y) {
        y - 1
    } else if d >= days_from_year_zero(y + 1) {
        y + 1
    } else {
        y
    }
}

/// The year in whose UTC rendering the instant `t` falls.
pub open spec fn year_of_timestamp(t: int) -> int {
    year_of_day(t / 86400 + DAYS_FROM_YEAR_ZERO_TO_EPOCH)
}

/// `year_of_day` picks a year that really contains the day.
pub proof fn lemma_year_of_day(d: int)
    ensures
        days_from_year_zero(year_of_day(d)) <= d,
        d < days_from_year_zero(year_of_day(d) + 1),
{
    lemma_year_estimate(d);
}

/// Only one year contains a given day.
pub proof fn lemma_year_of_day_unique(d: int, y: int)
    requires
        days_from_year_zero(y) <= d,
        d < days_from_year_zero(y + 1),
    ensures
        year_of_day(d) == y,
{
    lemma_year_of_day(d);
    let yd = year_of_day(d);
    if yd < y {
        lemma_days_monotone(yd + 1, y);
        assert(false);
    }
    if y < yd {
        lemma_days_monotone(y + 1, yd);
        assert(false);
    }
}

/// A well-formed date-time's timestamp falls in its own year.
pub proof fn lemma_year_of_timestamp_of(d: NaiveDateTime)
    requires
        d.wf(),
    ensures
        year_of_timestamp(timestamp_of(d)) == d.year as int,
        timestamp_of(d) / 86400 == days_since_unix_of(d),
{
    let t = timestamp_of(d);
    lemma_seconds_of_day_bounds(d);
    lemma_fundamental_div_mod_converse(t, 86400, days_since_unix_of(d), seconds_of_day(d));
    lemma_day_of_year_bounds(d);
    lemma_days_step(d.year as int);
    lemma_year_of_day_unique(t / 86400 + DAYS_FROM_YEAR_ZERO_TO_EPOCH, d.year as int);
}

/// An instant that falls within day `k` (counted from January 1 of year
/// 0), where day `k` belongs to year `y`, falls within year `y`.
pub proof fn lemma_year_of_seconds_in_day(y: int, k: int, s: int)
    requires
        days_from_year_zero(y) <= k < days_from_year_zero(y + 1),
        (k - DAYS_FROM_YEAR_ZERO_TO_EPOCH) * 86400 <= s < (k - DAYS_FROM_YEAR_ZERO_TO_EPOCH + 1)
            * 86400,
    ensures
        year_of_timestamp(s) == y,
{
    let du = k - DAYS_FROM_YEAR_ZERO_TO_EPOCH;
    lemma_fundamental_div_mod_converse(s, 86400, du, s - du * 86400);
    lemma_year_of_day_unique(k, y);
}

/// The named day-range constants are the day counts of January 1 of the
/// first representable year and of the first year past `i32`.
pub proof fn lemma_representable_day_constants()
    ensures
        days_from_year_zero(-2147483648) == FIRST_REPRESENTABLE_DAY,
        days_from_year_zero(2147483648) == FIRST_UNREPRESENTABLE_DAY,
{
}

/// Every month's day interval lies inside the year.
pub proof fn lemma_month_in_year(m: Month, leap: bool)
    ensures
        0 <= month_days_before(m, leap),
        month_days_before(m, leap) + month_length(m, leap) <= if leap {
            366int
        } else {
            365int
        },
{
}

/// The month offsets are strictly increasing across the twelve months of
/// a year of either kind: each month begins after the one before it ends.
pub proof fn lemma_month_offsets_increasing(m1: Month, m2: Month, leap: bool)
    requires
        month_number(m1) < month_number(m2),
    ensures
        month_days_before(m1, leap) + month_length(m1, leap) <= month_days_before(m2, leap),
{
}

/// Distinct months cover disjoint day intervals of the year, so two
/// overlapping intervals must belong to the same month.
pub proof fn lemma_month_intervals_disjoint(m1: Month, m2: Month, leap: bool)
    requires
        month_days_before(m1, leap) < month_days_before(m2, leap) + month_length(m2, leap),
        month_days_before(m2, leap) < month_days_before(m1, leap) + month_length(m1, leap),
    ensures
        m1 == m2,
{
}

/// A date-time's clock reading is under a day's worth of seconds.
pub proof fn lemma_seconds_of_day_bounds(d: NaiveDateTime)
    requires
        d.wf(),
    ensures
        0 <= seconds_of_day(d) < 86400,
{
}

/// A well-formed date's day-of-year offset falls inside its year.
pub proof fn lemma_day_of_year_bounds(d: NaiveDateTime)
    requires
        d.wf(),
    ensures
        0 <= day_of_year_of(d) < days_in_year(d.year as int),
{
    lemma_month_in_year(d.month, is_leap_year(d.year as int));
}

/// No two well-formed date-times denote the same timestamp: the calendar
/// encoding is injective, which is what makes timestamp conversion
/// round-trip.
pub proof fn lemma_timestamp_of_injective(a: NaiveDateTime, b: NaiveDateTime)
    requires
        a.wf(),
        b.wf(),
        timestamp_of(a) == timestamp_of(b),
    ensures
        a == b,
{
    lemma_seconds_of_day_bounds(a);
    lemma_seconds_of_day_bounds(b);
    lemma_day_of_year_bounds(a);
    lemma_day_of_year_bounds(b);
    let s: int = timestamp_of(a);
    lemma_fundamental_div_mod_converse(s, 86400, days_since_unix_of(a), seconds_of_day(a));
    lemma_fundamental_div_mod_converse(s, 86400, days_since_unix_of(b), seconds_of_day(b));
    assert(days_since_unix_of(a) == days_since_unix_of(b));
    assert(seconds_of_day(a) == seconds_of_day(b));
    let ya: int = a.year as int;
    let yb: int = b.year as int;
    if ya < yb {
        lemma_days_step(ya);
        lemma_days_monotone(ya + 1, yb);
        assert(false);
    }
    if yb < ya {
        lemma_days_step(yb);
        lemma_days_monotone(yb + 1, ya);
        assert(false);
    }
    assert(day_of_year_of(a) == day_of_year_of(b));
    let leap: bool = is_leap_year(ya);
    lemma_month_intervals_disjoint(a.month, b.month, leap);
    assert(a.day == b.day);
    let t: int = seconds_of_day(a);
    lemma_fundamental_div_mod_converse(t, 3600, a.hour as int, a.minute * 60 + a.second);
    lemma_fundamental_div_mod_converse(t, 3600, b.hour as int, b.minute * 60 + b.second);
    lemma_fundamental_div_mod_converse(
        a.minute * 60 + a.second,
        60,
        a.minute as int,
        a.second as int,
    );
    lemma_fundamental_div_mod_converse(
        b.minute * 60 + b.second,
        60,
        b.minute as int,
        b.second as int,
    );
}

/// Splitting a second count into whole days, hours past the day's start,
/// minutes past the hour and leftover seconds loses nothing.
pub proof fn lemma_time_decomposition(s: int)
    ensures
        (s / 86400) * 86400 + ((s / 3600) % 24) * 3600 + ((s / 60) % 60) * 60 + s % 60 == s,
{
    let q: int = s / 86400;
    let sd: int = s % 86400;
    lemma_fundamental_div_mod(s, 86400);
    lemma_mod_bound(s, 86400);
    let h: int = sd / 3600;
    let r3: int = sd % 3600;
    lemma_fundamental_div_mod(sd, 3600);
    lemma_mod_bound(sd, 3600);
    let mi: int = r3 / 60;
    let sec: int = r3 % 60;
    lemma_fundamental_div_mod(r3, 60);
    lemma_mod_bound(r3, 60);
    // s / 3600 splits off the 24 whole hours of each whole day
    lemma_fundamental_div_mod_converse(s, 3600, 24 * q + h, r3);
    lemma_fundamental_div_mod_converse(24 * q + h, 24, q, h);
    // s / 60 splits off the 1440 whole minutes of each whole day
    lemma_fundamental_div_mod_converse(s, 60, 1440 * q + 60 * h + mi, sec);
    lemma_fundamental_div_mod_converse(1440 * q + 60 * h + mi, 60, 24 * q + h, mi);
}

} // verus!
