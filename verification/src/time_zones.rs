//! Time zones: the conversion between Unix timestamps and calendar
//! date-times, for UTC, for fixed UTC offsets, and for zones with a
//! daylight-saving rule, whose transitions make some local times
//! ambiguous or nonexistent.

use vstd::prelude::*;

verus! {

use vstd::arithmetic::div_mod::lemma_div_is_ordered;
use crate::model;
use crate::num;
use crate::DateTime;
use crate::DayOfTheWeek;
use crate::Month;
use crate::NaiveDateTime;
use crate::UnixTimestamp;
use crate::YearKind;

/// A rule turning instants into local calendar readings and back.
///
/// `offset_at` gives the rule's offset from UTC, in seconds, in effect at
/// an absolute instant; `accepts` says on which local readings the inverse
/// conversion succeeds.  `from_timestamp` always yields the well-formed
/// local rendering of the instant; `to_timestamp` succeeds exactly on the
/// accepted readings, and then yields an instant whose local rendering is
/// the given one.
pub trait TimeZone: Sized {
    /// Seconds ahead of UTC that this zone's clocks show at instant `t`.
    spec fn offset_at(&self, t: int) -> int;

    /// Whether `to_timestamp` succeeds on this local reading.
    spec fn accepts(&self, d: NaiveDateTime) -> bool;

    /// Every zone's offset is bounded by what an `i32` second count holds.
    proof fn offset_in_bounds(&self, t: int)
        ensures
            -model::OFFSET_BOUND <= self.offset_at(t) <= model::OFFSET_BOUND,
    ;

    fn from_timestamp(&self, t: UnixTimestamp) -> (d: NaiveDateTime)
        requires
            model::timestamp_in_range(t.0 as int),
        ensures
            d.wf(),
            model::timestamp_of(d) == t.0 + self.offset_at(t.0 as int),
    ;

    fn to_timestamp(&self, d: &NaiveDateTime) -> (r: Result<
        UnixTimestamp,
        LocalTimeConversionError,
    >)
        requires
            d.wf(),
            model::timestamp_in_range(model::timestamp_of(*d)),
        ensures
            r is Ok <==> self.accepts(*d),
            r matches Ok(t) ==> t.0 == model::timestamp_of(*d) - self.offset_at(t.0 as int),
    ;
}

/// When a time zone makes clocks jump forward or back at any instant in
/// time (for example twice a year with daylight-saving time, a.k.a.
/// summer-time period) this error is returned when either:
///
/// * Clocks went back and this local time occurred at multiple instants in
///   time, making its interpretation or conversion ambiguous.
///
/// * Clocks jumped forward and this local time did not occur. It does not
///   represent any real instant in time.
#[derive(Debug, Eq, PartialEq)]
pub struct LocalTimeConversionError {
    /// Make the type opaque to allow for future extensions
    _private: (),
}

/// Implemented for time zones where `LocalTimeConversionError` never
/// occurs, namely for `Utc` and `FixedOffsetFromUtc`.
///
/// Any UTC-offset change in a time zone creates local times that either
/// don't occur or occur twice; a zone with this capability keeps one
/// constant offset and accepts every well-formed local reading.
pub trait UnambiguousTimeZone: TimeZone {
    /// The zone accepts every well-formed local reading.
    proof fn never_ambiguous(&self, d: NaiveDateTime)
        requires
            d.wf(),
        ensures
            self.accepts(d),
    ;

    /// The zone's offset does not depend on the instant.
    proof fn constant_offset(&self, t1: int, t2: int)
        ensures
            self.offset_at(t1) == self.offset_at(t2),
    ;

    fn to_unambiguous_timestamp(&self, d: &NaiveDateTime) -> (t: UnixTimestamp)
        requires
            d.wf(),
            model::timestamp_in_range(model::timestamp_of(*d)),
        ensures
            t.0 == model::timestamp_of(*d) - self.offset_at(t.0 as int),
    {
        proof {
            self.never_ambiguous(*d);
        }
        self.to_timestamp(d).unwrap()
    }
}

/// The *Coordinated Universal Time* time zone.
#[derive(Debug, Eq, PartialEq, Copy, Clone, Default, Structural)]
pub struct Utc;

impl UnambiguousTimeZone for Utc {
    proof fn never_ambiguous(&self, d: NaiveDateTime) {
    }

    proof fn constant_offset(&self, t1: int, t2: int) {
    }
}

impl TimeZone for Utc {
    open spec fn offset_at(&self, t: int) -> int {
        0
    }

    open spec fn accepts(&self, d: NaiveDateTime) -> bool {
        true
    }

    proof fn offset_in_bounds(&self, t: int) {
    }

    fn from_timestamp(&self, u: UnixTimestamp) -> (d: NaiveDateTime) {
        naive_from_seconds(u.0)
    }

    fn to_timestamp(&self, d: &NaiveDateTime) -> (r: Result<
        UnixTimestamp,
        LocalTimeConversionError,
    >) {
        Ok(
            UnixTimestamp(
                days_since_unix(d) * model::SECONDS_PER_DAY + (d.hour as i64)
                    * model::SECONDS_PER_HOUR + (d.minute as i64) * model::SECONDS_PER_MINUTE + (
                d.second as i64),
            ),
        )
    }
}

/// The offset is typically positive east of Greenwich (longitude 0°),
/// negative west. For example, Japan Standard Time is UTC+09:00.
#[derive(Debug, Eq, PartialEq, Copy, Clone, Default, Structural)]
pub struct FixedOffsetFromUtc {
    seconds_ahead_of_utc: i32,
}

impl FixedOffsetFromUtc {
    /// The stored offset, in seconds ahead of UTC.
    pub closed spec fn seconds_ahead(&self) -> int {
        self.seconds_ahead_of_utc as int
    }

    pub fn from_hours_and_minutes(hours: i32, minutes: i32) -> (r: Self)
        requires
            i32::MIN <= (hours * 60 + minutes) * 60 <= i32::MAX,
        ensures
            r.seconds_ahead() == (hours * 60 + minutes) * 60,
    {
        let seconds: i64 = (hours as i64 * 60 + minutes as i64) * 60;
        FixedOffsetFromUtc { seconds_ahead_of_utc: seconds as i32 }
    }
}

impl UnambiguousTimeZone for FixedOffsetFromUtc {
    proof fn never_ambiguous(&self, d: NaiveDateTime) {
    }

    proof fn constant_offset(&self, t1: int, t2: int) {
    }
}

impl TimeZone for FixedOffsetFromUtc {
    open spec fn offset_at(&self, t: int) -> int {
        self.seconds_ahead()
    }

    open spec fn accepts(&self, d: NaiveDateTime) -> bool {
        true
    }

    proof fn offset_in_bounds(&self, t: int) {
    }

    fn from_timestamp(&self, u: UnixTimestamp) -> (d: NaiveDateTime) {
        // When local time is ahead of UTC (positive offset) that instant
        // happened before midnight UTC, so there are more seconds since
        // then: add the offset rather than subtract it.  The shifted value
        // is not really a Unix timestamp, but rendering it as if it were
        // UTC gives the local reading in this zone.
        let seconds: i64 = u.0 + self.seconds_ahead_of_utc as i64;
        naive_from_seconds(seconds)
    }

    fn to_timestamp(&self, d: &NaiveDateTime) -> (r: Result<
        UnixTimestamp,
        LocalTimeConversionError,
    >) {
        // Pretend this is UTC to obtain seconds since *this time zone*'s
        // midnight of 1970-01-01, then subtract the offset to make it a
        // Unix timestamp.
        let seconds: i64 = Utc.to_unambiguous_timestamp(d).0;
        Ok(UnixTimestamp(seconds - self.seconds_ahead_of_utc as i64))
    }
}

/// A daylight-saving rule: two fixed offsets, and a predicate saying at
/// which instants the during-DST offset is in effect.
pub trait DaylightSaving: Sized {
    /// Seconds ahead of UTC outside the daylight-saving period.
    spec fn outside_offset(&self) -> int;

    /// Seconds ahead of UTC during the daylight-saving period.
    spec fn during_offset(&self) -> int;

    /// Whether the daylight-saving period covers instant `t`.
    spec fn in_dst(&self, t: int) -> bool;

    /// Both offsets fit the `i32` second count a fixed offset stores.
    proof fn offsets_in_bounds(&self)
        ensures
            -model::OFFSET_BOUND <= self.outside_offset() <= model::OFFSET_BOUND,
            -model::OFFSET_BOUND <= self.during_offset() <= model::OFFSET_BOUND,
    ;

    fn offset_outside_dst(&self) -> (r: FixedOffsetFromUtc)
        ensures
            r.seconds_ahead() == self.outside_offset(),
    ;

    fn offset_during_dst(&self) -> (r: FixedOffsetFromUtc)
        ensures
            r.seconds_ahead() == self.during_offset(),
    ;

    fn is_in_dst(&self, t: UnixTimestamp) -> (r: bool)
        requires
            model::representable_seconds(t.0 as int),
        ensures
            r == self.in_dst(t.0 as int),
    ;
}

/// The offset a daylight-saving rule applies at instant `t`.
pub open spec fn dst_offset_at<Tz: DaylightSaving>(tz: &Tz, t: int) -> int {
    if tz.in_dst(t) {
        tz.during_offset()
    } else {
        tz.outside_offset()
    }
}

/// Whether a local reading names exactly one instant under a
/// daylight-saving rule: reading it under either offset must land on the
/// same side of the rule's transitions.  When the two interpretations
/// disagree, the reading falls in a transition window and was either
/// skipped or repeated.
pub open spec fn dst_accepts<Tz: DaylightSaving>(tz: &Tz, d: NaiveDateTime) -> bool {
    tz.in_dst(model::timestamp_of(d) - tz.outside_offset()) == tz.in_dst(
        model::timestamp_of(d) - tz.during_offset(),
    )
}

/// Rendering an instant under a daylight-saving rule: pick the offset in
/// effect at that instant, then shift as a fixed-offset zone does.
pub fn daylight_saving_from_timestamp<Tz: DaylightSaving>(tz: &Tz, t: UnixTimestamp) -> (d:
    NaiveDateTime)
    requires
        model::timestamp_in_range(t.0 as int),
    ensures
        d.wf(),
        model::timestamp_of(d) == t.0 + dst_offset_at(tz, t.0 as int),
{
    proof {
        tz.offsets_in_bounds();
    }
    let offset: FixedOffsetFromUtc = if tz.is_in_dst(t) {
        tz.offset_during_dst()
    } else {
        tz.offset_outside_dst()
    };
    offset.from_timestamp(t)
}

/// Reading a local time under a daylight-saving rule.  The actual instant
/// is one of two candidates, one per offset; the rule's predicate at each
/// candidate decides.  If both agree the matching candidate is returned;
/// if they disagree, the local time lies in a transition window — it was
/// either skipped or occurred twice — and the conversion fails.
pub fn daylight_saving_to_timestamp<Tz: DaylightSaving>(tz: &Tz, d: &NaiveDateTime) -> (r: Result<
    UnixTimestamp,
    LocalTimeConversionError,
>)
    requires
        d.wf(),
        model::timestamp_in_range(model::timestamp_of(*d)),
    ensures
        r is Ok <==> dst_accepts(tz, *d),
        r matches Ok(t) ==> t.0 == model::timestamp_of(*d) - dst_offset_at(tz, t.0 as int),
{
    proof {
        tz.offsets_in_bounds();
    }
    let assuming_outside: UnixTimestamp = tz.offset_outside_dst().to_unambiguous_timestamp(d);
    let assuming_during: UnixTimestamp = tz.offset_during_dst().to_unambiguous_timestamp(d);
    match (tz.is_in_dst(assuming_outside), tz.is_in_dst(assuming_during)) {
        (true, true) => Ok(assuming_during),
        (false, false) => Ok(assuming_outside),
        _ => Err(LocalTimeConversionError { _private: () }),
    }
}

/// Leap days between January of year 0 and January of the given year, for
/// the slightly widened year range the year-estimate correction visits.
fn leap_days_wide(year: i64) -> (r: i64)
    requires
        -2147483650 <= year <= 2147483650,
    ensures
        r == model::leap_days_before(year as int),
{
    proof {
        model::lemma_leap_days_bounds(year as int);
    }
    if year > 0 {
        let z: i64 = year - 1;
        z / 4 - z / 100 + z / 400 + 1
    } else {
        let n: i64 = -year;
        -(n / 4 - n / 100 + n / 400)
    }
}

/// Days between January 1st of year 0 and January 1st of the given year.
fn days_since_d0(year: i64) -> (r: i64)
    requires
        -2147483650 <= year <= 2147483650,
    ensures
        r == model::days_from_year_zero(year as int),
{
    proof {
        model::lemma_leap_days_bounds(year as int);
    }
    year * model::DAYS_PER_COMMON_YEAR + leap_days_wide(year)
}

/// How many leap days occurred between January of year 0 and January of
/// the given year (in Gregorian calendar).
pub fn leap_days_since_y0(year: i32) -> (r: i32)
    ensures
        r == model::leap_days_before(year as int),
{
    proof {
        model::lemma_leap_days_bounds(year as int);
    }
    leap_days_wide(year as i64) as i32
}

/// Signed day count of a date relative to the Unix epoch: 1970-01-01 is
/// day 0, 1970-01-02 is day 1, 1969-12-31 is day -1.
pub fn days_since_unix(d: &NaiveDateTime) -> (r: i64)
    ensures
        r == model::days_since_unix_of(*d),
        -800000000000 <= r <= 800000000000,
{
    proof {
        model::lemma_leap_days_bounds(d.year as int);
    }
    (d.year as i64 - 1970) * model::DAYS_PER_COMMON_YEAR + leap_days_wide(d.year as i64)
        - leap_days_since_y0(1970) as i64
        + d.month.days_since_january_1st(YearKind::classify(d.year)) as i64 + (d.day as i64 - 1)
}

/// The year containing absolute day `d_abs` (counted from January 1 of
/// year 0), and the 0-based offset of that day within the year.
///
/// The year is first estimated from the 400-year cycle of 146097 days and
/// then corrected by at most one year in either direction.
fn year_and_day_of_year(d_abs: i64) -> (r: (i32, i32))
    requires
        model::FIRST_REPRESENTABLE_DAY <= d_abs < model::FIRST_UNREPRESENTABLE_DAY,
    ensures
        ({
            let (y, doy) = r;
            &&& model::days_from_year_zero(y as int) + doy == d_abs
            &&& 0 <= doy < model::days_in_year(y as int)
        }),
{
    proof {
        model::lemma_representable_day_constants();
        model::lemma_year_estimate(d_abs as int);
    }
    let y_est: i64 = num::div_floor(d_abs * 400, model::DAYS_PER_400YEARS);
    proof {
        // The estimate cannot leave the widened year range: day counts
        // grow with the year.
        if y_est - 1 >= 2147483648 {
            model::lemma_days_monotone(2147483648, y_est as int - 1);
        }
        if y_est + 2 <= -2147483648 {
            model::lemma_days_monotone(y_est as int + 2, -2147483648);
        }
    }
    let below: i64 = days_since_d0(y_est);
    let year: i64 = if d_abs < below {
        y_est - 1
    } else {
        let next: i64 = days_since_d0(y_est + 1);
        if d_abs >= next {
            y_est + 1
        } else {
            y_est
        }
    };
    proof {
        model::lemma_days_step(year as int);
        // The chosen year contains the day, so it lies in the `i32` range.
        if year >= 2147483648 {
            model::lemma_days_monotone(2147483648, year as int);
            assert(false);
        }
        if year < -2147483648 {
            model::lemma_days_monotone(year as int + 1, -2147483648);
            assert(false);
        }
    }
    let doy: i64 = d_abs - days_since_d0(year);
    (year as i32, doy as i32)
}

/// The day of the month on which the last weekday `w` (ISO number) of
/// month `m` of year `y` falls: the month's final day, stepped back by the
/// weekday difference modulo 7.
pub open spec fn last_dow_in_month(y: int, m: Month, w: int) -> int {
    let leap = model::is_leap_year(y);
    let len = model::month_length(m, leap);
    let last_day_dow = model::iso_day_of_week(
        model::days_from_year_zero(y) - model::DAYS_FROM_YEAR_ZERO_TO_EPOCH
            + model::month_days_before(m, leap) + len - 1,
    );
    len - (last_day_dow - w) % 7
}

/// What `last_dow_in_month` names really is the last such weekday: the
/// day it picks falls in the month's final week, and the day of the week
/// it falls on is the requested one.
pub proof fn lemma_last_dow_in_month(y: int, m: Month, w: int)
    requires
        1 <= w <= 7,
    ensures
        ({
            let leap = model::is_leap_year(y);
            let ls = last_dow_in_month(y, m, w);
            let len = model::month_length(m, leap);
            &&& len - 7 < ls <= len
            &&& model::iso_day_of_week(
                model::days_from_year_zero(y) - model::DAYS_FROM_YEAR_ZERO_TO_EPOCH
                    + model::month_days_before(m, leap) + ls - 1,
            ) == w
        }),
{
    let leap = model::is_leap_year(y);
    let len = model::month_length(m, leap);
    let base = model::days_from_year_zero(y) - model::DAYS_FROM_YEAR_ZERO_TO_EPOCH
        + model::month_days_before(m, leap);
    let x = base + len - 1 + 3;
    let q = x / 7;
    let r = x % 7;
    vstd::arithmetic::div_mod::lemma_fundamental_div_mod(x, 7);
    vstd::arithmetic::div_mod::lemma_mod_bound(x, 7);
    // The weekday of the month's final day is r + 1, so the distance
    // stepped back is (r + 1 - w) mod 7.
    if r + 1 - w >= 0 {
        vstd::arithmetic::div_mod::lemma_fundamental_div_mod_converse(r + 1 - w, 7, 0, r + 1 - w);
        vstd::arithmetic::div_mod::lemma_fundamental_div_mod_converse(
            x - (r + 1 - w),
            7,
            q,
            w - 1,
        );
    } else {
        vstd::arithmetic::div_mod::lemma_fundamental_div_mod_converse(r + 1 - w, 7, -1, r + 8 - w);
        vstd::arithmetic::div_mod::lemma_fundamental_div_mod_converse(
            x - (r + 8 - w),
            7,
            q - 1,
            w - 1,
        );
    }
}

/// The instant, in seconds since the epoch, of 01:00 UTC on the last
/// Sunday of month `m` of year `y`.
pub open spec fn cet_transition(y: int, m: Month) -> int {
    let leap = model::is_leap_year(y);
    (model::days_from_year_zero(y) - model::DAYS_FROM_YEAR_ZERO_TO_EPOCH
        + model::month_days_before(m, leap) + last_dow_in_month(y, m, 7) - 1) * 86400 + 3600
}

/// The Central-European summer-time period, as fixed by Directive
/// 2000/84/EC: from 01:00 UTC on the last Sunday in March to 01:00 UTC on
/// the last Sunday in October.
pub open spec fn cet_in_dst(t: int) -> bool {
    let y = model::year_of_timestamp(t);
    cet_transition(y, Month::March) <= t < cet_transition(y, Month::October)
}

/// Whether a UTC reading lies before 01:00 of the last Sunday of its own
/// month.
spec fn spec_before_last_sunday_1_am(d: NaiveDateTime) -> bool {
    let ls = last_dow_in_month(d.year as int, d.month, 7);
    d.day < ls || (d.day == ls && d.hour < 1)
}

/// The calendar rendering, in UTC, of second `s` since the Unix epoch.
fn naive_from_seconds(s: i64) -> (d: NaiveDateTime)
    requires
        model::representable_seconds(s as int),
    ensures
        d.wf(),
        model::timestamp_of(d) == s,
{
    proof {
        lemma_div_is_ordered(model::MIN_REPRESENTABLE_SECONDS as int, s as int, 86400);
        lemma_div_is_ordered(s as int, model::MAX_REPRESENTABLE_SECONDS as int, 86400);
    }
    let days_unix: i64 = num::div_floor(s, model::SECONDS_PER_DAY);
    let d_abs: i64 = days_unix + model::DAYS_FROM_YEAR_ZERO_TO_EPOCH;
    let (year, day_of_the_year) = year_and_day_of_year(d_abs);
    let year_kind: YearKind = YearKind::classify(year);
    let (month, day) = Month::from_day_of_the_year(day_of_the_year, year_kind);
    let hour: u8 = num::positive_rem(num::div_floor(s, model::SECONDS_PER_HOUR), 24) as u8;
    let minute: u8 = num::positive_rem(num::div_floor(s, model::SECONDS_PER_MINUTE), 60) as u8;
    let second: u8 = num::positive_rem(s, model::SECONDS_PER_MINUTE) as u8;
    proof {
        model::lemma_time_decomposition(s as int);
    }
    NaiveDateTime { year, month, day, hour, minute, second }
}

/// The day of the month of the last `requested_dow` in `d`'s month.
fn last_of_the_month(d: &DateTime<Utc>, requested_dow: DayOfTheWeek) -> (r: u8)
    ensures
        r == last_dow_in_month(
            d.naive.year as int,
            d.naive.month,
            model::iso_number_of(requested_dow),
        ),
{
    let last_day: u8 = d.month().length(YearKind::classify(d.year()));
    let last_dow: DayOfTheWeek = NaiveDateTime::new(
        d.year(),
        d.month(),
        last_day,
        0,
        0,
        0,
    ).day_of_the_week();
    let difference: i64 = last_dow.to_iso_number() as i64 - requested_dow.to_iso_number() as i64;
    last_day - num::positive_rem(difference, 7) as u8
}

/// Whether `d`, read in UTC, lies before 01:00 on the last Sunday of its
/// own month.
fn before_last_sunday_1_am(d: &DateTime<Utc>) -> (r: bool)
    ensures
        r == spec_before_last_sunday_1_am(d.naive),
{
    let last_sunday: u8 = last_of_the_month(d, DayOfTheWeek::Sunday);
    d.day() < last_sunday || (d.day() == last_sunday && d.hour() < 1)
}

/// CET (Central European Time) / CEST (Central European Summer Time).
#[derive(Debug, Eq, PartialEq, Copy, Clone, Default, Structural)]
pub struct CentralEurope;

impl DaylightSaving for CentralEurope {
    open spec fn outside_offset(&self) -> int {
        3600
    }

    open spec fn during_offset(&self) -> int {
        7200
    }

    open spec fn in_dst(&self, t: int) -> bool {
        cet_in_dst(t)
    }

    proof fn offsets_in_bounds(&self) {
    }

    fn offset_outside_dst(&self) -> (r: FixedOffsetFromUtc) {
        FixedOffsetFromUtc::from_hours_and_minutes(1, 0)
    }

    fn offset_during_dst(&self) -> (r: FixedOffsetFromUtc) {
        FixedOffsetFromUtc::from_hours_and_minutes(2, 0)
    }

    // Directive 2000/84/EC of the European Parliament and of the Council
    // of 19 January 2001 on summer-time arrangements:
    //
    // > Article 2
    // >
    // > From 2002 onwards, the summer-time period shall begin, in every
    // > Member State, at 1.00 a.m., Greenwich Mean Time, on the last
    // > Sunday in March.
    // >
    // > Article 3
    // >
    // > From 2002 onwards, the summer-time period shall end, in every
    // > Member State, at 1.00 a.m., Greenwich Mean Time, on the last
    // > Sunday in October.
    #[verifier::rlimit(50)]
    fn is_in_dst(&self, t: UnixTimestamp) -> (r: bool) {
        let d: DateTime<Utc> = DateTime { naive: naive_from_seconds(t.0), time_zone: Utc };
        proof {
            model::lemma_year_of_timestamp_of(d.naive);
            model::lemma_seconds_of_day_bounds(d.naive);
        }
        let n: u8 = d.month().to_number();
        if n < 3 || n > 10 {
            false
        } else if n > 3 && n < 10 {
            true
        } else if n == 3 {
            !before_last_sunday_1_am(&d)
        } else {
            before_last_sunday_1_am(&d)
        }
    }
}

impl TimeZone for CentralEurope {
    open spec fn offset_at(&self, t: int) -> int {
        dst_offset_at(self, t)
    }

    open spec fn accepts(&self, d: NaiveDateTime) -> bool {
        dst_accepts(self, d)
    }

    proof fn offset_in_bounds(&self, t: int) {
    }

    fn from_timestamp(&self, t: UnixTimestamp) -> (d: NaiveDateTime) {
        daylight_saving_from_timestamp(self, t)
    }

    fn to_timestamp(&self, d: &NaiveDateTime) -> (r: Result<
        UnixTimestamp,
        LocalTimeConversionError,
    >) {
        daylight_saving_to_timestamp(self, d)
    }
}

/// Round-trip law for unambiguous time zones, timestamp side: render an
/// instant `t` as a local reading `d` and convert `d` back, and the
/// instant `t2` so obtained is `t` again.  The hypotheses are exactly
/// what `from_timestamp` ensures of `d` and what `to_timestamp` then
/// ensures of `t2`; a constant offset forces the two instants together.
pub proof fn lemma_round_trip<Tz: UnambiguousTimeZone>(tz: &Tz, t: int, d: NaiveDateTime, t2: int)
    requires
        model::timestamp_of(d) == t + tz.offset_at(t),
        t2 == model::timestamp_of(d) - tz.offset_at(t2),
    ensures
        t2 == t,
{
    tz.constant_offset(t, t2);
}

/// Round-trip law, reading side, for every time zone: convert a
/// well-formed local reading `d` to an instant `t` and render `t` again,
/// and the rendering `d2` is `d` itself.  The hypotheses are what
/// `to_timestamp` ensures of a returned `Ok(t)` and what `from_timestamp`
/// then ensures of `d2`; the calendar encoding being injective does the
/// rest.
pub proof fn lemma_to_from_round_trip<Tz: TimeZone>(
    tz: &Tz,
    d: NaiveDateTime,
    t: int,
    d2: NaiveDateTime,
)
    requires
        d.wf(),
        d2.wf(),
        t == model::timestamp_of(d) - tz.offset_at(t),
        model::timestamp_of(d2) == t + tz.offset_at(t),
    ensures
        d2 == d,
{
    model::lemma_timestamp_of_injective(d, d2);
}

/// The Central-European rule skips the local hour from 02:00 to 03:00
/// when clocks go forward on the last Sunday of March: a local reading
/// inside that hour names no instant, and conversion rejects it.
pub proof fn lemma_cet_skipped_hour_rejected(d: NaiveDateTime)
    requires
        d.wf(),
        d.month == Month::March,
        d.day == last_dow_in_month(d.year as int, Month::March, 7),
        d.hour == 2,
    ensures
        !dst_accepts(&CentralEurope, d),
{
    let y = d.year as int;
    let s = model::timestamp_of(d);
    let k = model::days_from_year_zero(y) + model::day_of_year_of(d);
    model::lemma_day_of_year_bounds(d);
    model::lemma_days_step(y);
    model::lemma_year_of_seconds_in_day(y, k, s - 3600);
    model::lemma_year_of_seconds_in_day(y, k, s - 7200);
}

/// The Central-European rule repeats the local hour from 02:00 to 03:00
/// when clocks go back on the last Sunday of October: a local reading
/// inside that hour names two instants, and conversion rejects it.
pub proof fn lemma_cet_repeated_hour_rejected(d: NaiveDateTime)
    requires
        d.wf(),
        d.month == Month::October,
        d.day == last_dow_in_month(d.year as int, Month::October, 7),
        d.hour == 2,
    ensures
        !dst_accepts(&CentralEurope, d),
{
    let y = d.year as int;
    let s = model::timestamp_of(d);
    let k = model::days_from_year_zero(y) + model::day_of_year_of(d);
    model::lemma_day_of_year_bounds(d);
    model::lemma_days_step(y);
    model::lemma_year_of_seconds_in_day(y, k, s - 3600);
    model::lemma_year_of_seconds_in_day(y, k, s - 7200);
}

/// A local reading from April through September lies well inside the
/// Central-European summer-time period under either offset, so its
/// conversion succeeds.
pub proof fn lemma_cet_summer_accepted(d: NaiveDateTime)
    requires
        d.wf(),
        4 <= model::month_number(d.month) <= 9,
    ensures
        dst_accepts(&CentralEurope, d),
{
    let y = d.year as int;
    let s = model::timestamp_of(d);
    let k = model::days_from_year_zero(y) + model::day_of_year_of(d);
    model::lemma_day_of_year_bounds(d);
    model::lemma_days_step(y);
    model::lemma_seconds_of_day_bounds(d);
    if model::seconds_of_day(d) >= 7200 {
        model::lemma_year_of_seconds_in_day(y, k, s - 3600);
        model::lemma_year_of_seconds_in_day(y, k, s - 7200);
    } else if model::seconds_of_day(d) >= 3600 {
        model::lemma_year_of_seconds_in_day(y, k, s - 3600);
        model::lemma_year_of_seconds_in_day(y, k - 1, s - 7200);
    } else {
        model::lemma_year_of_seconds_in_day(y, k - 1, s - 3600);
        model::lemma_year_of_seconds_in_day(y, k - 1, s - 7200);
    }
}

/// A local reading in November or December lies after the year's
/// summer-time period under either offset, so its conversion succeeds.
pub proof fn lemma_cet_late_year_accepted(d: NaiveDateTime)
    requires
        d.wf(),
        11 <= model::month_number(d.month),
    ensures
        dst_accepts(&CentralEurope, d),
{
    let y = d.year as int;
    let s = model::timestamp_of(d);
    let k = model::days_from_year_zero(y) + model::day_of_year_of(d);
    model::lemma_day_of_year_bounds(d);
    model::lemma_days_step(y);
    model::lemma_seconds_of_day_bounds(d);
    if model::seconds_of_day(d) >= 7200 {
        model::lemma_year_of_seconds_in_day(y, k, s - 3600);
        model::lemma_year_of_seconds_in_day(y, k, s - 7200);
    } else if model::seconds_of_day(d) >= 3600 {
        model::lemma_year_of_seconds_in_day(y, k, s - 3600);
        model::lemma_year_of_seconds_in_day(y, k - 1, s - 7200);
    } else {
        model::lemma_year_of_seconds_in_day(y, k - 1, s - 3600);
        model::lemma_year_of_seconds_in_day(y, k - 1, s - 7200);
    }
}

/// A local reading in January or February lies before the year's
/// summer-time period under either offset, so its conversion succeeds.
/// In the first two hours of January 1 the shifted instants belong to
/// the previous year, after that year's summer time ended.
pub proof fn lemma_cet_early_year_accepted(d: NaiveDateTime)
    requires
        d.wf(),
        model::month_number(d.month) <= 2,
    ensures
        dst_accepts(&CentralEurope, d),
{
    let y = d.year as int;
    let s = model::timestamp_of(d);
    let k = model::days_from_year_zero(y) + model::day_of_year_of(d);
    model::lemma_day_of_year_bounds(d);
    model::lemma_days_step(y);
    model::lemma_days_step(y - 1);
    model::lemma_seconds_of_day_bounds(d);
    if model::seconds_of_day(d) >= 7200 || model::day_of_year_of(d) >= 1 {
        if model::seconds_of_day(d) >= 7200 {
            model::lemma_year_of_seconds_in_day(y, k, s - 3600);
            model::lemma_year_of_seconds_in_day(y, k, s - 7200);
        } else if model::seconds_of_day(d) >= 3600 {
            model::lemma_year_of_seconds_in_day(y, k, s - 3600);
            model::lemma_year_of_seconds_in_day(y, k - 1, s - 7200);
        } else {
            model::lemma_year_of_seconds_in_day(y, k - 1, s - 3600);
            model::lemma_year_of_seconds_in_day(y, k - 1, s - 7200);
        }
    } else {
        // The first two hours of January 1: a shifted instant may belong
        // to December 31 of the previous year, which follows that year's
        // last Sunday of October.
        if model::seconds_of_day(d) >= 3600 {
            model::lemma_year_of_seconds_in_day(y, k, s - 3600);
            model::lemma_year_of_seconds_in_day(y - 1, k - 1, s - 7200);
        } else {
            model::lemma_year_of_seconds_in_day(y - 1, k - 1, s - 3600);
            model::lemma_year_of_seconds_in_day(y - 1, k - 1, s - 7200);
        }
    }
}

} // verus!
