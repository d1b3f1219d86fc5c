//! Proleptic-Gregorian calendar arithmetic: conversion between Unix
//! timestamps (seconds since 1970-01-01 00:00:00 UTC) and structured
//! calendar date-times, with time zones given as fixed UTC offsets or as
//! daylight-saving rules that can make a local time ambiguous.

use vstd::prelude::*;

pub mod model;
pub mod num;
pub mod time_zones;

pub use time_zones::CentralEurope;
pub use time_zones::DaylightSaving;
pub use time_zones::FixedOffsetFromUtc;
pub use time_zones::LocalTimeConversionError;
pub use time_zones::TimeZone;
pub use time_zones::UnambiguousTimeZone;
pub use time_zones::Utc;

verus! {

/// In seconds since 1970-01-01 00:00:00 UTC.
#[derive(Debug, Eq, PartialEq, Copy, Clone, Structural)]
pub struct UnixTimestamp(pub i64);

/// A calendar reading paired with the time zone it is read in.
#[derive(Debug, Eq, PartialEq, Copy, Clone)]
pub struct DateTime<Tz: TimeZone> {
    pub naive: NaiveDateTime,
    pub time_zone: Tz,
}

/// Two zone-qualified calendar readings that render one and the same
/// instant, each under its own zone's offset.
pub open spec fn same_instant<A: TimeZone, B: TimeZone>(
    d1: NaiveDateTime,
    z1: &A,
    d2: NaiveDateTime,
    z2: &B,
) -> bool {
    exists|t: int|
        model::timestamp_of(d1) == t + #[trigger] z1.offset_at(t) && model::timestamp_of(d2) == t
            + z2.offset_at(t)
}

/// A date and time without associated time zone information.
#[derive(Debug, Eq, PartialEq, Copy, Clone, Structural)]
pub struct NaiveDateTime {
    /// Year number per ISO 8601.
    ///
    /// For example, 2016 AC is +2016, 1 AC is +1, 1 BC is 0, 2 BC is -1, etc.
    pub year: i32,

    pub month: Month,

    /// 1st of the month is day 1
    pub day: u8,

    pub hour: u8,
    pub minute: u8,
    pub second: u8,
}

#[derive(Debug, Eq, PartialEq, Copy, Clone, Structural)]
pub enum YearKind {
    Common,
    Leap,
}

#[derive(Debug, Eq, PartialEq, Ord, PartialOrd, Copy, Clone, Structural)]
pub enum Month {
    January,
    February,
    March,
    April,
    May,
    June,
    July,
    August,
    September,
    October,
    November,
    December,
}

#[derive(Debug, Eq, PartialEq, Copy, Clone, Structural)]
pub enum DayOfTheWeek {
    Monday,
    Tuesday,
    Wednesday,
    Thursday,
    Friday,
    Saturday,
    Sunday,
}

impl NaiveDateTime {
    /// All fields within their calendar ranges: the day exists in that
    /// month of that year, and the time of day is a real clock reading.
    pub open spec fn wf(self) -> bool {
        &&& 1 <= self.day <= model::month_length(self.month, model::is_leap_year(self.year as int))
        &&& self.hour < 24
        &&& self.minute < 60
        &&& self.second < 60
    }
}

impl NaiveDateTime {
    pub fn new(year: i32, month: Month, day: u8, hour: u8, minute: u8, second: u8) -> (r: Self)
        ensures
            r == (NaiveDateTime { year, month, day, hour, minute, second }),
    {
        NaiveDateTime { year, month, day, hour, minute, second }
    }

    /// The day of the week this date falls on: the Unix epoch was a
    /// Thursday, and the week repeats every seven days in both directions.
    pub fn day_of_the_week(&self) -> (r: DayOfTheWeek)
        ensures
            model::iso_number_of(r) == model::iso_day_of_week(model::days_since_unix_of(*self)),
    {
        DayOfTheWeek::Thursday.add_days(time_zones::days_since_unix(self))
    }
}

impl<Tz: TimeZone> DateTime<Tz> {
    pub fn new(time_zone: Tz, year: i32, month: Month, day: u8, hour: u8, minute: u8, second: u8)
        -> (r: Self)
        ensures
            r.time_zone == time_zone,
            r.naive == (NaiveDateTime { year, month, day, hour, minute, second }),
    {
        DateTime { naive: NaiveDateTime::new(year, month, day, hour, minute, second), time_zone }
    }

    pub fn year(&self) -> (r: i32)
        ensures
            r == self.naive.year,
    {
        self.naive.year
    }

    pub fn month(&self) -> (r: Month)
        ensures
            r == self.naive.month,
    {
        self.naive.month
    }

    pub fn day(&self) -> (r: u8)
        ensures
            r == self.naive.day,
    {
        self.naive.day
    }

    pub fn hour(&self) -> (r: u8)
        ensures
            r == self.naive.hour,
    {
        self.naive.hour
    }

    pub fn minute(&self) -> (r: u8)
        ensures
            r == self.naive.minute,
    {
        self.naive.minute
    }

    pub fn second(&self) -> (r: u8)
        ensures
            r == self.naive.second,
    {
        self.naive.second
    }

    pub fn day_of_the_week(&self) -> (r: DayOfTheWeek)
        ensures
            model::iso_number_of(r) == model::iso_day_of_week(
                model::days_since_unix_of(self.naive),
            ),
    {
        self.naive.day_of_the_week()
    }

    pub fn from_timestamp(t: UnixTimestamp, time_zone: Tz) -> (r: Self)
        requires
            model::timestamp_in_range(t.0 as int),
        ensures
            r.time_zone == time_zone,
            r.naive.wf(),
            model::timestamp_of(r.naive) == t.0 + time_zone.offset_at(t.0 as int),
    {
        let naive: NaiveDateTime = time_zone.from_timestamp(t);
        DateTime { naive, time_zone }
    }

    pub fn to_timestamp(&self) -> (r: Result<UnixTimestamp, LocalTimeConversionError>)
        requires
            self.naive.wf(),
            model::timestamp_in_range(model::timestamp_of(self.naive)),
        ensures
            r is Ok <==> self.time_zone.accepts(self.naive),
            r matches Ok(t) ==> t.0 == model::timestamp_of(self.naive) - self.time_zone.offset_at(
                t.0 as int,
            ),
    {
        self.time_zone.to_timestamp(&self.naive)
    }

    pub fn convert_time_zone<NewTz: TimeZone>(&self, new_time_zone: NewTz) -> (r: Result<
        DateTime<NewTz>,
        LocalTimeConversionError,
    >)
        requires
            self.naive.wf(),
            model::timestamp_in_range(model::timestamp_of(self.naive) - model::OFFSET_BOUND),
            model::timestamp_in_range(model::timestamp_of(self.naive) + model::OFFSET_BOUND),
        ensures
            r is Ok <==> self.time_zone.accepts(self.naive),
            r matches Ok(dt) ==> dt.time_zone == new_time_zone && dt.naive.wf() && same_instant(
                self.naive,
                &self.time_zone,
                dt.naive,
                &new_time_zone,
            ),
    {
        let t: UnixTimestamp = match self.to_timestamp() {
            Ok(t) => t,
            Err(e) => {
                return Err(e);
            },
        };
        proof {
            self.time_zone.offset_in_bounds(t.0 as int);
            new_time_zone.offset_in_bounds(t.0 as int);
        }
        let dt: DateTime<NewTz> = DateTime::from_timestamp(t, new_time_zone);
        proof {
            assert(model::timestamp_of(self.naive) == t.0 + self.time_zone.offset_at(t.0 as int));
        }
        Ok(dt)
    }
}

impl<Tz: UnambiguousTimeZone> DateTime<Tz> {
    pub fn to_unambiguous_timestamp(&self) -> (t: UnixTimestamp)
        requires
            self.naive.wf(),
            model::timestamp_in_range(model::timestamp_of(self.naive)),
        ensures
            t.0 == model::timestamp_of(self.naive) - self.time_zone.offset_at(t.0 as int),
    {
        self.time_zone.to_unambiguous_timestamp(&self.naive)
    }

    pub fn convert_unambiguous_time_zone<NewTz: TimeZone>(&self, new_time_zone: NewTz) -> (r:
        DateTime<NewTz>)
        requires
            self.naive.wf(),
            model::timestamp_in_range(model::timestamp_of(self.naive) - model::OFFSET_BOUND),
            model::timestamp_in_range(model::timestamp_of(self.naive) + model::OFFSET_BOUND),
        ensures
            r.time_zone == new_time_zone,
            r.naive.wf(),
            same_instant(self.naive, &self.time_zone, r.naive, &new_time_zone),
    {
        proof {
            self.time_zone.never_ambiguous(self.naive);
        }
        let t: UnixTimestamp = self.to_unambiguous_timestamp();
        proof {
            self.time_zone.offset_in_bounds(t.0 as int);
            new_time_zone.offset_in_bounds(t.0 as int);
        }
        let dt: DateTime<NewTz> = DateTime::from_timestamp(t, new_time_zone);
        proof {
            assert(model::timestamp_of(self.naive) == t.0 + self.time_zone.offset_at(t.0 as int));
        }
        dt
    }
}

impl YearKind {
    /// The Gregorian rule: leap years are the multiples of 4, except the
    /// multiples of 100 that are not multiples of 400; extended to year 0
    /// and negative years.
    pub fn classify(year: i32) -> (r: YearKind)
        ensures
            r == (if model::is_leap_year(year as int) {
                YearKind::Leap
            } else {
                YearKind::Common
            }),
    {
        let div4: bool = year % 4 == 0;
        let div100: bool = year % 100 == 0;
        let div400: bool = year % 400 == 0;
        proof {
            vstd::arithmetic::div_mod::lemma_mod_bound(-(year as int), 4);
            vstd::arithmetic::div_mod::lemma_mod_bound(-(year as int), 100);
            vstd::arithmetic::div_mod::lemma_mod_bound(-(year as int), 400);
            model::lemma_neg_divisible(year as int, 4);
            model::lemma_neg_divisible(year as int, 100);
            model::lemma_neg_divisible(year as int, 400);
        }
        if div4 && (!div100 || div400) {
            YearKind::Leap
        } else {
            YearKind::Common
        }
    }
}

impl vstd::std_specs::convert::FromSpecImpl<i32> for YearKind {
    open spec fn obeys_from_spec() -> bool {
        true
    }

    open spec fn from_spec(year: i32) -> YearKind {
        if model::is_leap_year(year as int) {
            YearKind::Leap
        } else {
            YearKind::Common
        }
    }
}

impl From<i32> for YearKind {
    fn from(year: i32) -> (r: YearKind) {
        YearKind::classify(year)
    }
}
impl Month {
    /// Return the month from its number, between 1 and 12.
    pub fn from_number(n: u8) -> (r: Option<Month>)
        ensures
            match r {
                Some(m) => model::month_number(m) == n,
                None => n == 0 || n > 12,
            },
    {
        match n {
            1 => Some(Month::January),
            2 => Some(Month::February),
            3 => Some(Month::March),
            4 => Some(Month::April),
            5 => Some(Month::May),
            6 => Some(Month::June),
            7 => Some(Month::July),
            8 => Some(Month::August),
            9 => Some(Month::September),
            10 => Some(Month::October),
            11 => Some(Month::November),
            12 => Some(Month::December),
            _ => None,
        }
    }

    /// Return the number of this month, between 1 and 12.
    pub fn to_number(self) -> (n: u8)
        ensures
            n == model::month_number(self),
    {
        match self {
            Month::January => 1,
            Month::February => 2,
            Month::March => 3,
            Month::April => 4,
            Month::May => 5,
            Month::June => 6,
            Month::July => 7,
            Month::August => 8,
            Month::September => 9,
            Month::October => 10,
            Month::November => 11,
            Month::December => 12,
        }
    }

    /// The number of days of this month in a year of the given kind.
    pub fn length(self, year_kind: YearKind) -> (n: u8)
        ensures
            n == model::month_length(self, year_kind is Leap),
    {
        match year_kind {
            YearKind::Common => match self {
                Month::January => 31,
                Month::February => 28,
                Month::March => 31,
                Month::April => 30,
                Month::May => 31,
                Month::June => 30,
                Month::July => 31,
                Month::August => 31,
                Month::September => 30,
                Month::October => 31,
                Month::November => 30,
                Month::December => 31,
            },
            YearKind::Leap => match self {
                Month::January => 31,
                Month::February => 29,
                Month::March => 31,
                Month::April => 30,
                Month::May => 31,
                Month::June => 30,
                Month::July => 31,
                Month::August => 31,
                Month::September => 30,
                Month::October => 31,
                Month::November => 30,
                Month::December => 31,
            },
        }
    }

    /// Days between Jan 1st and the first day of this month.
    pub fn days_since_january_1st(self, year_kind: YearKind) -> (n: i32)
        ensures
            n == model::month_days_before(self, year_kind is Leap),
    {
        match year_kind {
            YearKind::Common => match self {
                Month::January => 0,
                Month::February => 31,
                Month::March => 59,
                Month::April => 90,
                Month::May => 120,
                Month::June => 151,
                Month::July => 181,
                Month::August => 212,
                Month::September => 243,
                Month::October => 273,
                Month::November => 304,
                Month::December => 334,
            },
            YearKind::Leap => match self {
                Month::January => 0,
                Month::February => 31,
                Month::March => 60,
                Month::April => 91,
                Month::May => 121,
                Month::June => 152,
                Month::July => 182,
                Month::August => 213,
                Month::September => 244,
                Month::October => 274,
                Month::November => 305,
                Month::December => 335,
            },
        }
    }

    /// In: 0 for Jan 1st, up to 364 or 365 for Dec 31 by year kind.
    /// Out: Month and day of the month (1 for the first day).
    pub fn from_day_of_the_year(day: i32, year_kind: YearKind) -> (r: (Month, u8))
        requires
            0 <= day < if year_kind is Leap {
                366int
            } else {
                365int
            },
        ensures
            ({
                let (m, dom) = r;
                &&& model::month_days_before(m, year_kind is Leap) + dom - 1 == day
                &&& 1 <= dom <= model::month_length(m, year_kind is Leap)
            }),
    {
        match year_kind {
            YearKind::Common => {
                if day < 31 {
                    (Month::January, (day + 1) as u8)
                } else if day < 59 {
                    (Month::February, (day - 30) as u8)
                } else if day < 90 {
                    (Month::March, (day - 58) as u8)
                } else if day < 120 {
                    (Month::April, (day - 89) as u8)
                } else if day < 151 {
                    (Month::May, (day - 119) as u8)
                } else if day < 181 {
                    (Month::June, (day - 150) as u8)
                } else if day < 212 {
                    (Month::July, (day - 180) as u8)
                } else if day < 243 {
                    (Month::August, (day - 211) as u8)
                } else if day < 273 {
                    (Month::September, (day - 242) as u8)
                } else if day < 304 {
                    (Month::October, (day - 272) as u8)
                } else if day < 334 {
                    (Month::November, (day - 303) as u8)
                } else {
                    (Month::December, (day - 333) as u8)
                }
            },
            YearKind::Leap => {
                if day < 31 {
                    (Month::January, (day + 1) as u8)
                } else if day < 60 {
                    (Month::February, (day - 30) as u8)
                } else if day < 91 {
                    (Month::March, (day - 59) as u8)
                } else if day < 121 {
                    (Month::April, (day - 90) as u8)
                } else if day < 152 {
                    (Month::May, (day - 120) as u8)
                } else if day < 182 {
                    (Month::June, (day - 151) as u8)
                } else if day < 213 {
                    (Month::July, (day - 181) as u8)
                } else if day < 244 {
                    (Month::August, (day - 212) as u8)
                } else if day < 274 {
                    (Month::September, (day - 243) as u8)
                } else if day < 305 {
                    (Month::October, (day - 273) as u8)
                } else if day < 335 {
                    (Month::November, (day - 304) as u8)
                } else {
                    (Month::December, (day - 334) as u8)
                }
            },
        }
    }
}

impl DayOfTheWeek {
    /// Return the day of the week from its number, where Monday to Sunday
    /// are 1 to 7 in accordance with ISO 8601.
    pub fn from_iso_number(n: u8) -> (r: Option<DayOfTheWeek>)
        ensures
            match r {
                Some(w) => model::iso_number_of(w) == n,
                None => n == 0 || n > 7,
            },
    {
        match n {
            1 => Some(DayOfTheWeek::Monday),
            2 => Some(DayOfTheWeek::Tuesday),
            3 => Some(DayOfTheWeek::Wednesday),
            4 => Some(DayOfTheWeek::Thursday),
            5 => Some(DayOfTheWeek::Friday),
            6 => Some(DayOfTheWeek::Saturday),
            7 => Some(DayOfTheWeek::Sunday),
            _ => None,
        }
    }

    /// Return the number of this day of the week, where Monday to Sunday
    /// are 1 to 7 in accordance with ISO 8601.
    pub fn to_iso_number(self) -> (n: u8)
        ensures
            n == model::iso_number_of(self),
    {
        match self {
            DayOfTheWeek::Monday => 1,
            DayOfTheWeek::Tuesday => 2,
            DayOfTheWeek::Wednesday => 3,
            DayOfTheWeek::Thursday => 4,
            DayOfTheWeek::Friday => 5,
            DayOfTheWeek::Saturday => 6,
            DayOfTheWeek::Sunday => 7,
        }
    }

    /// What day of the week is it this many days after this day of the week?
    fn add_days(self, days: i64) -> (r: DayOfTheWeek)
        requires
            i64::MIN + 8 <= days <= i64::MAX - 7,
        ensures
            model::iso_number_of(r) == (model::iso_number_of(self) - 1 + days) % 7 + 1,
    {
        let number: i64 = self.to_iso_number() as i64 + days;
        let number: i64 = num::positive_rem(number - 1, 7) + 1;
        DayOfTheWeek::from_iso_number(number as u8).unwrap()
    }
}

} // verus!
