//! The calendar tables and day counting: leap years, month lengths and
//! offsets, day counts from the epoch, and days of the week.

use gregor::num::div_floor;
use gregor::num::positive_rem;
use gregor::time_zones::days_since_unix;
use gregor::time_zones::leap_days_since_y0;
use gregor::DayOfTheWeek;
use gregor::Month;
use gregor::NaiveDateTime;
use gregor::YearKind;

#[test]
fn leap_year() {
    assert_eq!(YearKind::from(2010), YearKind::Common);
    assert_eq!(YearKind::from(2011), YearKind::Common);
    assert_eq!(YearKind::from(2012), YearKind::Leap);
    assert_eq!(YearKind::from(2013), YearKind::Common);
    assert_eq!(YearKind::from(2014), YearKind::Common);
    assert_eq!(YearKind::from(2015), YearKind::Common);
    assert_eq!(YearKind::from(2016), YearKind::Leap);
    assert_eq!(YearKind::from(2017), YearKind::Common);
    assert_eq!(YearKind::from(2018), YearKind::Common);

    assert_eq!(YearKind::from(1900), YearKind::Common);
    assert_eq!(YearKind::from(2100), YearKind::Common);

    assert_eq!(YearKind::from(1600), YearKind::Leap);
    assert_eq!(YearKind::from(2000), YearKind::Leap);
    assert_eq!(YearKind::from(2400), YearKind::Leap);
}

#[test]
fn classify_proleptic() {
    assert_eq!(YearKind::classify(0), YearKind::Leap);
    assert_eq!(YearKind::classify(-1), YearKind::Common);
    assert_eq!(YearKind::classify(-4), YearKind::Leap);
    assert_eq!(YearKind::classify(-100), YearKind::Common);
    assert_eq!(YearKind::classify(-400), YearKind::Leap);
}

#[test]
fn days_since_january_1st() {
    assert_eq!(Month::January.days_since_january_1st(YearKind::Common), 0);
    assert_eq!(Month::February.days_since_january_1st(YearKind::Common), 31);
    assert_eq!(Month::March.days_since_january_1st(YearKind::Common), 59);
    assert_eq!(Month::April.days_since_january_1st(YearKind::Common), 90);
    assert_eq!(Month::May.days_since_january_1st(YearKind::Common), 120);
    assert_eq!(Month::June.days_since_january_1st(YearKind::Common), 151);
    assert_eq!(Month::July.days_since_january_1st(YearKind::Common), 181);
    assert_eq!(Month::August.days_since_january_1st(YearKind::Common), 212);
    assert_eq!(Month::September.days_since_january_1st(YearKind::Common), 243);
    assert_eq!(Month::October.days_since_january_1st(YearKind::Common), 273);
    assert_eq!(Month::November.days_since_january_1st(YearKind::Common), 304);
    assert_eq!(Month::December.days_since_january_1st(YearKind::Common), 334);

    assert_eq!(Month::January.days_since_january_1st(YearKind::Leap), 0);
    assert_eq!(Month::February.days_since_january_1st(YearKind::Leap), 31);
    assert_eq!(Month::March.days_since_january_1st(YearKind::Leap), 60);
    assert_eq!(Month::April.days_since_january_1st(YearKind::Leap), 91);
    assert_eq!(Month::May.days_since_january_1st(YearKind::Leap), 121);
    assert_eq!(Month::June.days_since_january_1st(YearKind::Leap), 152);
    assert_eq!(Month::July.days_since_january_1st(YearKind::Leap), 182);
    assert_eq!(Month::August.days_since_january_1st(YearKind::Leap), 213);
    assert_eq!(Month::September.days_since_january_1st(YearKind::Leap), 244);
    assert_eq!(Month::October.days_since_january_1st(YearKind::Leap), 274);
    assert_eq!(Month::November.days_since_january_1st(YearKind::Leap), 305);
    assert_eq!(Month::December.days_since_january_1st(YearKind::Leap), 335);
}

#[test]
fn month_lengths() {
    assert_eq!(Month::February.length(YearKind::Common), 28);
    assert_eq!(Month::February.length(YearKind::Leap), 29);
    assert_eq!(Month::January.length(YearKind::Common), 31);
    assert_eq!(Month::April.length(YearKind::Leap), 30);
    assert_eq!(Month::December.length(YearKind::Common), 31);
}

#[test]
fn floor_division() {
    assert_eq!(div_floor(7, 2), 3);
    assert_eq!(div_floor(-7, 2), -4);
    assert_eq!(div_floor(-8, 2), -4);
    assert_eq!(div_floor(0, 86400), 0);
    assert_eq!(div_floor(-1, 86400), -1);
    assert_eq!(positive_rem(7, 3), 1);
    assert_eq!(positive_rem(-7, 3), 2);
    assert_eq!(positive_rem(-9, 3), 0);
    assert_eq!(positive_rem(-1, 86400), 86399);
}

#[test]
fn counting_leap_days() {
    assert_eq!(leap_days_since_y0(1970), 478);
    assert_eq!(leap_days_since_y0(1971), 478);
    assert_eq!(leap_days_since_y0(1972), 478);
    assert_eq!(leap_days_since_y0(1973), 479);
}

#[test]
fn unixy_days() {
    assert_eq!(
        days_since_unix(&NaiveDateTime::new(1969, Month::December, 31, 0, 0, 0)),
        -1
    );
    assert_eq!(
        days_since_unix(&NaiveDateTime::new(1970, Month::January, 1, 0, 0, 0)),
        0
    );
    assert_eq!(
        days_since_unix(&NaiveDateTime::new(1970, Month::January, 2, 0, 0, 0)),
        1
    );
    assert_eq!(
        days_since_unix(&NaiveDateTime::new(1970, Month::February, 1, 0, 0, 0)),
        31
    );
    assert_eq!(
        days_since_unix(&NaiveDateTime::new(1971, Month::January, 1, 0, 0, 0)),
        365
    );
    assert_eq!(
        days_since_unix(&NaiveDateTime::new(1972, Month::January, 1, 0, 0, 0)),
        365 * 2
    );
    // 1972 is a leap year.
    assert_eq!(
        days_since_unix(&NaiveDateTime::new(1973, Month::January, 1, 0, 0, 0)),
        365 * 3 + 1
    );
    assert_eq!(
        days_since_unix(&NaiveDateTime::new(2016, Month::July, 16, 0, 0, 0)),
        16998
    );
}

#[test]
fn numbers() {
    assert_eq!(Month::January.to_number(), 1);
    assert_eq!(Month::December.to_number(), 12);
    assert_eq!(Month::from_number(0), None);
    assert_eq!(Month::from_number(1), Some(Month::January));
    assert_eq!(Month::from_number(12), Some(Month::December));
    assert_eq!(Month::from_number(13), None);

    assert_eq!(DayOfTheWeek::Monday.to_iso_number(), 1);
    assert_eq!(DayOfTheWeek::Sunday.to_iso_number(), 7);
    assert_eq!(DayOfTheWeek::from_iso_number(0), None);
    assert_eq!(DayOfTheWeek::from_iso_number(1), Some(DayOfTheWeek::Monday));
    assert_eq!(DayOfTheWeek::from_iso_number(7), Some(DayOfTheWeek::Sunday));
    assert_eq!(DayOfTheWeek::from_iso_number(8), None);
}

#[test]
fn day_of_the_week() {
    assert_eq!(
        NaiveDateTime::new(2016, Month::July, 17, 0, 0, 0).day_of_the_week(),
        DayOfTheWeek::Sunday
    );
    assert_eq!(
        NaiveDateTime::new(2000, Month::January, 1, 0, 0, 0).day_of_the_week(),
        DayOfTheWeek::Saturday
    );
    assert_eq!(
        NaiveDateTime::new(1970, Month::January, 1, 0, 0, 0).day_of_the_week(),
        DayOfTheWeek::Thursday
    );
    assert_eq!(
        NaiveDateTime::new(1837, Month::May, 3, 0, 0, 0).day_of_the_week(),
        DayOfTheWeek::Wednesday
    );

    // The Julian-day epoch: 1 January 4713 BC of the proleptic Julian
    // calendar (November 24, 4714 BC in the proleptic Gregorian calendar)
    // was a Monday.
    assert_eq!(
        NaiveDateTime::new(-4713, Month::November, 24, 0, 0, 0).day_of_the_week(),
        DayOfTheWeek::Monday
    );
}
