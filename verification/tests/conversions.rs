//! Timestamp-to-date-time conversion and back, in UTC and under fixed
//! offsets, across the epoch and the year-zero boundary.

use gregor::DateTime;
use gregor::FixedOffsetFromUtc;
use gregor::Month;
use gregor::NaiveDateTime;
use gregor::TimeZone;
use gregor::UnambiguousTimeZone;
use gregor::UnixTimestamp;
use gregor::Utc;

fn assert_conversions(seconds: i64, year: i32, month: Month, day: u8, hour: u8, minute: u8, second: u8) {
    let timestamp = UnixTimestamp(seconds);
    let datetime = DateTime::new(Utc, year, month, day, hour, minute, second);
    assert_eq!(DateTime::from_timestamp(timestamp, Utc), datetime);
    assert_eq!(datetime.to_unambiguous_timestamp(), timestamp);
}

#[test]
fn conversions() {
    // 100_000_000_000 seconds before the Unix epoch:
    // 2:13:20 pm UTC, Thursday, February 15, 1200 BC
    // (extrapolated Gregorian calendar).
    assert_conversions(-100_000_000_000, -1199, Month::February, 15, 14, 13, 20);

    assert_conversions(-62_167_219_200, 0, Month::January, 1, 0, 0, 0);
    // Year 0 (1 BC) is leap.
    assert_conversions(-62_162_035_201, 0, Month::February, 29, 23, 59, 59);
    assert_conversions(-62_162_035_200, 0, Month::March, 1, 0, 0, 0);
    assert_conversions(-50_000_000_000, 385, Month::July, 25, 7, 6, 40);
    assert_conversions(-1_000_000_000, 1938, Month::April, 24, 22, 13, 20);
    assert_conversions(-10_000_000, 1969, Month::September, 7, 6, 13, 20);
    assert_conversions(-1, 1969, Month::December, 31, 23, 59, 59);
    assert_conversions(0, 1970, Month::January, 1, 0, 0, 0);
    assert_conversions(1, 1970, Month::January, 1, 0, 0, 1);
    assert_conversions(100_000, 1970, Month::January, 2, 3, 46, 40);
    assert_conversions(1_000_000, 1970, Month::January, 12, 13, 46, 40);
    assert_conversions(10_000_000, 1970, Month::April, 26, 17, 46, 40);
    assert_conversions(100_000_000, 1973, Month::March, 3, 9, 46, 40);
    assert_conversions(946_684_800, 2000, Month::January, 1, 0, 0, 0);
    assert_conversions(1_000_000_000, 2001, Month::September, 9, 1, 46, 40);
    assert_conversions(1_468_627_200, 2016, Month::July, 16, 0, 0, 0);
    assert_conversions(1_468_702_726, 2016, Month::July, 16, 20, 58, 46);
    assert_conversions(10_000_000_000, 2286, Month::November, 20, 17, 46, 40);
    assert_conversions(400_000_000_000, 14645, Month::June, 30, 15, 6, 40);
}

#[test]
fn fixed_offset_from_utc() {
    let tz = FixedOffsetFromUtc::from_hours_and_minutes(2, 0);
    let t = UnixTimestamp(1468769652);
    let dt = NaiveDateTime::new(2016, Month::July, 17, 17, 34, 12);
    let utc_dt = NaiveDateTime::new(2016, Month::July, 17, 15, 34, 12);
    assert_eq!(tz.to_unambiguous_timestamp(&dt), t);
    assert_eq!(tz.from_timestamp(t), dt);
    assert_eq!(Utc.from_timestamp(t), utc_dt);
}

#[test]
fn fixed_offset_round_trip() {
    let tokyo = FixedOffsetFromUtc::from_hours_and_minutes(9, 0);
    let bogota = FixedOffsetFromUtc::from_hours_and_minutes(-5, 0);
    let kathmandu = FixedOffsetFromUtc::from_hours_and_minutes(5, 45);
    for &t in &[0i64, 1, -1, 1_468_702_726, -62_162_035_201, 86399, -86400] {
        for &(name, dt) in &[
            ("tokyo", tokyo.from_timestamp(UnixTimestamp(t))),
            ("bogota", bogota.from_timestamp(UnixTimestamp(t))),
            ("kathmandu", kathmandu.from_timestamp(UnixTimestamp(t))),
        ] {
            let back = match name {
                "tokyo" => tokyo.to_timestamp(&dt),
                "bogota" => bogota.to_timestamp(&dt),
                _ => kathmandu.to_timestamp(&dt),
            };
            assert_eq!(back, Ok(UnixTimestamp(t)));
        }
    }
}

#[test]
fn convert_between_time_zones() {
    let utc_noon = DateTime::new(Utc, 2016, Month::July, 17, 15, 34, 12);
    let plus_two: DateTime<FixedOffsetFromUtc> =
        utc_noon.convert_unambiguous_time_zone(FixedOffsetFromUtc::from_hours_and_minutes(2, 0));
    assert_eq!(
        plus_two.naive,
        NaiveDateTime::new(2016, Month::July, 17, 17, 34, 12)
    );
    let back: DateTime<Utc> = match plus_two.convert_time_zone(Utc) {
        Ok(dt) => dt,
        Err(_) => panic!("a fixed offset never rejects a local time"),
    };
    assert_eq!(back.naive, utc_noon.naive);
}

#[test]
fn datetime_accessors() {
    let dt = DateTime::new(Utc, 2016, Month::July, 16, 20, 58, 46);
    assert_eq!(dt.year(), 2016);
    assert_eq!(dt.month(), Month::July);
    assert_eq!(dt.day(), 16);
    assert_eq!(dt.hour(), 20);
    assert_eq!(dt.minute(), 58);
    assert_eq!(dt.second(), 46);
}
