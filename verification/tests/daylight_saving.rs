//! The Central-European daylight-saving rule: the skipped and repeated
//! local hours at the two yearly transitions are rejected, everything
//! else converts and round-trips.

use gregor::CentralEurope;
use gregor::DateTime;
use gregor::DaylightSaving;
use gregor::Month;
use gregor::NaiveDateTime;
use gregor::TimeZone;
use gregor::UnixTimestamp;
use gregor::Utc;

#[test]
fn dst_predicate_at_the_2016_transitions() {
    let zone = CentralEurope;
    // 01:00 UTC on the last Sunday of March 2016 (March 27).
    assert!(!zone.is_in_dst(UnixTimestamp(1459040399)));
    assert!(zone.is_in_dst(UnixTimestamp(1459040400)));
    // 01:00 UTC on the last Sunday of October 2016 (October 30).
    assert!(zone.is_in_dst(UnixTimestamp(1477789199)));
    assert!(!zone.is_in_dst(UnixTimestamp(1477789200)));
}

#[test]
fn skipped_hour_is_rejected() {
    // Clocks jump from 02:00 to 03:00 local time on 2016-03-27: local
    // readings inside that hour never happened.
    for &(minute, second) in &[(0, 0), (30, 0), (59, 59)] {
        let local = DateTime::new(CentralEurope, 2016, Month::March, 27, 2, minute, second);
        assert!(local.to_timestamp().is_err());
    }
    // The minute before the jump, and the instant after it, both convert.
    let before = DateTime::new(CentralEurope, 2016, Month::March, 27, 1, 59, 59);
    assert_eq!(before.to_timestamp(), Ok(UnixTimestamp(1459040399)));
    let after = DateTime::new(CentralEurope, 2016, Month::March, 27, 3, 0, 0);
    assert_eq!(after.to_timestamp(), Ok(UnixTimestamp(1459040400)));
}

#[test]
fn repeated_hour_is_rejected() {
    // Clocks fall back from 03:00 to 02:00 local time on 2016-10-30:
    // local readings between 02:00 and 03:00 happened twice.
    for &(minute, second) in &[(0, 0), (30, 0), (59, 59)] {
        let local = DateTime::new(CentralEurope, 2016, Month::October, 30, 2, minute, second);
        assert!(local.to_timestamp().is_err());
    }
    // Just before the repeated hour (still summer time, UTC+2).
    let before = DateTime::new(CentralEurope, 2016, Month::October, 30, 1, 59, 59);
    assert_eq!(before.to_timestamp(), Ok(UnixTimestamp(1477785599)));
    // Just after it (winter time again, UTC+1).
    let after = DateTime::new(CentralEurope, 2016, Month::October, 30, 3, 0, 0);
    assert_eq!(after.to_timestamp(), Ok(UnixTimestamp(1477792800)));
}

#[test]
fn clear_local_times_round_trip() {
    // Midsummer, during DST: local 17:34:12 is UTC+2.
    let summer = DateTime::new(CentralEurope, 2016, Month::July, 17, 17, 34, 12);
    assert_eq!(summer.to_timestamp(), Ok(UnixTimestamp(1468769652)));
    assert_eq!(
        DateTime::from_timestamp(UnixTimestamp(1468769652), CentralEurope).naive,
        summer.naive
    );
    // Midwinter, outside DST: local 12:00:00 is UTC+1.
    let winter = DateTime::new(CentralEurope, 2016, Month::January, 15, 12, 0, 0);
    assert_eq!(winter.to_timestamp(), Ok(UnixTimestamp(1452855600)));
    assert_eq!(
        DateTime::from_timestamp(UnixTimestamp(1452855600), CentralEurope).naive,
        winter.naive
    );
    // A June morning, and the instant it names, rendered back.
    let june = DateTime::new(CentralEurope, 2016, Month::June, 1, 12, 0, 0);
    assert_eq!(june.to_timestamp(), Ok(UnixTimestamp(1464775200)));
}

#[test]
fn ambiguous_conversion_error() {
    // Converting out of a daylight-saving zone starts from the fallible
    // conversion, so a reading in the skipped hour carries the error
    // through.
    let local = DateTime::new(CentralEurope, 2016, Month::March, 27, 2, 30, 0);
    let converted = local.convert_time_zone(Utc);
    assert!(converted.is_err());
    let fine = DateTime::new(CentralEurope, 2016, Month::July, 17, 17, 34, 12);
    let in_utc = match fine.convert_time_zone(Utc) {
        Ok(dt) => dt,
        Err(_) => panic!("a clear local time converts"),
    };
    assert_eq!(
        in_utc.naive,
        NaiveDateTime::new(2016, Month::July, 17, 15, 34, 12)
    );
}

#[test]
fn offsets_of_the_rule() {
    let zone = CentralEurope;
    let outside = zone.offset_outside_dst();
    let during = zone.offset_during_dst();
    // Rendering the same instant under each offset shows the hour gap.
    let t = UnixTimestamp(1452855600);
    let as_cet = outside.from_timestamp(t);
    let as_cest = during.from_timestamp(t);
    assert_eq!(as_cet, NaiveDateTime::new(2016, Month::January, 15, 12, 0, 0));
    assert_eq!(as_cest, NaiveDateTime::new(2016, Month::January, 15, 13, 0, 0));
}
