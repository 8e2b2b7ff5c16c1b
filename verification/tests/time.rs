//! Wall-clock times.

use mbshark2::time::{Timestamp, FIRST_SECOND, LAST_SECOND};

fn at(secs: i64, nanos: u32, offset: i32) -> Timestamp {
    Timestamp::new(secs, nanos, offset).unwrap()
}

#[test]
fn clock_shows_local_milliseconds() {
    assert_eq!(at(0, 0, 0).clock_time(), "00:00:00.000");
    // Parts of a millisecond are cut off.
    assert_eq!(at(86_399, 999_999_999, 0).clock_time(), "23:59:59.999");
    assert_eq!(at(0, 5_000_000, 3600).clock_time(), "01:00:00.005");
    assert_eq!(at(0, 0, -1800).clock_time(), "23:30:00.000");
    assert_eq!(at(-1, 250_000_000, 0).clock_time(), "23:59:59.250");
    assert_eq!(at(79_420, 775_000_000, 0).clock_time(), "22:03:40.775");
}

#[test]
fn file_stamp_shows_date_and_time() {
    assert_eq!(at(0, 0, 0).file_stamp(), "19700101_000000");
    assert_eq!(at(951_782_400, 0, 0).file_stamp(), "20000229_000000");
    assert_eq!(at(951_782_400, 0, -1).file_stamp(), "20000228_235959");
}

#[test]
fn differences_are_in_whole_milliseconds() {
    let t = at(100, 0, 0);
    assert_eq!(at(100, 600_000_000, 0).millis_since(&t), 600);
    assert_eq!(at(101, 0, 0).millis_since(&at(100, 999_000_001, 0)), 0);
    assert_eq!(t.millis_since(&at(100, 600_900_000, 0)), -600);
    assert_eq!(t.millis_since(&at(103, 0, 0)), -3000);
    // Where on earth a time is shown makes no difference.
    assert_eq!(at(101, 0, 7200).millis_since(&at(100, 0, -7200)), 1000);
}

#[test]
fn numbers_out_of_range_are_refused() {
    assert!(Timestamp::new(LAST_SECOND, 999_999_999, 86_399).is_some());
    assert!(Timestamp::new(FIRST_SECOND, 0, -86_399).is_some());
    assert!(Timestamp::new(LAST_SECOND + 1, 0, 0).is_none());
    assert!(Timestamp::new(FIRST_SECOND - 1, 0, 0).is_none());
    assert!(Timestamp::new(0, 1_000_000_000, 0).is_none());
    assert!(Timestamp::new(58, 1_000_000_000, 0).is_none());
    assert!(Timestamp::new(59, 2_000_000_000, 0).is_none());
    assert!(Timestamp::new(0, 0, 86_400).is_none());
    assert!(Timestamp::new(0, 0, -86_400).is_none());
}

#[test]
fn farthest_times_can_be_shown_and_compared() {
    let first = at(FIRST_SECOND, 0, -86_399);
    let last = at(LAST_SECOND, 999_999_999, 86_399);
    assert_eq!(first.clock_time().len(), 12);
    assert_eq!(last.clock_time().len(), 12);
    assert_eq!(last.millis_since(&first), 16_544_868_105_599_999);
    assert!(!first.file_stamp().is_empty());
    assert!(!last.file_stamp().is_empty());
}

#[test]
fn leap_seconds_are_shown_and_counted() {
    // 2015-06-30T23:59:60.5Z
    let leap = at(1_435_708_799, 1_500_000_000, 0);
    assert_eq!(leap.clock_time(), "23:59:60.500");
    assert_eq!(leap.file_stamp(), "20150630_235960");
    assert_eq!(at(1_435_708_799, 1_500_000_000, 7200).clock_time(), "01:59:60.500");
    // Before the second of the minute turns, and after.
    assert_eq!(leap.millis_since(&at(1_435_708_799, 0, 0)), 1500);
    assert_eq!(at(1_435_708_800, 0, 0).millis_since(&leap), -500);
    assert_eq!(leap.millis_since(&at(1_435_705_200, 0, 0)), 3_600_500);
    assert_eq!(at(1_435_712_400, 0, 0).millis_since(&leap), 3_599_500);
    // Within one day the leap second itself is counted.
    let noon_leap = at(43_259, 1_500_000_000, 0);
    assert_eq!(at(43_260, 0, 0).millis_since(&noon_leap), 500);
    assert_eq!(noon_leap.millis_since(&at(43_260, 0, 0)), -500);
    assert_eq!(noon_leap.millis_since(&at(43_200, 0, 0)), 60_500);
    // The last second of a minute before the epoch can be one too.
    assert_eq!(at(-1, 1_000_000_000, 0).clock_time(), "23:59:60.000");
}
