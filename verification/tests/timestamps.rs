use grin_backup::timestamp::{Timestamp, MAX_YEAR, MIN_YEAR};

fn at(year: i32, month: u32, day: u32, hour: u32, minute: u32, second: u32) -> Timestamp {
    Timestamp::new(year, month, day, hour, minute, second).unwrap()
}

#[test]
fn new_keeps_the_fields() {
    let t = at(2024, 1, 2, 3, 4, 5);
    assert_eq!(
        t,
        Timestamp { year: 2024, month: 1, day: 2, hour: 3, minute: 4, second: 5, nanosecond: 0 }
    );
}

#[test]
fn new_knows_the_lengths_of_the_months() {
    let days = [31, 28, 31, 30, 31, 30, 31, 31, 30, 31, 30, 31];
    for month in 1..=12u32 {
        let last = days[(month - 1) as usize];
        assert!(Timestamp::new(2023, month, last, 0, 0, 0).is_some());
        assert!(Timestamp::new(2023, month, last + 1, 0, 0, 0).is_none());
        assert!(Timestamp::new(2023, month, 0, 0, 0, 0).is_none());
    }
}

#[test]
fn new_knows_the_leap_years() {
    assert!(Timestamp::new(2024, 2, 29, 0, 0, 0).is_some());
    assert!(Timestamp::new(2000, 2, 29, 0, 0, 0).is_some());
    assert!(Timestamp::new(1900, 2, 29, 0, 0, 0).is_none());
    assert!(Timestamp::new(2023, 2, 29, 0, 0, 0).is_none());
    assert!(Timestamp::new(0, 2, 29, 0, 0, 0).is_some());
    assert!(Timestamp::new(-4, 2, 29, 0, 0, 0).is_some());
    assert!(Timestamp::new(-100, 2, 29, 0, 0, 0).is_none());
    assert!(Timestamp::new(-400, 2, 29, 0, 0, 0).is_some());
}

#[test]
fn new_refuses_what_is_off_the_calendar_or_the_clock() {
    assert!(Timestamp::new(2024, 0, 1, 0, 0, 0).is_none());
    assert!(Timestamp::new(2024, 13, 1, 0, 0, 0).is_none());
    assert!(Timestamp::new(2024, 1, 1, 24, 0, 0).is_none());
    assert!(Timestamp::new(2024, 1, 1, 0, 60, 0).is_none());
    assert!(Timestamp::new(2024, 1, 1, 0, 0, 60).is_none());
    assert!(Timestamp::new(2024, 13, 40, 99, 99, 99).is_none());
    assert!(Timestamp::new(2024, 12, 31, 23, 59, 59).is_some());
}

#[test]
fn new_keeps_to_the_range_of_years() {
    assert!(Timestamp::new(MIN_YEAR, 1, 1, 0, 0, 0).is_some());
    assert!(Timestamp::new(MAX_YEAR, 12, 31, 23, 59, 59).is_some());
    assert!(Timestamp::new(MIN_YEAR - 1, 12, 31, 0, 0, 0).is_none());
    assert!(Timestamp::new(MAX_YEAR + 1, 1, 1, 0, 0, 0).is_none());
    assert!(Timestamp::new(i32::MIN, 1, 1, 0, 0, 0).is_none());
    assert!(Timestamp::new(i32::MAX, 1, 1, 0, 0, 0).is_none());
}

#[test]
fn validity_agrees_with_chrono_on_dates() {
    for year in [-262144, -262143, -401, -400, -100, -4, -1, 0, 1, 4, 100, 1900, 2000, 2023, 2024, 9999, 10000, 262142, 262143] {
        for month in 0..=13u32 {
            for day in [0u32, 1, 28, 29, 30, 31, 32] {
                let ours = Timestamp::new(year, month, day, 0, 0, 0).is_some();
                let theirs = chrono::NaiveDate::from_ymd_opt(year, month, day).is_some();
                assert_eq!(ours, theirs, "{}-{}-{}", year, month, day);
            }
        }
    }
}

#[test]
fn validity_agrees_with_chrono_on_times() {
    for hour in [0u32, 23, 24] {
        for minute in [0u32, 59, 60] {
            for second in [0u32, 58, 59, 60] {
                for nanosecond in [0u32, 1, 999_999_999, 1_000_000_000, 1_999_999_999, 2_000_000_000] {
                    let ours = Timestamp { year: 2024, month: 6, day: 30, hour, minute, second, nanosecond };
                    let theirs = chrono::NaiveTime::from_hms_nano_opt(hour, minute, second, nanosecond);
                    assert_eq!(ours.is_valid(), theirs.is_some(), "{:?}", ours);
                }
            }
        }
    }
}

#[test]
fn a_leap_second_is_second_59_with_a_full_second_of_nanoseconds() {
    let leap = Timestamp { year: 2016, month: 12, day: 31, hour: 23, minute: 59, second: 59, nanosecond: 1_000_000_000 };
    assert!(leap.is_valid());
    let not_at_59 = Timestamp { second: 58, ..leap };
    assert!(!not_at_59.is_valid());
}

#[test]
fn is_before_goes_by_the_first_field_that_differs() {
    let base = at(2024, 6, 15, 12, 30, 30);
    assert!(!base.is_before(&base));
    let later = [
        at(2025, 1, 1, 0, 0, 0),
        at(2024, 7, 1, 0, 0, 0),
        at(2024, 6, 16, 0, 0, 0),
        at(2024, 6, 15, 13, 0, 0),
        at(2024, 6, 15, 12, 31, 0),
        at(2024, 6, 15, 12, 30, 31),
        Timestamp { nanosecond: 1, ..base },
    ];
    for other in later {
        assert!(base.is_before(&other), "{:?}", other);
        assert!(!other.is_before(&base), "{:?}", other);
    }
}

#[test]
fn is_before_agrees_with_the_order_of_the_type() {
    let times = [
        at(-5, 12, 31, 23, 59, 59),
        at(1999, 12, 31, 23, 59, 59),
        at(2000, 1, 1, 0, 0, 0),
        at(2024, 1, 2, 3, 4, 5),
        at(2024, 1, 2, 3, 4, 6),
        at(2024, 2, 1, 0, 0, 0),
    ];
    for a in times {
        for b in times {
            assert_eq!(a.is_before(&b), a < b);
        }
    }
}
