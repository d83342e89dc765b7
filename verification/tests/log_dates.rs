use dshd::calendar::{civil_from_days, format_stamp};

#[test]
fn converts_known_epochs() {
    assert_eq!(civil_from_days(0), (1970, 1, 1));
    assert_eq!(civil_from_days(19_723), (2024, 1, 1));
    // 2024 was a leap year: day 60 of that year is 29 February.
    assert_eq!(civil_from_days(19_782), (2024, 2, 29));
}

#[test]
fn handles_dates_before_the_epoch() {
    assert_eq!(civil_from_days(-1), (1969, 12, 31));
}

#[test]
fn century_rules_for_leap_years() {
    // 2000 is a leap year (divisible by 400), 2100 is not (divisible by 100).
    assert_eq!(civil_from_days(11_016), (2000, 2, 29));
    assert_eq!(civil_from_days(47_540), (2100, 2, 28));
    assert_eq!(civil_from_days(47_541), (2100, 3, 1));
}

#[test]
fn consecutive_days_follow_each_other() {
    assert_eq!(civil_from_days(19_782 + 1), (2024, 3, 1));
    assert_eq!(civil_from_days(-719_468), (0, 3, 1));
    assert_eq!(civil_from_days(-719_469), (0, 2, 29));
}

#[test]
fn stamps_the_epoch_and_later_times() {
    assert_eq!(format_stamp(0), "1970-01-01 00:00:00");
    assert_eq!(format_stamp(1_704_067_199), "2023-12-31 23:59:59");
    assert_eq!(format_stamp(1_709_210_096), "2024-02-29 12:34:56");
}

#[test]
fn stamps_times_before_the_epoch() {
    assert_eq!(format_stamp(-1), "1969-12-31 23:59:59");
}
