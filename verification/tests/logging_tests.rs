use ferrumcraft::logging::{civil_from_days, clock_timestamp, filename_timestamp, is_leap};

#[test]
fn leap_years_follow_the_gregorian_rule() {
    assert!(is_leap(2000));
    assert!(is_leap(2024));
    assert!(!is_leap(1900));
    assert!(!is_leap(2023));
}

#[test]
fn day_counts_map_to_calendar_dates() {
    assert_eq!(civil_from_days(0), (1970, 1, 1));
    assert_eq!(civil_from_days(31), (1970, 2, 1));
    assert_eq!(civil_from_days(59), (1970, 3, 1));
    assert_eq!(civil_from_days(365), (1971, 1, 1));
    assert_eq!(civil_from_days(19782), (2024, 2, 29));
    assert_eq!(civil_from_days(19783), (2024, 3, 1));
    assert_eq!(civil_from_days(10957), (2000, 1, 1));
}

#[test]
fn log_file_stamp_is_date_and_time() {
    assert_eq!(filename_timestamp(0), "19700101_000000");
    assert_eq!(filename_timestamp(1_700_000_000), "20231114_221320");
    assert_eq!(filename_timestamp(1_709_164_800 + 59), "20240229_000059");
}

#[test]
fn log_line_stamp_is_time_of_day_with_millis() {
    assert_eq!(clock_timestamp(3723, 45), "01:02:03.045");
    assert_eq!(clock_timestamp(86_400 + 59, 999), "00:00:59.999");
    assert_eq!(clock_timestamp(1_700_000_000, 7), "22:13:20.007");
}
