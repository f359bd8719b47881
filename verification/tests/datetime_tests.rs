use procmon::datetime::{parse_datetime, uptime_seconds};

#[test]
fn epoch_start_parses_to_zero() {
    assert_eq!(parse_datetime("1970-01-01 00:00:00"), Some(0));
}

#[test]
fn one_day_in_is_86400() {
    assert_eq!(parse_datetime("1970-01-02 00:00:00"), Some(86400));
}

#[test]
fn leap_day_noon_has_its_exact_second_count() {
    assert_eq!(parse_datetime("2000-02-29 12:00:00"), Some(951825600));
}

#[test]
fn time_of_day_components_add_up() {
    assert_eq!(parse_datetime("1970-01-01 01:02:03"), Some(3723));
}

#[test]
fn pre_epoch_years_are_rejected() {
    assert_eq!(parse_datetime("1969-12-31 23:59:59"), None);
}

#[test]
fn impossible_dates_are_rejected() {
    assert_eq!(parse_datetime("2023-02-29 00:00:00"), None);
    assert!(parse_datetime("2024-02-29 00:00:00").is_some());
    assert_eq!(parse_datetime("2024-04-31 00:00:00"), None);
    assert_eq!(parse_datetime("2024-13-01 00:00:00"), None);
    assert_eq!(parse_datetime("2024-00-10 00:00:00"), None);
    assert_eq!(parse_datetime("2024-01-00 00:00:00"), None);
}

#[test]
fn out_of_range_times_are_rejected() {
    assert_eq!(parse_datetime("2024-01-01 24:00:00"), None);
    assert_eq!(parse_datetime("2024-01-01 00:60:00"), None);
    assert_eq!(parse_datetime("2024-01-01 00:00:60"), None);
}

#[test]
fn malformed_stamps_are_rejected() {
    assert_eq!(parse_datetime(""), None);
    assert_eq!(parse_datetime("10:00:00"), None);
    assert_eq!(parse_datetime("2024/01/01 00:00:00"), None);
    assert_eq!(parse_datetime("2024-01-01T00:00:00"), None);
    assert_eq!(parse_datetime("2024-01-01 00:00:0x"), None);
}

#[test]
fn uptime_is_exit_minus_start_clamped_at_zero() {
    let start = parse_datetime("2024-05-05 10:00:00").unwrap();
    assert_eq!(uptime_seconds("2024-05-05 10:00:00", start + 100), 100);
    assert_eq!(uptime_seconds("2024-05-05 10:00:00", start), 0);
    // An exit instant before the parsed start clamps to zero.
    assert_eq!(uptime_seconds("2024-05-05 10:00:00", start - 5), 0);
}

#[test]
fn unparsable_start_yields_zero_uptime() {
    assert_eq!(uptime_seconds("??:??", 123456), 0);
}
