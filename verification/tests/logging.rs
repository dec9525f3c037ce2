use secaxis::clock::{civil_from_days, fmt_utc, log_line, should_rotate_log};

#[test]
fn formats_epoch() {
    assert_eq!(fmt_utc(0), "1970-01-01 00:00:00Z");
    assert_eq!(fmt_utc(1_700_000_000), "2023-11-14 22:13:20Z");
}

#[test]
fn leap_year_boundary() {
    assert_eq!(fmt_utc(951_782_400), "2000-02-29 00:00:00Z");
}

#[test]
fn calendar_dates_of_day_numbers() {
    assert_eq!(civil_from_days(0), (1970, 1, 1));
    assert_eq!(civil_from_days(59), (1970, 3, 1));
    assert_eq!(civil_from_days(11016), (2000, 2, 29));
    assert_eq!(civil_from_days(11017), (2000, 3, 1));
    assert_eq!(civil_from_days(47540), (2100, 2, 28));
    assert_eq!(civil_from_days(47541), (2100, 3, 1));
    assert_eq!(civil_from_days(2932896), (9999, 12, 31));
}

#[test]
fn log_lines_carry_time_level_and_message() {
    assert_eq!(log_line(86_399, "ERROR", "坏了"), "[1970-01-01 23:59:59Z] ERROR 坏了");
    assert!(!should_rotate_log(1_048_576));
    assert!(should_rotate_log(1_048_577));
}
