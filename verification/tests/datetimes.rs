use sbs1::{parse_date_time, DateTime};

fn dt(year: u16, month: u8, day: u8, hour: u8, minute: u8, second: u8) -> DateTime {
    DateTime { year, month, day, hour, minute, second }
}

#[test]
fn well_formed_date_time_pairs_decode() {
    assert_eq!(
        parse_date_time(Some("2024/01/15"), Some("12:30:45")),
        Some(dt(2024, 1, 15, 12, 30, 45))
    );
    assert_eq!(
        parse_date_time(Some("1999/12/31"), Some("23:59:59")),
        Some(dt(1999, 12, 31, 23, 59, 59))
    );
    assert_eq!(
        parse_date_time(Some("0000/01/01"), Some("00:00:00")),
        Some(dt(0, 1, 1, 0, 0, 0))
    );
}

#[test]
fn wrong_separators_yield_absent() {
    assert_eq!(parse_date_time(Some("2024-01-15"), Some("12:30:45")), None);
    assert_eq!(parse_date_time(Some("2024/01/15"), Some("12.30.45")), None);
    assert_eq!(parse_date_time(Some("2024/01/15x"), Some("12:30:45")), None);
    assert_eq!(parse_date_time(Some("24/01/15"), Some("12:30:45")), None);
    assert_eq!(parse_date_time(Some("2024/1/15"), Some("12:30:45")), None);
}

#[test]
fn invalid_calendar_values_yield_absent() {
    assert_eq!(parse_date_time(Some("2024/01/15"), Some("25:00:00")), None);
    assert_eq!(parse_date_time(Some("2024/01/15"), Some("12:60:00")), None);
    assert_eq!(parse_date_time(Some("2024/01/15"), Some("12:00:60")), None);
    assert_eq!(parse_date_time(Some("2024/13/15"), Some("12:30:45")), None);
    assert_eq!(parse_date_time(Some("2024/00/15"), Some("12:30:45")), None);
    assert_eq!(parse_date_time(Some("2024/01/00"), Some("12:30:45")), None);
    assert_eq!(parse_date_time(Some("2024/04/31"), Some("12:30:45")), None);
}

#[test]
fn leap_years_follow_the_calendar() {
    assert_eq!(
        parse_date_time(Some("2024/02/29"), Some("00:00:00")),
        Some(dt(2024, 2, 29, 0, 0, 0))
    );
    assert_eq!(parse_date_time(Some("2023/02/29"), Some("00:00:00")), None);
    assert_eq!(parse_date_time(Some("1900/02/29"), Some("00:00:00")), None);
    assert_eq!(
        parse_date_time(Some("2000/02/29"), Some("00:00:00")),
        Some(dt(2000, 2, 29, 0, 0, 0))
    );
}

#[test]
fn missing_sides_yield_absent() {
    assert_eq!(parse_date_time(Some("2024/01/15"), None), None);
    assert_eq!(parse_date_time(None, Some("12:30:45")), None);
    assert_eq!(parse_date_time(None, None), None);
}
