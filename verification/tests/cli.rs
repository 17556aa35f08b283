use chrono::{Local, NaiveDate, TimeZone};
use gopal::cli::{
    expand_path, format_duration, parse_date, parse_time_period, CalendarDate, PathError,
    PeriodError, TimePeriod,
};

fn local_timestamp(date: CalendarDate, hour: u32, minute: u32, second: u32) -> i64 {
    let day = NaiveDate::from_ymd_opt(date.year, date.month, date.day).unwrap();
    let moment = day.and_hms_opt(hour, minute, second).unwrap();
    Local.from_local_datetime(&moment).earliest().unwrap().timestamp()
}

#[test]
fn main_test_expand_path() {
    // Test regular path
    let path = expand_path("/tmp/test.db", Some("/home/testuser")).unwrap();
    assert_eq!(path, "/tmp/test.db");

    // Test relative path
    let path = expand_path("./test.db", Some("/home/testuser")).unwrap();
    assert_eq!(path, "./test.db");
}

#[test]
fn test_expand_home_path() {
    let path = expand_path("~/.local/share/test.db", Some("/home/testuser")).unwrap();
    assert_eq!(path, "/home/testuser/.local/share/test.db");
}

#[test]
fn expand_path_without_a_home() {
    assert_eq!(expand_path("~/music.db", None), Err(PathError::HomeNotSet));
    assert_eq!(expand_path("/tmp/test.db", None), Ok("/tmp/test.db".to_string()));
    assert_eq!(expand_path("", None), Ok(String::new()));
    assert_eq!(expand_path("~", Some("/root")), Ok("/root".to_string()));
    // Only a tilde in front stands for the home directory.
    assert_eq!(expand_path("/a/~/b", None), Ok("/a/~/b".to_string()));
    assert_eq!(expand_path("~/a/~/b", Some("/h")), Ok("/h/a/~/b".to_string()));
    assert_eq!(
        expand_path("~/\u{e9}t\u{e9}.db", Some("/h\u{f6}me")),
        Ok("/h\u{f6}me/\u{e9}t\u{e9}.db".to_string())
    );
}

#[test]
fn test_parse_today_period() {
    let (start, end) =
        parse_time_period(TimePeriod::Today, 1_700_000_000, 1_699_920_000, None, None).unwrap();
    assert!(start.is_some());
    assert!(end.is_none());
}

#[test]
fn test_parse_all_time_period() {
    let (start, end) =
        parse_time_period(TimePeriod::AllTime, 1_700_000_000, 1_699_920_000, None, None).unwrap();
    assert!(start.is_none());
    assert!(end.is_none());
}

#[test]
fn test_parse_custom_period() {
    let first = parse_date("2023-01-01").unwrap();
    let last = parse_date("2023-12-31").unwrap();
    let (start, end) = parse_time_period(
        TimePeriod::Custom,
        1_700_000_000,
        1_699_920_000,
        Some(local_timestamp(first, 0, 0, 0)),
        Some(local_timestamp(last, 23, 59, 59)),
    )
    .unwrap();
    assert!(start.is_some());
    assert!(end.is_some());
}

#[test]
fn periods_reach_back_from_now() {
    let now: i64 = 1_700_000_000;
    let today: i64 = 1_699_920_000;
    assert_eq!(
        parse_time_period(TimePeriod::Today, now, today, None, None),
        Ok((Some(today), None))
    );
    assert_eq!(
        parse_time_period(TimePeriod::Week, now, today, None, None),
        Ok((Some(now - 604_800), None))
    );
    assert_eq!(
        parse_time_period(TimePeriod::Month, now, today, None, None),
        Ok((Some(now - 2_592_000), None))
    );
    assert_eq!(
        parse_time_period(TimePeriod::Year, now, today, None, None),
        Ok((Some(now - 31_536_000), None))
    );
    assert_eq!(
        parse_time_period(TimePeriod::AllTime, now, today, Some(1), Some(2)),
        Ok((None, None))
    );
    assert_eq!(
        parse_time_period(TimePeriod::Custom, now, today, Some(1), Some(2)),
        Ok((Some(1), Some(2)))
    );
    assert_eq!(parse_time_period(TimePeriod::Custom, now, today, None, None), Ok((None, None)));
}

#[test]
fn period_before_the_first_moment_is_refused() {
    assert_eq!(
        parse_time_period(TimePeriod::Week, i64::MIN, 0, None, None),
        Err(PeriodError::Overflow)
    );
    assert_eq!(
        parse_time_period(TimePeriod::Year, i64::MIN + 31_536_000, 0, None, None),
        Ok((Some(i64::MIN), None))
    );
    assert_eq!(parse_time_period(TimePeriod::Today, i64::MIN, 0, None, None), Ok((Some(0), None)));
}

#[test]
fn dates_are_read_as_year_month_day() {
    assert_eq!(parse_date("2023-01-01"), Ok(CalendarDate { year: 2023, month: 1, day: 1 }));
    assert_eq!(parse_date("2023-12-31"), Ok(CalendarDate { year: 2023, month: 12, day: 31 }));
    assert_eq!(parse_date("2024-02-29"), Ok(CalendarDate { year: 2024, month: 2, day: 29 }));
    assert_eq!(parse_date("2023-02-29"), Err(PeriodError::InvalidDate));
    assert_eq!(parse_date("31.12.2023"), Err(PeriodError::InvalidDate));
    assert_eq!(parse_date("2023-13-01"), Err(PeriodError::InvalidDate));
    assert_eq!(parse_date(""), Err(PeriodError::InvalidDate));
    assert_eq!(parse_date("2023-01-01 12:00"), Err(PeriodError::InvalidDate));
}

#[test]
fn durations_are_written_in_minutes_and_seconds() {
    assert_eq!(format_duration(0), "0 sec");
    assert_eq!(format_duration(1), "1 sec");
    assert_eq!(format_duration(45), "45 sec");
    assert_eq!(format_duration(59), "59 sec");
    assert_eq!(format_duration(60), "1 min");
    assert_eq!(format_duration(61), "1 min 1 sec");
    assert_eq!(format_duration(125), "2 min 5 sec");
    assert_eq!(format_duration(150), "2 min 30 sec");
    assert_eq!(format_duration(3600), "60 min");
    assert_eq!(format_duration(86_399), "1439 min 59 sec");
    assert_eq!(format_duration(-5), "-5 sec");
    assert_eq!(format_duration(-125), "-125 sec");
    assert_eq!(format_duration(i64::MAX), "153722867280912930 min 7 sec");
    assert_eq!(format_duration(i64::MIN), "-9223372036854775808 sec");
}
