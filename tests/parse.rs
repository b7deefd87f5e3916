use openmeteo::calendar::{Date, Weekday};
use openmeteo::request::{parse_date, parse_date_range, ParseError, RequestedDate, MAX_FORECAST_DAYS};

fn ymd(year: i32, month: u32, day: u32) -> Date {
    Date { days: chrono::NaiveDate::from_ymd_opt(year, month, day).unwrap().to_epoch_days() }
}

fn check_today_tomorrow() {
    assert_eq!(parse_date("today").unwrap(), RequestedDate::Today);
    assert_eq!(parse_date("tomorrow").unwrap(), RequestedDate::Tomorrow);
}

fn check_case_insensitive() {
    assert_eq!(parse_date("TODAY").unwrap(), RequestedDate::Today);
    assert_eq!(parse_date("Tomorrow").unwrap(), RequestedDate::Tomorrow);
    assert_eq!(parse_date("MONDAY").unwrap(), RequestedDate::Weekday(Weekday::Mon));
}

fn check_weekdays() {
    assert_eq!(parse_date("mon").unwrap(), RequestedDate::Weekday(Weekday::Mon));
    assert_eq!(parse_date("monday").unwrap(), RequestedDate::Weekday(Weekday::Mon));
    assert_eq!(parse_date("tue").unwrap(), RequestedDate::Weekday(Weekday::Tue));
    assert_eq!(parse_date("wed").unwrap(), RequestedDate::Weekday(Weekday::Wed));
    assert_eq!(parse_date("thu").unwrap(), RequestedDate::Weekday(Weekday::Thu));
    assert_eq!(parse_date("fri").unwrap(), RequestedDate::Weekday(Weekday::Fri));
    assert_eq!(parse_date("sat").unwrap(), RequestedDate::Weekday(Weekday::Sat));
    assert_eq!(parse_date("sun").unwrap(), RequestedDate::Weekday(Weekday::Sun));
    assert_eq!(parse_date("sunday").unwrap(), RequestedDate::Weekday(Weekday::Sun));
}

fn check_relative_days() {
    assert_eq!(parse_date("+0").unwrap(), RequestedDate::RelativeDays(0));
    assert_eq!(parse_date("+1").unwrap(), RequestedDate::RelativeDays(1));
    assert_eq!(parse_date("+7").unwrap(), RequestedDate::RelativeDays(7));
    assert_eq!(parse_date("+16").unwrap(), RequestedDate::RelativeDays(16));
}

fn check_absolute() {
    assert_eq!(parse_date("2025-01-15").unwrap(), RequestedDate::Absolute(ymd(2025, 1, 15)));
    assert_eq!(parse_date("2024-12-31").unwrap(), RequestedDate::Absolute(ymd(2024, 12, 31)));
}

fn check_invalid() {
    assert!(parse_date("").is_err());
    assert!(parse_date("yesterday").is_err());
    assert!(parse_date("15-01-2025").is_err()); // wrong order
    assert!(parse_date("2025/01/15").is_err()); // wrong separator
    assert!(parse_date("invalid").is_err());
}

fn check_range_single() {
    let (start, end) = parse_date_range("today").unwrap();
    assert_eq!(start, RequestedDate::Today);
    assert_eq!(end, RequestedDate::Today);
}

fn check_range_range() {
    let (start, end) = parse_date_range("today..tomorrow").unwrap();
    assert_eq!(start, RequestedDate::Today);
    assert_eq!(end, RequestedDate::Tomorrow);

    let (start, end) = parse_date_range("mon..fri").unwrap();
    assert_eq!(start, RequestedDate::Weekday(Weekday::Mon));
    assert_eq!(end, RequestedDate::Weekday(Weekday::Fri));

    let (start, end) = parse_date_range("+1..+3").unwrap();
    assert_eq!(start, RequestedDate::RelativeDays(1));
    assert_eq!(end, RequestedDate::RelativeDays(3));
}

#[test]
fn openmeteo_parse_date_today_tomorrow() {
    check_today_tomorrow();
}

#[test]
fn main_parse_date_today_tomorrow() {
    check_today_tomorrow();
}

#[test]
fn openmeteo_parse_date_case_insensitive() {
    check_case_insensitive();
}

#[test]
fn main_parse_date_case_insensitive() {
    check_case_insensitive();
}

#[test]
fn openmeteo_parse_date_weekdays() {
    check_weekdays();
}

#[test]
fn main_parse_date_weekdays() {
    check_weekdays();
}

#[test]
fn openmeteo_parse_date_relative_days() {
    check_relative_days();
}

#[test]
fn main_parse_date_relative_days() {
    check_relative_days();
}

#[test]
fn openmeteo_parse_date_absolute() {
    check_absolute();
}

#[test]
fn main_parse_date_absolute() {
    check_absolute();
}

#[test]
fn openmeteo_parse_date_invalid() {
    check_invalid();
}

#[test]
fn main_parse_date_invalid() {
    check_invalid();
}

#[test]
fn openmeteo_parse_date_range_single() {
    check_range_single();
}

#[test]
fn main_parse_date_range_single() {
    check_range_single();
}

#[test]
fn openmeteo_parse_date_range_range() {
    check_range_range();
}

#[test]
fn main_parse_date_range_range() {
    check_range_range();
}

#[test]
fn parse_date_range_open_ended() {
    // ..fri means today..fri
    let (start, end) = parse_date_range("..fri").unwrap();
    assert_eq!(start, RequestedDate::Today);
    assert_eq!(end, RequestedDate::Weekday(Weekday::Fri));

    // mon.. means mon..+16
    let (start, end) = parse_date_range("mon..").unwrap();
    assert_eq!(start, RequestedDate::Weekday(Weekday::Mon));
    assert_eq!(end, RequestedDate::RelativeDays(MAX_FORECAST_DAYS));

    // just .. is forbidden
    assert!(parse_date_range("..").is_err());
}

#[test]
fn openmeteo_parse_date_range_invalid() {
    assert!(parse_date_range("invalid..today").is_err());
    assert!(parse_date_range("today..invalid").is_err());
}

#[test]
fn main_parse_date_range_invalid() {
    assert!(parse_date_range("invalid..today").is_err());
    assert!(parse_date_range("today..invalid").is_err());
    // An empty side takes its default: today for the start, the last forecast day for the end.
    assert_eq!(
        parse_date_range("..today").unwrap(),
        (RequestedDate::Today, RequestedDate::Today)
    );
    assert_eq!(
        parse_date_range("today..").unwrap(),
        (RequestedDate::Today, RequestedDate::RelativeDays(MAX_FORECAST_DAYS))
    );
}

#[test]
fn parse_ignores_case_of_every_token_form() {
    for (upper, lower) in [
        ("TODAY", "today"),
        ("ToDaY", "today"),
        ("TOMORROW", "tomorrow"),
        ("Fri", "fri"),
        ("SUNDAY", "sunday"),
        ("+5", "+5"),
        ("2025-01-15", "2025-01-15"),
        ("YESTERDAY", "yesterday"),
    ] {
        assert_eq!(parse_date(upper), parse_date(lower));
    }
}

#[test]
fn open_start_equals_today_start() {
    for x in ["fri", "+3", "2025-02-01", "tomorrow", "bogus", "TUE"] {
        assert_eq!(
            parse_date_range(&format!("..{x}")),
            parse_date_range(&format!("today..{x}"))
        );
    }
}

#[test]
fn open_end_equals_last_forecast_day() {
    for x in ["fri", "+3", "2025-02-01", "today", "Tomorrow"] {
        assert_eq!(
            parse_date_range(&format!("{x}..")),
            parse_date_range(&format!("{x}..+16"))
        );
    }
}

#[test]
fn bare_separator_is_refused() {
    assert_eq!(parse_date_range(".."), Err(ParseError::EmptyRange));
    assert_eq!(parse_date_range("bogus"), Err(ParseError::InvalidDate));
    assert_eq!(
        ParseError::InvalidDate.message(),
        "dates must be YYYY-MM-DD, +N, weekday name, 'today' or 'tomorrow'"
    );
    assert_eq!(ParseError::EmptyRange.message(), "empty range '..' not allowed");
}

#[test]
fn relative_days_stay_within_the_forecast_horizon() {
    assert_eq!(parse_date("+16").unwrap(), RequestedDate::RelativeDays(MAX_FORECAST_DAYS));
    assert_eq!(parse_date("+007").unwrap(), RequestedDate::RelativeDays(7));
    assert!(parse_date("+17").is_err());
    assert!(parse_date("+255").is_err());
    assert!(parse_date("++5").is_err());
    assert!(parse_date("+").is_err());
    assert!(parse_date("+-1").is_err());
    assert!(parse_date("5").is_err());
}

#[test]
fn absolute_dates_are_strict() {
    assert!(parse_date("2025-02-29").is_err()); // not a leap year
    assert_eq!(parse_date("2024-02-29").unwrap(), RequestedDate::Absolute(ymd(2024, 2, 29)));
    assert!(parse_date("2025-1-15").is_err());
    assert!(parse_date("25-01-15").is_err());
    assert!(parse_date("2025-13-01").is_err());
    assert!(parse_date(" 2025-01-15").is_err());
    assert_eq!(parse_date("1970-01-01").unwrap(), RequestedDate::Absolute(Date { days: 0 }));
}

#[test]
fn range_splits_at_first_separator() {
    assert!(parse_date_range("mon..tue..wed").is_err());
    assert_eq!(
        parse_date_range("FRI..SUN").unwrap(),
        (RequestedDate::Weekday(Weekday::Fri), RequestedDate::Weekday(Weekday::Sun))
    );
}
