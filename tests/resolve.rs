use chrono::{DateTime, FixedOffset, NaiveDate, TimeZone, Utc};
use openmeteo::calendar::{Date, Weekday};
use openmeteo::instant::Instant;
use openmeteo::request::{parse_date_range, RequestedDate};
use openmeteo::resolve::{resolve_date, resolve_range_dates, resolve_time_range};

fn ymd(year: i32, month: u32, day: u32) -> Date {
    Date { days: NaiveDate::from_ymd_opt(year, month, day).unwrap().to_epoch_days() }
}

fn instant_of(dt: DateTime<FixedOffset>) -> Instant {
    Instant::new(dt.timestamp(), dt.timestamp_subsec_nanos(), dt.offset().local_minus_utc()).unwrap()
}

fn make_time_hms(hour: u32, minute: u32, second: u32) -> Instant {
    // Use a Wednesday (2025-01-15) as the reference date for weekday tests
    instant_of(
        FixedOffset::east_opt(0)
            .unwrap()
            .with_ymd_and_hms(2025, 1, 15, hour, minute, second)
            .unwrap(),
    )
}

fn make_time(hour: u32, minute: u32) -> Instant {
    make_time_hms(hour, minute, 0)
}

/// Parses a date range string and resolves it in UTC.
fn test_resolve(dates: &str, relative_to: Instant) -> (Instant, Instant) {
    let date_range = parse_date_range(dates).unwrap();
    let interval = resolve_time_range(date_range, chrono_tz::UTC, relative_to).unwrap();
    (interval.start, interval.end)
}

fn utc_seconds(year: i32, month: u32, day: u32, hour: u32, minute: u32) -> i64 {
    Utc.with_ymd_and_hms(year, month, day, hour, minute, 0).unwrap().timestamp()
}

fn check_today_before_cutoff() {
    let relative_to = make_time(12, 0); // noon
    let (start, end) = test_resolve("today", relative_to);
    // Start should be clamped to relative_to (noon)
    assert_eq!(start.hour(), 12);
    // End should be midnight of the next day
    assert_eq!(end.local_date(), ymd(2025, 1, 16));
    assert_eq!(end.hour(), 0);
}

fn check_today_after_cutoff() {
    let relative_to = make_time(23, 0); // after 22:55
    let (start, end) = test_resolve("today", relative_to);
    // "today" shifts to tomorrow on both ends
    assert_eq!(start.local_date(), ymd(2025, 1, 16));
    assert_eq!(start.hour(), 0);
    // End should be midnight of the day after tomorrow
    assert_eq!(end.local_date(), ymd(2025, 1, 17));
}

fn check_at_cutoff_boundary() {
    // Exactly at 22:55 should NOT trigger the shift (the comparison is strict)
    let (start, end) = test_resolve("today", make_time(22, 55));
    assert_eq!(start.local_date(), ymd(2025, 1, 15));
    assert_eq!(end.local_date(), ymd(2025, 1, 16));

    // One minute later should trigger the shift
    let (start, end) = test_resolve("today", make_time(22, 56));
    assert_eq!(start.local_date(), ymd(2025, 1, 16));
    assert_eq!(end.local_date(), ymd(2025, 1, 17));
}

fn check_relative_days() {
    let (start, end) = test_resolve("+2..+3", make_time(10, 0));
    // +2 from 2025-01-15 is 2025-01-17
    assert_eq!(start.local_date(), ymd(2025, 1, 17));
    // +3 from 2025-01-15 is 2025-01-18, end is midnight of next day
    assert_eq!(end.local_date(), ymd(2025, 1, 19));
}

fn check_weekday() {
    // Reference is Wednesday 2025-01-15
    let (start, end) = test_resolve("fri..sun", make_time(10, 0));
    // Friday after Wednesday 2025-01-15 is 2025-01-17
    assert_eq!(start.local_date(), ymd(2025, 1, 17));
    // Sunday after Friday is 2025-01-19, end is midnight of next day
    assert_eq!(end.local_date(), ymd(2025, 1, 20));
}

fn check_absolute_ignores_cutoff() {
    let relative_to = make_time(23, 30); // after cutoff
    let (start, end) = test_resolve("2025-01-15", relative_to);
    // Absolute dates are not affected by the cutoff, but start is still clamped to relative_to
    assert_eq!(start.hour(), 23);
    assert_eq!(start.minute(), 30);
    assert_eq!(end.local_date(), ymd(2025, 1, 16));
}

fn check_start_clamped() {
    // If relative_to is in the afternoon, start should be clamped
    let (start, _) = test_resolve("today", make_time(15, 30));
    assert_eq!(start.hour(), 15);
    assert_eq!(start.minute(), 30);
}

fn check_respects_timezone() {
    // 10:00 UTC on 2025-01-15
    let relative_to = make_time(10, 0);

    // In UTC, "tomorrow" starts at 2025-01-16 00:00:00 UTC
    let start_utc = resolve_time_range(
        parse_date_range("tomorrow").unwrap(),
        chrono_tz::UTC,
        relative_to,
    )
    .unwrap()
    .start;
    assert_eq!(start_utc.local_date(), ymd(2025, 1, 16));
    assert_eq!(start_utc.hour(), 0);
    assert_eq!(start_utc.offset_seconds(), 0);

    // In Europe/Zagreb (UTC+1 in winter), "tomorrow" starts at 2025-01-16 00:00:00
    // local, which is 2025-01-15 23:00:00 UTC
    let start_zagreb = resolve_time_range(
        parse_date_range("tomorrow").unwrap(),
        chrono_tz::Europe::Zagreb,
        relative_to,
    )
    .unwrap()
    .start;
    assert_eq!(start_zagreb.local_date(), ymd(2025, 1, 16));
    assert_eq!(start_zagreb.hour(), 0);
    assert_eq!(start_zagreb.offset_seconds(), 3600); // UTC+1

    // The Zagreb time should be 1 hour earlier in absolute terms
    assert_eq!(start_zagreb.timestamp(), start_utc.timestamp() - 3600);
}

#[test]
fn openmeteo_resolve_time_range_today_before_cutoff() {
    check_today_before_cutoff();
}

#[test]
fn main_resolve_time_range_today_before_cutoff() {
    check_today_before_cutoff();
}

#[test]
fn openmeteo_resolve_time_range_today_after_cutoff() {
    check_today_after_cutoff();
}

#[test]
fn main_resolve_time_range_today_after_cutoff() {
    check_today_after_cutoff();
}

#[test]
fn openmeteo_resolve_time_range_at_cutoff_boundary() {
    check_at_cutoff_boundary();
}

#[test]
fn main_resolve_time_range_at_cutoff_boundary() {
    check_at_cutoff_boundary();
}

#[test]
fn openmeteo_resolve_time_range_relative_days() {
    check_relative_days();
}

#[test]
fn main_resolve_time_range_relative_days() {
    check_relative_days();
}

#[test]
fn openmeteo_resolve_time_range_weekday() {
    check_weekday();
}

#[test]
fn main_resolve_time_range_weekday() {
    check_weekday();
}

#[test]
fn openmeteo_resolve_time_range_absolute_ignores_cutoff() {
    check_absolute_ignores_cutoff();
}

#[test]
fn main_resolve_time_range_absolute_ignores_cutoff() {
    check_absolute_ignores_cutoff();
}

#[test]
fn openmeteo_resolve_time_range_start_clamped_to_relative_to() {
    check_start_clamped();
}

#[test]
fn main_resolve_time_range_start_clamped_to_relative_to() {
    check_start_clamped();
}

#[test]
fn openmeteo_resolve_time_range_respects_timezone() {
    check_respects_timezone();
}

#[test]
fn main_resolve_time_range_respects_timezone() {
    check_respects_timezone();
}

#[test]
fn cutoff_boundary_to_the_second() {
    let (start, _) = test_resolve("today", make_time_hms(22, 55, 0));
    assert_eq!(start.local_date(), ymd(2025, 1, 15));
    let (start, _) = test_resolve("today", make_time_hms(22, 55, 1));
    assert_eq!(start.local_date(), ymd(2025, 1, 16));
    // Half a second past the cutoff already counts as past it.
    let late = Instant::new(utc_seconds(2025, 1, 15, 22, 55), 500_000_000, 0).unwrap();
    let (start, _) = test_resolve("today", late);
    assert_eq!(start.local_date(), ymd(2025, 1, 16));
}

#[test]
fn tomorrow_in_utc_and_utc_plus_one() {
    let now = make_time(10, 0);
    let range = parse_date_range("tomorrow").unwrap();
    let utc = resolve_time_range(range, chrono_tz::UTC, now).unwrap();
    assert_eq!(utc.start.timestamp(), utc_seconds(2025, 1, 16, 0, 0));
    let plus_one = resolve_time_range(range, chrono_tz::Etc::GMTMinus1, now).unwrap();
    assert_eq!(plus_one.start.timestamp(), utc_seconds(2025, 1, 15, 23, 0));
}

#[test]
fn relative_days_interval_end_to_end() {
    let (start, end) = test_resolve("+2..+3", make_time(10, 0));
    assert_eq!(start.timestamp(), utc_seconds(2025, 1, 17, 0, 0));
    assert_eq!(end.timestamp(), utc_seconds(2025, 1, 19, 0, 0));
    assert_eq!(start.offset_seconds(), 0);
    assert_eq!(end.offset_seconds(), 0);
}

#[test]
fn friday_to_sunday_ends_after_it_starts_for_every_weekday() {
    for day in 13..20 {
        for hour in [0, 12, 23] {
            let now = instant_of(
                FixedOffset::east_opt(0).unwrap().with_ymd_and_hms(2025, 1, day, hour, 0, 0).unwrap(),
            );
            let (start, end) = test_resolve("fri..sun", now);
            assert!(start.timestamp() < end.timestamp());
            let first = start.local_date();
            assert_eq!(end.local_date().days, first.days + 3);
        }
    }
}

#[test]
fn today_on_either_side_shifts_after_cutoff() {
    let (start, end) = test_resolve("today..fri", make_time(23, 0));
    assert_eq!(start.local_date(), ymd(2025, 1, 16));
    assert_eq!(end.local_date(), ymd(2025, 1, 18));
    let (start, end) = test_resolve("wed..today", make_time(23, 0));
    assert_eq!(start.hour(), 23);
    assert_eq!(start.local_date(), ymd(2025, 1, 15));
    assert_eq!(end.local_date(), ymd(2025, 1, 17));
}

#[test]
fn weekday_is_not_shifted_by_cutoff() {
    // 2025-01-15 is a Wednesday: "wed" is today even after the cutoff.
    let (start, end) = test_resolve("wed", make_time(23, 30));
    assert_eq!(start.local_date(), ymd(2025, 1, 15));
    assert_eq!(end.local_date(), ymd(2025, 1, 16));
}

#[test]
fn resolve_date_each_form() {
    let today = ymd(2025, 1, 15);
    let anchor = ymd(2025, 1, 17);
    assert_eq!(resolve_date(RequestedDate::Today, today, anchor), today);
    assert_eq!(resolve_date(RequestedDate::Tomorrow, today, anchor), ymd(2025, 1, 16));
    assert_eq!(resolve_date(RequestedDate::RelativeDays(16), today, anchor), ymd(2025, 1, 31));
    // The weekday search starts at the anchor, which counts when it matches.
    assert_eq!(resolve_date(RequestedDate::Weekday(Weekday::Fri), today, anchor), anchor);
    assert_eq!(resolve_date(RequestedDate::Weekday(Weekday::Thu), today, anchor), ymd(2025, 1, 23));
    assert_eq!(
        resolve_date(RequestedDate::Absolute(ymd(2020, 2, 29)), today, anchor),
        ymd(2020, 2, 29)
    );
}

#[test]
fn range_dates_search_end_weekday_from_start() {
    let today = ymd(2025, 1, 15);
    let range = (RequestedDate::Weekday(Weekday::Sat), RequestedDate::Weekday(Weekday::Thu));
    assert_eq!(resolve_range_dates(range, today, false), (ymd(2025, 1, 18), ymd(2025, 1, 23)));
    let range = (RequestedDate::Today, RequestedDate::Today);
    assert_eq!(resolve_range_dates(range, today, true), (ymd(2025, 1, 16), ymd(2025, 1, 16)));
}

#[test]
fn weekday_of_known_dates() {
    assert_eq!(ymd(2025, 1, 15).weekday(), Weekday::Wed);
    assert_eq!(ymd(1970, 1, 1).weekday(), Weekday::Thu);
    assert_eq!(ymd(1969, 12, 29).weekday(), Weekday::Mon);
    assert_eq!(Date::from_ymd(2025, 1, 15), Some(ymd(2025, 1, 15)));
    assert_eq!(Date::from_ymd(2025, 2, 30), None);
}

#[test]
fn instant_parts() {
    assert!(Instant::new(0, 1_000_000_000, 0).is_none());
    assert!(Instant::new(0, 0, 86_400).is_none());
    let before_epoch = Instant::new(-1, 0, 0).unwrap();
    assert_eq!(before_epoch.local_date(), ymd(1969, 12, 31));
    assert_eq!(before_epoch.hour(), 23);
    assert_eq!(before_epoch.minute(), 59);
    assert_eq!(before_epoch.second_of_day(), 86_399);
    let east = Instant::new(utc_seconds(2025, 1, 15, 22, 30), 0, 7200).unwrap();
    assert_eq!(east.local_date(), ymd(2025, 1, 16));
    assert_eq!(east.hour(), 0);
    assert!(before_epoch.is_before(&east));
    assert!(!east.is_before(&east));
}

#[test]
fn skipped_midnight_starts_after_the_gap() {
    // Chile moved its clocks from 00:00 (UTC-4) to 01:00 (UTC-3) on 2024-09-08.
    let now = Instant::new(Utc.with_ymd_and_hms(2024, 9, 1, 12, 0, 0).unwrap().timestamp(), 0, 0).unwrap();
    let range = parse_date_range("2024-09-08").unwrap();
    let interval = resolve_time_range(range, chrono_tz::America::Santiago, now).unwrap();
    assert_eq!(interval.start.timestamp(), Utc.with_ymd_and_hms(2024, 9, 8, 4, 0, 0).unwrap().timestamp());
    assert_eq!(interval.start.offset_seconds(), -3 * 3600);
    assert_eq!(interval.start.hour(), 1);
    assert_eq!(interval.end.timestamp(), Utc.with_ymd_and_hms(2024, 9, 9, 3, 0, 0).unwrap().timestamp());
    assert_eq!(interval.end.hour(), 0);
}
