use chrono::{TimeZone, Utc};
use openmeteo::calendar::Date;
use openmeteo::compact::{compact_codes, compact_times, compaction_buckets, most_severe_code, present_in, Bucket};
use openmeteo::instant::Instant;
use openmeteo::weather::WmoCode;

fn hour_at(day: u32, hour: u32) -> Instant {
    let t = Utc.with_ymd_and_hms(2025, 1, day, hour, 0, 0).unwrap();
    Instant::new(t.timestamp(), 0, 0).unwrap()
}

fn day_of(day: u32) -> Date {
    hour_at(day, 0).local_date()
}

#[test]
fn today_stays_hourly_and_other_days_take_three_hour_buckets() {
    // 2025-01-15 21:00 up to 2025-01-16 07:00, hourly.
    let mut times = Vec::new();
    for h in 21..24 {
        times.push(hour_at(15, h));
    }
    for h in 0..8 {
        times.push(hour_at(16, h));
    }
    let buckets = compaction_buckets(&times, day_of(15));
    assert_eq!(
        buckets,
        vec![
            Bucket { start: 0, end: 1 },
            Bucket { start: 1, end: 2 },
            Bucket { start: 2, end: 3 },
            Bucket { start: 3, end: 6 },
            Bucket { start: 6, end: 9 },
            Bucket { start: 9, end: 11 },
        ]
    );
    let shown = compact_times(&times, &buckets);
    assert_eq!(shown.iter().map(|t| t.hour()).collect::<Vec<_>>(), vec![21, 22, 23, 0, 3, 6]);
}

#[test]
fn bucket_starts_mid_slot_and_breaks_at_midnight() {
    // A series that starts at 01:00 on a day other than today, then crosses midnight at 23:00.
    let times = vec![hour_at(16, 1), hour_at(16, 2), hour_at(16, 3), hour_at(16, 22), hour_at(16, 23), hour_at(17, 0)];
    let buckets = compaction_buckets(&times, day_of(15));
    assert_eq!(
        buckets,
        vec![
            Bucket { start: 0, end: 2 },
            Bucket { start: 2, end: 3 },
            Bucket { start: 3, end: 5 },
            Bucket { start: 5, end: 6 },
        ]
    );
}

#[test]
fn empty_series_has_no_buckets() {
    assert!(compaction_buckets(&Vec::new(), day_of(15)).is_empty());
}

#[test]
fn wall_clock_decides_the_slot() {
    // 01:30 UTC is 02:30 at UTC+1, and 02:30 UTC is 03:30 there: different slots.
    let first = Instant::new(hour_at(16, 1).timestamp() + 1800, 0, 3600).unwrap();
    let second = Instant::new(hour_at(16, 2).timestamp() + 1800, 0, 3600).unwrap();
    let buckets = compaction_buckets(&vec![first, second], day_of(15));
    assert_eq!(buckets, vec![Bucket { start: 0, end: 1 }, Bucket { start: 1, end: 2 }]);
}

#[test]
fn aggregation_example_of_three_hours() {
    let bucket = Bucket { start: 0, end: 3 };
    let temps = vec![Some(10.0), Some(12.0), Some(14.0)];
    let precips = vec![Some(0.0), Some(1.0), None];
    let codes = vec![Some(WmoCode(0)), Some(WmoCode(61)), None];
    let t = present_in(&temps, bucket);
    assert_eq!(t, vec![10.0, 12.0, 14.0]);
    assert_eq!(t.iter().sum::<f64>() / t.len() as f64, 12.0);
    let p = present_in(&precips, bucket);
    assert_eq!(p, vec![0.0, 1.0]);
    assert_eq!(p.iter().sum::<f64>(), 1.0);
    assert_eq!(most_severe_code(&codes, bucket), Some(WmoCode(61)));
}

#[test]
fn absent_values_stay_absent() {
    let bucket = Bucket { start: 0, end: 3 };
    let temps: Vec<Option<f64>> = vec![None, None, None];
    assert!(present_in(&temps, bucket).is_empty());
    let codes: Vec<Option<WmoCode>> = vec![None, None, None];
    assert_eq!(most_severe_code(&codes, bucket), None);
    // Zero is a value, not an absence.
    let precips = vec![None, Some(0.0), None];
    assert_eq!(present_in(&precips, bucket), vec![0.0]);
}

#[test]
fn equally_severe_codes_keep_the_first() {
    let codes = vec![Some(WmoCode(81)), Some(WmoCode(80)), Some(WmoCode(3))];
    assert_eq!(most_severe_code(&codes, Bucket { start: 0, end: 3 }), Some(WmoCode(81)));
    // Unknown codes rank with a clear sky.
    let codes = vec![Some(WmoCode(42)), Some(WmoCode(0))];
    assert_eq!(most_severe_code(&codes, Bucket { start: 0, end: 2 }), Some(WmoCode(42)));
    let codes = vec![Some(WmoCode(1)), Some(WmoCode(95)), Some(WmoCode(71))];
    assert_eq!(most_severe_code(&codes, Bucket { start: 0, end: 3 }), Some(WmoCode(95)));
    assert_eq!(most_severe_code(&codes, Bucket { start: 2, end: 3 }), Some(WmoCode(71)));
}

#[test]
fn codes_per_bucket() {
    let codes = vec![Some(WmoCode(2)), None, Some(WmoCode(45)), Some(WmoCode(3))];
    let buckets = vec![Bucket { start: 0, end: 1 }, Bucket { start: 1, end: 4 }];
    assert_eq!(compact_codes(&codes, &buckets), vec![Some(WmoCode(2)), Some(WmoCode(45))]);
}

#[test]
fn compacting_a_compacted_axis_changes_nothing() {
    let mut times = Vec::new();
    for h in 20..24 {
        times.push(hour_at(15, h));
    }
    for h in 0..24 {
        times.push(hour_at(16, h));
    }
    let today = day_of(15);
    let once = compact_times(&times, &compaction_buckets(&times, today));
    assert_eq!(once.len(), 4 + 8);
    let again = compaction_buckets(&once, today);
    assert_eq!(again.len(), once.len());
    assert!(again.iter().all(|b| b.end == b.start + 1));
}
