use data::realtime_data_service::TimeRange;
use data::time_utils::{
    DAY_US, calculate_date_range, calculate_safe_historical_cutoff, filter_historical_dates,
    is_today_at, safe_historical_cutoff_at,
};

/// 2025-11-24T00:00:00Z in microseconds.
const NOV24_US: u64 = 1_763_942_400 * 1_000_000;
const HOUR_US: u64 = 3_600_000_000;

#[test]
fn date_range_spans_every_touched_day() {
    let r = calculate_date_range(TimeRange { start_us: NOV24_US + HOUR_US, end_us: NOV24_US + 2 * DAY_US + HOUR_US });
    assert_eq!(r, vec!["2025-11-24", "2025-11-25", "2025-11-26"]);
    let one = calculate_date_range(TimeRange { start_us: NOV24_US, end_us: NOV24_US + HOUR_US });
    assert_eq!(one, vec!["2025-11-24"]);
    let epoch = calculate_date_range(TimeRange { start_us: 0, end_us: 0 });
    assert_eq!(epoch, vec!["1970-01-01"]);
}

#[test]
fn empty_range_when_end_is_before_start() {
    let r = calculate_date_range(TimeRange { start_us: NOV24_US + DAY_US, end_us: NOV24_US });
    assert!(r.is_empty());
}

#[test]
fn cutoff_is_midnight_or_the_one_before() {
    assert_eq!(safe_historical_cutoff_at(NOV24_US + 7 * HOUR_US), NOV24_US);
    assert_eq!(safe_historical_cutoff_at(NOV24_US + 5 * HOUR_US), NOV24_US - DAY_US);
    assert_eq!(safe_historical_cutoff_at(NOV24_US + 6 * HOUR_US), NOV24_US);
    let now = calculate_safe_historical_cutoff();
    assert_eq!(now % DAY_US, 0);
}

#[test]
fn historical_dates_stop_before_the_cutoff_day() {
    let mut dates = vec![
        "2025-11-22".to_string(),
        "2025-11-23".to_string(),
        "not a date".to_string(),
        "2025-11-24".to_string(),
        "2025-11-25".to_string(),
    ];
    filter_historical_dates(&mut dates, NOV24_US + 3 * HOUR_US);
    assert_eq!(dates, vec!["2025-11-22", "2025-11-23"]);
}

#[test]
fn today_is_the_utc_day_of_now() {
    let now = NOV24_US + 10 * HOUR_US;
    assert!(is_today_at(NOV24_US, now));
    assert!(is_today_at(NOV24_US + DAY_US - 1, now));
    assert!(!is_today_at(NOV24_US + DAY_US, now));
    assert!(!is_today_at(NOV24_US - 1, now));
}
