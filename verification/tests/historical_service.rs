use data::historical_data_service::{keep_days_in_range, merge_day_spans};
use data::realtime_data_service::TimeRange;

#[test]
fn days_are_filtered_to_the_requested_range() {
    let days = vec![vec![5, 10, 15], vec![], vec![20, 25, 9, 30]];
    let (kept, bounds) = keep_days_in_range(&days, TimeRange { start_us: 10, end_us: 30 });
    assert_eq!(kept, vec![(0, 1), (0, 2), (2, 0), (2, 1)]);
    assert_eq!(bounds, Some((10, 25)));
    let (kept, bounds) = keep_days_in_range(&days, TimeRange { start_us: 40, end_us: 50 });
    assert!(kept.is_empty());
    assert_eq!(bounds, None);
}

#[test]
fn day_spans_merge_to_the_widest() {
    assert_eq!(merge_day_spans(&vec![Some((5, 9)), None, Some((2, 7)), Some((6, 12))]), Some((2, 12)));
    assert_eq!(merge_day_spans(&vec![None, None]), None);
}
