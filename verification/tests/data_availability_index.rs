use data::data_availability_index::{AvailabilityTable, DataAvailabilityStatus};
use data::event_bus::DataAvailability;

const NOW: u64 = 1_764_000_000;

#[test]
fn test_check_availability_unknown() {
    let index = AvailabilityTable::new();
    let status = index.check_availability("BTCUSDT", "2025-11-25");
    assert_eq!(status, DataAvailability::Unknown);
}

#[test]
fn test_update_and_check_availability() {
    let mut index = AvailabilityTable::new();

    index.update_availability("BTCUSDT", "2025-11-25", DataAvailability::Available, NOW);
    let status = index.check_availability("BTCUSDT", "2025-11-25");
    assert_eq!(status, DataAvailability::Available);

    index.update_availability("BTCUSDT", "2025-11-25", DataAvailability::Downloading, NOW + 1);
    let status = index.check_availability("BTCUSDT", "2025-11-25");
    assert_eq!(status, DataAvailability::Downloading);
}

#[test]
fn test_check_date_range() {
    let mut index = AvailabilityTable::new();

    index.update_availability("BTCUSDT", "2025-11-25", DataAvailability::Available, NOW);
    index.update_availability("BTCUSDT", "2025-11-24", DataAvailability::Unavailable, NOW);

    let dates = vec!["2025-11-25".to_string(), "2025-11-24".to_string(), "2025-11-23".to_string()];
    let results = index.check_date_range("BTCUSDT", &dates);

    assert_eq!(results.len(), 3);
    assert_eq!(results[0].1, DataAvailability::Available);
    assert_eq!(results[1].1, DataAvailability::Unavailable);
    assert_eq!(results[2].1, DataAvailability::Unknown);
    assert_eq!(results[2].0, "2025-11-23");
}

#[test]
fn update_leaves_other_days_and_symbols_alone() {
    let mut index = AvailabilityTable::new();
    index.update_availability("BTCUSDT", "2025-11-25", DataAvailability::Partial, NOW);
    index.update_availability("ETHUSDT", "2025-11-25", DataAvailability::Available, NOW);
    index.update_availability("BTCUSDT", "2025-11-24", DataAvailability::Unavailable, NOW);

    assert_eq!(index.check_availability("BTCUSDT", "2025-11-25"), DataAvailability::Partial);
    assert_eq!(index.check_availability("ETHUSDT", "2025-11-25"), DataAvailability::Available);
    assert_eq!(index.check_availability("ETHUSDT", "2025-11-24"), DataAvailability::Unknown);
}

#[test]
fn symbols_and_dates_listed_once_in_first_order() {
    let mut index = AvailabilityTable::new();
    index.update_availability("BTCUSDT", "2025-11-25", DataAvailability::Available, NOW);
    index.update_availability("ETHUSDT", "2025-11-25", DataAvailability::Available, NOW);
    index.update_availability("BTCUSDT", "2025-11-24", DataAvailability::Available, NOW);
    index.update_availability("BTCUSDT", "2025-11-25", DataAvailability::Downloading, NOW);

    assert_eq!(index.get_all_symbols(), vec!["BTCUSDT".to_string(), "ETHUSDT".to_string()]);
    assert_eq!(
        index.get_dates_for_symbol("BTCUSDT"),
        vec!["2025-11-25".to_string(), "2025-11-24".to_string()]
    );
    assert!(index.get_dates_for_symbol("SOLUSDT").is_empty());
}

#[test]
fn last_checked_is_the_latest_update() {
    let mut index = AvailabilityTable::new();
    assert_eq!(index.get_last_checked("BTCUSDT", "2025-11-25"), None);
    index.update_availability("BTCUSDT", "2025-11-25", DataAvailability::Available, NOW);
    index.update_availability("BTCUSDT", "2025-11-25", DataAvailability::Available, NOW + 60);
    assert_eq!(index.get_last_checked("BTCUSDT", "2025-11-25"), Some(NOW + 60));
}

#[test]
fn status_conversion_round_trips() {
    for a in [
        DataAvailability::Available,
        DataAvailability::Downloading,
        DataAvailability::Unavailable,
        DataAvailability::Partial,
        DataAvailability::Unknown,
    ] {
        let s = DataAvailabilityStatus::from(a);
        assert_eq!(DataAvailability::from(s), a);
    }
    assert_eq!(DataAvailabilityStatus::from(DataAvailability::Partial), DataAvailabilityStatus::Partial);
}
