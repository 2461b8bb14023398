use data::architecture::sharing::{DataKey, DataRequestResult, DataSourceManager};
use data::architecture::unified::FetchRange;
use data::exchange::adapter::Exchange;
use data::exchange::{PriceStep, Ticker, TickerInfo};

fn ticker() -> TickerInfo {
    TickerInfo::new(Ticker::new("BTCUSDT", Exchange::BinanceLinear), PriceStep { units: 10 }, 1, None)
}

fn key(range: FetchRange) -> DataKey {
    DataKey { ticker: ticker(), range }
}

#[test]
fn test_data_sharing() {
    let mut manager: DataSourceManager<Vec<u64>> = DataSourceManager::new(100);
    let range = FetchRange::Trades(1000, 2000);

    // Two charts ask for the same data: the first starts a fetch, the
    // second waits for it.
    let first = manager.request_data(key(range), 1, 10);
    assert!(matches!(first, DataRequestResult::NewRequest(_)));
    let second = manager.request_data(key(range), 2, 11);
    assert!(matches!(second, DataRequestResult::Pending));
    assert_eq!(manager.pending.len(), 1);

    // The data arrives once; both charts are notified and it is stored once.
    let notified = manager.on_data_fetched(key(range), vec![1, 2, 3], 12);
    assert_eq!(notified, vec![1u128, 2u128]);
    assert!(manager.pending.is_empty());
    assert_eq!(manager.cache.len(), 1);

    match manager.request_data(key(range), 3, 13) {
        DataRequestResult::Cached(d) => assert_eq!(*d, vec![1, 2, 3]),
        _ => panic!("expected cached data"),
    }
    assert_eq!(manager.cache[0].subscribers, vec![1u128, 2u128, 3u128]);
    assert_eq!(manager.cache[0].last_accessed, 13);
}

#[test]
fn other_ranges_are_fetched_apart() {
    let mut manager: DataSourceManager<u32> = DataSourceManager::new(100);
    let a = manager.request_data(key(FetchRange::Trades(1000, 2000)), 1, 0);
    let b = manager.request_data(key(FetchRange::Kline(1000, 2000)), 1, 0);
    assert!(matches!(a, DataRequestResult::NewRequest(_)));
    assert!(matches!(b, DataRequestResult::NewRequest(_)));
    assert_eq!(manager.pending.len(), 2);
}

#[test]
fn a_subscriber_is_listed_once() {
    let mut manager: DataSourceManager<u32> = DataSourceManager::new(100);
    let range = FetchRange::Kline(0, 60_000);
    manager.request_data(key(range), 7, 0);
    manager.request_data(key(range), 7, 1);
    assert_eq!(manager.pending[0].subscribers, vec![7u128]);
}

#[test]
fn overfull_cache_evicts_the_oldest_tenth() {
    let mut manager: DataSourceManager<u32> = DataSourceManager::new(10);
    for i in 0..11u64 {
        manager.on_data_fetched(key(FetchRange::Kline(i, i + 1)), i as u32, 100 + i);
    }
    // Eleven entries exceed the limit of ten: one (the oldest) is evicted.
    assert_eq!(manager.cache.len(), 10);
    assert!(manager.cache.iter().all(|c| c.last_accessed != 100));
}

#[test]
fn unsubscribing_the_last_subscriber_drops_the_data() {
    let mut manager: DataSourceManager<u32> = DataSourceManager::new(10);
    let range = FetchRange::OpenInterest(5, 6);
    manager.request_data(key(range), 1, 0);
    manager.request_data(key(range), 2, 0);
    manager.on_data_fetched(key(range), 42, 1);
    manager.unsubscribe(&key(range), 1);
    assert_eq!(manager.cache.len(), 1);
    assert_eq!(manager.cache[0].subscribers, vec![2u128]);
    manager.unsubscribe(&key(range), 2);
    assert!(manager.cache.is_empty());
}
