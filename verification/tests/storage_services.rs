use data::arbiter_service::{merge_and_resolve, merge_and_resolve_at, merge_by_open_time};
use data::exchange::Timeframe;
use data::io_service::{self, CandleSpan, candles_in_range, chunk_window, group_into_minutes, ticks_in_range};
use data::kline_cache::KlineStore;
use data::realtime_data_service::{
    TimeRange, cache_covers, filter_ticks, normalize_key_hash_to_us, parse_timeframe, range_in_ms,
    scan_window,
};
use data::unified_data_service::{Route, join_split_klines, merge_time_ranges, route};

const HOUR_NS: u64 = 3_600_000_000_000;
const MIN_NS: u64 = 60_000_000_000;

#[test]
fn live_candles_win_inside_the_window() {
    let now = 100 * HOUR_NS;
    let live = vec![(99 * HOUR_NS, 'L'), (90 * HOUR_NS, 'l')];
    let hist = vec![(99 * HOUR_NS, 'H'), (80 * HOUR_NS, 'h'), (95 * HOUR_NS, 'x'), (70 * HOUR_NS, 'o')];
    let r = merge_and_resolve_at(&live, &hist, now);
    // History inside the last twelve hours is dropped; live wins ties.
    assert_eq!(r, vec![(70 * HOUR_NS, 'o'), (80 * HOUR_NS, 'h'), (90 * HOUR_NS, 'l'), (99 * HOUR_NS, 'L')]);
}

#[test]
fn merge_keeps_the_first_of_each_time() {
    let a = vec![(3, 'a'), (1, 'b'), (3, 'c')];
    let b = vec![(1, 'd'), (2, 'e')];
    assert_eq!(merge_by_open_time(&a, &b), vec![(1, 'b'), (2, 'e'), (3, 'a')]);
    assert_eq!(merge_and_resolve::<char>(&vec![], &vec![]), vec![]);
}

#[test]
fn routing_around_the_history_boundary() {
    let cutoff = 1_000;
    assert_eq!(route(TimeRange { start_us: 1_000, end_us: 2_000 }, cutoff), Route::Realtime);
    assert_eq!(route(TimeRange { start_us: 0, end_us: 999 }, cutoff), Route::Historical);
    assert_eq!(
        route(TimeRange { start_us: 500, end_us: 1_500 }, cutoff),
        Route::Split {
            historical: TimeRange { start_us: 500, end_us: 1_000 },
            realtime: TimeRange { start_us: 1_000, end_us: 1_500 },
        }
    );
}

#[test]
fn joined_spans_and_candles() {
    assert_eq!(merge_time_ranges(Some((5, 9)), Some((2, 7))), Some((2, 9)));
    assert_eq!(merge_time_ranges(None, Some((2, 7))), Some((2, 7)));
    assert_eq!(merge_time_ranges(None, None), None);
    let hist = vec![(1u64, 10u32), (2, 20)];
    let live = vec![(2u64, 99u32), (3, 30)];
    assert_eq!(join_split_klines(&hist, &live), vec![(1, 10), (2, 20), (3, 30)]);
}

#[test]
fn kline_store_reads_back_what_was_stored() {
    let mut store: KlineStore<u32> = KlineStore::new();
    store.insert("BTCUSDT", "1m", 120, 2);
    store.insert("BTCUSDT", "1m", 60, 1);
    store.insert("BTCUSDT", "1m", 120, 3);
    store.insert_many("BTCUSDT", "5m", &vec![(0, 7), (300, 8)]);
    assert_eq!(store.len("BTCUSDT", "1m"), 2);
    assert_eq!(store.get_range("BTCUSDT", "1m", 0, 1_000), vec![1, 3]);
    assert_eq!(store.get_range("BTCUSDT", "1m", 120, 121), vec![3]);
    assert_eq!(store.get_range("ETHUSDT", "1m", 0, 1_000), Vec::<u32>::new());
    assert_eq!(store.time_range("BTCUSDT", "5m"), Some((0, 300)));
    store.clear("BTCUSDT", "1m");
    assert_eq!(store.len("BTCUSDT", "1m"), 0);
    assert_eq!(store.len("BTCUSDT", "5m"), 2);
    store.clear_all();
    assert_eq!(store.time_range("BTCUSDT", "5m"), None);
}

#[test]
fn chunk_keys_and_timeframe_labels() {
    assert_eq!(normalize_key_hash_to_us(1_700_000_000_000_000), 1_700_000_000_000_000);
    assert_eq!(normalize_key_hash_to_us(1_700_000_000_000_000_000), 1_700_000_000_000_000);
    assert_eq!(parse_timeframe("15m"), Some(Timeframe::M15));
    assert_eq!(parse_timeframe("1d"), Some(Timeframe::D1));
    assert_eq!(parse_timeframe("2d"), None);
    assert_eq!(range_in_ms(TimeRange { start_us: 1_500, end_us: 9_999 }), (1, 9));
}

#[test]
fn scanning_starts_one_chunk_early() {
    let keys = vec![100, 200, 300, 400];
    assert_eq!(scan_window(&keys, TimeRange { start_us: 250, end_us: 350 }), (1, 3));
    assert_eq!(scan_window(&keys, TimeRange { start_us: 50, end_us: 150 }), (0, 1));
    assert_eq!(scan_window(&keys, TimeRange { start_us: 500, end_us: 600 }), (3, 4));
}

#[test]
fn ticks_inside_the_range() {
    let ts = vec![5, 10, 15, 20];
    let (kept, span) = filter_ticks(&ts, TimeRange { start_us: 10, end_us: 20 });
    assert_eq!(kept, vec![1, 2]);
    assert_eq!(span, Some((10, 15)));
    assert!(cache_covers(true, Some((0, 100)), TimeRange { start_us: 10, end_us: 90 }));
    assert!(!cache_covers(true, Some((20, 100)), TimeRange { start_us: 10, end_us: 90 }));
    assert!(!cache_covers(false, Some((0, 100)), TimeRange { start_us: 10, end_us: 90 }));
}

#[test]
fn ticks_grouped_into_minutes() {
    let ts = vec![MIN_NS + 1, MIN_NS + 5, 2 * MIN_NS, 4 * MIN_NS + 7];
    let c = group_into_minutes(&ts);
    assert_eq!(
        c,
        vec![
            CandleSpan { open_time: MIN_NS, first: 0, end: 2 },
            CandleSpan { open_time: 2 * MIN_NS, first: 2, end: 3 },
            CandleSpan { open_time: 4 * MIN_NS, first: 3, end: 4 },
        ]
    );
    let r = io_service::TimeRange { start_ns: 2 * MIN_NS, end_ns: 5 * MIN_NS };
    assert_eq!(candles_in_range(&c, r).len(), 2);
    assert_eq!(ticks_in_range(&ts, r), vec![2, 3]);
    assert!(group_into_minutes(&vec![]).is_empty());
}

#[test]
fn chunk_window_starts_at_the_first_chunk_of_the_range() {
    let keys = vec![100, 200, 300, 400];
    let r = |start_ns, end_ns| io_service::TimeRange { start_ns, end_ns };
    assert_eq!(chunk_window(&keys, r(250, 350)), (2, 3));
    assert_eq!(chunk_window(&keys, r(50, 150)), (0, 1));
    assert_eq!(chunk_window(&keys, r(200, 200)), (1, 1));
    assert_eq!(chunk_window(&keys, r(500, 600)), (4, 4));
    assert_eq!(chunk_window(&vec![], r(0, 10)), (0, 0));
}
