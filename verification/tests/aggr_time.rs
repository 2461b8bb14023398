use data::aggr::time::DataPyramid;
use data::chart::Basis;
use data::chart::PlotData;
use data::chart::heatmap::{GroupedTrade, HeatmapDataPoint};
use data::chart::kline::hvn::HVNCalculator;
use data::chart::kline::{GroupedTrades, KlineDataPoint, KlineTrades, NPoc};
use data::exchange::{Kline, Price, PriceStep, Timeframe, Trade};

const MIN: u64 = 60_000;

fn p(units: i64) -> Price {
    Price { units }
}

fn kline(time: u64, open: i64, high: i64, low: i64, close: i64) -> Kline {
    Kline {
        time,
        open: p(open),
        high: p(high),
        low: p(low),
        close: p(close),
        buy_volume: time / MIN + 1,
        sell_volume: 2 * (time / MIN) + 1,
    }
}

fn trade(time: u64, is_sell: bool, price: i64, qty: u64) -> Trade {
    Trade { time, is_sell, price: p(price), qty }
}

fn pyramid(times: &[u64]) -> DataPyramid<KlineDataPoint> {
    let klines: Vec<Kline> = times.iter().map(|&t| kline(t, 100, 110 + (t / MIN) as i64, 90, 105)).collect();
    DataPyramid::<KlineDataPoint>::new(Timeframe::M1, PriceStep { units: 1 }, &klines)
}

#[test]
fn integrity_check_lists_missing_minutes() {
    let py = pyramid(&[0, MIN, 3 * MIN]);
    assert_eq!(py.check_kline_integrity(0, 4 * MIN, MIN), Some(vec![2 * MIN]));
    assert_eq!(py.check_kline_integrity(0, 2 * MIN, MIN), None);
    assert_eq!(py.check_kline_integrity(0, 6 * MIN, MIN), Some(vec![2 * MIN, 4 * MIN, 5 * MIN]));
}

#[test]
fn pyramid_gets_a_five_minute_level() {
    let times: Vec<u64> = (0..7).map(|i| i * MIN).collect();
    let py = pyramid(&times);
    assert_eq!(py.levels.len(), 2);
    assert_eq!(py.levels[1].0, Timeframe::M5);
    let level = &py.levels[1].1.entries;
    assert_eq!(level.len(), 2);
    assert_eq!(level[0].0, 0);
    assert_eq!(level[1].0, 5 * MIN);
    // The first run merges five candles: highs widen, volumes add.
    assert_eq!(level[0].1.kline.high, p(114));
    assert_eq!(level[0].1.kline.buy_volume, 1 + 2 + 3 + 4 + 5);
    assert_eq!(level[1].1.kline.sell_volume, 11 + 13);
}

#[test]
fn building_twice_changes_nothing() {
    let times: Vec<u64> = (0..7).map(|i| i * MIN).collect();
    let mut py = pyramid(&times);
    let before = py.levels[1].1.entries.len();
    py.build_pyramid();
    assert_eq!(py.levels.len(), 2);
    assert_eq!(py.levels[1].1.entries.len(), before);
}

#[test]
fn latest_values_and_timerange() {
    let py = pyramid(&[MIN, 2 * MIN, 5 * MIN]);
    assert_eq!(py.latest_timestamp(), Some(5 * MIN));
    assert_eq!(py.timerange(), (MIN, 5 * MIN));
    assert_eq!(py.base_price(), p(105));
    assert_eq!(py.latest_kline().map(|k| k.time), Some(5 * MIN));

    let empty = pyramid(&[]);
    assert_eq!(empty.latest_timestamp(), None);
    assert_eq!(empty.timerange(), (0, 0));
    assert_eq!(empty.base_price(), p(0));
}

#[test]
fn price_range_over_a_window() {
    let py = pyramid(&[0, MIN, 2 * MIN, 3 * MIN]);
    assert_eq!(py.min_max_price_in_range_prices(MIN, 2 * MIN), Some((p(90), p(112))));
    assert_eq!(py.min_max_price_in_range_prices(10 * MIN, 20 * MIN), None);
    let plot = PlotData::TimeBased(py);
    assert_eq!(plot.visible_price_range(0, 3 * MIN), Some((p(90), p(113))));
}

#[test]
fn volumes_by_time() {
    let py = pyramid(&[0, MIN]);
    assert_eq!(py.volume_data(), vec![(0, (1, 1)), (MIN, (2, 3))]);
}

#[test]
fn trades_open_missing_buckets_and_set_the_poc() {
    let py = pyramid(&[0]);
    let trades = vec![
        trade(1_000, false, 100, 5),
        trade(2_000, true, 101, 7),
        trade(3_000, false, 100, 4),
        trade(MIN + 500, true, 120, 1),
    ];
    let with = py.with_trades(&trades);
    let base = &with.levels[0].1.entries;
    assert_eq!(base.len(), 2);
    let first = &base[0].1;
    assert_eq!(first.footprint.trades.len(), 2);
    let poc = first.footprint.poc.unwrap();
    assert_eq!(poc.price, p(100));
    assert_eq!(poc.volume, 9);
    // The bucket opened by the trade has every price at the trade price.
    let opened = &base[1].1;
    assert_eq!(base[1].0, MIN);
    assert_eq!(opened.kline.open, p(120));
    assert_eq!(opened.kline.low, p(120));
    assert_eq!(opened.footprint.poc.unwrap().volume, 1);
}

#[test]
fn trades_outside_existing_buckets_are_dropped() {
    let mut py = pyramid(&[0]);
    py.insert_trades_existing_buckets(&[trade(10, false, 100, 3), trade(5 * MIN, false, 100, 3)]);
    assert_eq!(py.levels[0].1.entries.len(), 1);
    assert_eq!(py.levels[0].1.entries[0].1.footprint.trades.len(), 1);
}

#[test]
fn naked_and_filled_points_of_control() {
    let mut py = pyramid(&[0, MIN, 2 * MIN]);
    py.insert_trades_or_create_bucket(&[trade(10, false, 95, 3), trade(MIN + 10, false, 200, 3)]);
    py.update_poc_status();
    let base = &py.levels[0].1.entries;
    // 95 lies inside the next candle's range [90, 111]: filled there.
    assert_eq!(base[0].1.footprint.poc.unwrap().status, NPoc::Filled { at: MIN });
    // 200 lies above every later candle: naked.
    assert_eq!(base[1].1.footprint.poc.unwrap().status, NPoc::Naked);
}

#[test]
fn fetch_range_without_any_trades_is_the_visible_window() {
    let py = pyramid(&[0, MIN]);
    assert_eq!(py.suggest_trade_fetch_range(100, 900), Some((100, 900)));
}

#[test]
fn fetch_range_fills_the_gap_before_newer_trades() {
    let mut py = pyramid(&[0, MIN, 2 * MIN]);
    py.insert_trades_existing_buckets(&[trade(500, false, 100, 1), trade(2 * MIN + 700, false, 100, 1)]);
    // The middle minute has no trades: fetch between the trades around it.
    assert_eq!(py.suggest_trade_fetch_range(0, 10 * MIN), Some((501, 2 * MIN + 699)));
}

#[test]
fn changing_the_tick_size_regroups_the_trades() {
    let mut py = pyramid(&[0]);
    let trades = vec![trade(1_000, false, 101, 2), trade(2_000, false, 104, 3)];
    py.insert_trades_existing_buckets(&trades);
    assert_eq!(py.levels[0].1.entries[0].1.footprint.trades.len(), 2);
    py.change_tick_size(PriceStep { units: 10 }, &trades);
    assert_eq!(py.tick_size, PriceStep { units: 10 });
    let fp = &py.levels[0].1.entries[0].1.footprint;
    assert_eq!(fp.trades.len(), 1);
    assert_eq!(fp.trades[0].0, p(100));
    assert_eq!(fp.poc.unwrap().volume, 5);
}

#[test]
fn integrity_reports_every_gap_on_an_empty_series() {
    let py = pyramid(&[]);
    assert_eq!(py.check_kline_integrity(0, 3 * MIN, MIN), Some(vec![0, MIN, 2 * MIN]));
}

fn heat_point(groups: Vec<GroupedTrade>) -> HeatmapDataPoint {
    HeatmapDataPoint { grouped_trades: groups, buy_volume: 0, sell_volume: 0 }
}

#[test]
fn heatmap_largest_trade_and_volume() {
    let mut py = DataPyramid::<HeatmapDataPoint>::new(Basis::Time(Timeframe::MS500), PriceStep { units: 1 });
    assert_eq!(py.levels.len(), 1);
    py.levels[0].1.entries.push((
        0,
        heat_point(vec![
            GroupedTrade { is_sell: false, price: p(10), qty: 4 },
            GroupedTrade { is_sell: true, price: p(11), qty: 6 },
        ]),
    ));
    py.levels[0].1.entries.push((500, heat_point(vec![GroupedTrade { is_sell: true, price: p(9), qty: 8 }])));
    assert_eq!(py.max_trade_qty_and_aggr_volume(0, 500), (8, 10));
    assert_eq!(py.max_trade_qty_and_aggr_volume(100, 400), (0, 0));
    assert_eq!(py.max_trade_qty_and_aggr_volume(500, 500), (8, 8));
}

#[test]
fn volume_profile_by_rounded_price() {
    let g = |buy: u64, sell: u64| GroupedTrades { buy_qty: buy, sell_qty: sell, first_time: 0, last_time: 0, buy_count: 1, sell_count: 1 };
    let a = KlineTrades { trades: vec![(p(101), g(2, 1)), (p(-7), g(4, 0))], poc: None };
    let b = KlineTrades { trades: vec![(p(99), g(0, 5)), (p(126), g(1, 1))], poc: None };
    let calc = HVNCalculator::new(PriceStep { units: 10 });
    assert_eq!(calc.bucket_trades(&[&a, &b]), vec![(p(-10), 4), (p(100), 8), (p(130), 2)]);
    assert!(calc.bucket_trades(&[]).is_empty());
}

#[test]
fn existing_bucket_insert_matches_creating_insert_when_all_buckets_exist() {
    let trades = vec![trade(10, false, 95, 3), trade(MIN + 10, true, 101, 2), trade(20, true, 96, 1)];
    let mut a = pyramid(&[0, MIN, 2 * MIN]);
    let mut b = pyramid(&[0, MIN, 2 * MIN]);
    a.insert_trades_existing_buckets(&trades);
    b.insert_trades_or_create_bucket(&trades);
    assert_eq!(format!("{:?}", a.levels), format!("{:?}", b.levels));
    let c = pyramid(&[0, MIN, 2 * MIN]).with_trades(&trades);
    assert_eq!(format!("{:?}", c.levels), format!("{:?}", b.levels));
}

#[test]
fn recording_trades_keeps_the_upper_levels() {
    let times: Vec<u64> = (0..7).map(|i| i * MIN).collect();
    let py = pyramid(&times);
    let with = py.with_trades(&[trade(10, false, 95, 3), trade(30 * MIN, false, 95, 3)]);
    assert_eq!(with.levels.len(), py.levels.len());
    assert_eq!(format!("{:?}", with.levels[1]), format!("{:?}", py.levels[1]));
    assert_eq!(with.levels[0].1.entries.len(), py.levels[0].1.entries.len() + 1);
}

#[test]
fn empty_trade_buffers_change_nothing() {
    let mut empty: DataPyramid<KlineDataPoint> =
        DataPyramid { levels: Vec::new(), base_interval: Timeframe::M1, tick_size: PriceStep { units: 1 } };
    empty.insert_trades_or_create_bucket(&[]);
    empty.insert_trades_existing_buckets(&[]);
    assert!(empty.levels.is_empty());
    assert!(empty.with_trades(&[]).levels.is_empty());
    let py = pyramid(&[0, MIN]);
    assert_eq!(format!("{:?}", py.with_trades(&[]).levels), format!("{:?}", py.levels));
}

#[test]
fn the_built_level_has_at_most_a_fifth_of_the_base() {
    let times: Vec<u64> = (0..12).map(|i| i * MIN).collect();
    let py = pyramid(&times);
    assert_eq!(py.levels.len(), 2);
    assert!(py.levels[1].1.entries.len() >= 1 && py.levels[1].1.entries.len() <= 3);
    let mut daily: DataPyramid<KlineDataPoint> =
        DataPyramid { levels: Vec::new(), base_interval: Timeframe::D1, tick_size: PriceStep { units: 1 } };
    daily.build_pyramid();
    assert!(daily.levels.is_empty());
}
