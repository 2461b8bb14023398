# data

The data layer of a market-data charting application: candle and footprint
aggregation, volume profiles, live trade ingestion into a chunked store,
historical downloads and their scheduling, and the routing between live and
historical sources. The library is written in Verus; every function in
`src/` carries a contract that Verus proves.

Layout:

- `src/exchange.rs`, `src/exchange/adapter.rs`, `src/exchange/adapter/`:
  prices in fixed-point units and their rounding, timeframes, tickers,
  exchanges and streams, Binance endpoints and stream addresses, depth-sync
  decisions, the set of distinct streams in use, and the rows of the daily
  ZIP/CSV archives.
- `src/timemap.rs`: an ordered map from timestamps to values.
- `src/aggr/time.rs`: the time-bucketed pyramid of candles or heatmap points
  (trade insertion, points of control, integrity checks, coarser levels).
- `src/chart/`: chart bases, candle footprints, heatmap points, and the
  volume profile behind high-volume nodes.
- `src/compute/vp.rs`: splitting a histogram pass into dispatches and turning
  its histogram into a volume profile.
- `src/realtime_ingester.rs`, `src/realtime_ingester/chunk_index.rs`,
  `src/realtime_ingester/store_format.rs`: symbol normalisation, ingestion
  commands, history paging and chunking, and the index and byte layout of
  the chunked trade store.
- `src/realtime_data_service.rs`, `src/io_service.rs`, `src/kline_cache.rs`,
  `src/arbiter_service.rs`, `src/unified_data_service.rs`,
  `src/historical_data_service.rs`, `src/time_utils.rs`: reading stored
  ticks and candles, the live candle cache, merging live and historical
  candles, routing around the history boundary, and calendar arithmetic.
- `src/data_availability_index.rs`, `src/historical_download_coordinator.rs`,
  `src/event_bus.rs`: what is downloaded, what to download next, and how
  failed downloads are retried.
- `src/architecture/`: chart data requirements and sharing fetched data
  between charts.
- `tests/`: tests of the library.
- `app/`: the ingestion program and the parts that do I/O or float
  arithmetic (the availability index on disk, the event bus, high-volume node
  detection, the value-area target).
