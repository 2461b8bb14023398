//! Market-data layer: exchange model types, time-bucketed aggregation,
//! caches, availability bookkeeping and download scheduling, with their
//! contracts proved by Verus.

pub mod exchange;
pub mod text;
pub mod timemap;
pub mod aggr;
pub mod arbiter_service;
pub mod architecture;
pub mod chart;
pub mod compute;
pub mod data_availability_index;
pub mod event_bus;
pub mod historical_data_service;
pub mod historical_download_coordinator;
pub mod ingester;
pub mod io_service;
pub mod kline_cache;
pub mod log;
pub mod realtime_data_service;
pub mod realtime_ingester;
pub mod symbol_resolver;
pub mod time_utils;
pub mod unified_data_service;
