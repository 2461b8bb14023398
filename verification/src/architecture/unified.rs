//! Chart data requirements, chart kinds and the request deduplication of the
//! unified data manager.

use std::sync::Arc;

use vstd::prelude::*;

use crate::chart::Basis;
use crate::exchange::{Kline, TickerInfo, Trade};
use crate::exchange::adapter::Depth;

verus! {

/// Which charts use the shared data path.
#[derive(Debug, Clone, Copy, PartialEq, Eq, Structural)]
pub struct MigrationConfig {
    pub use_unified_data_manager: bool,
    pub migrate_kline_chart: bool,
    pub migrate_heatmap_chart: bool,
    pub migrate_ladder: bool,
}

impl Default for MigrationConfig {
    /// Everything on the old path.
    fn default() -> (c: Self)
        ensures
            c == (MigrationConfig {
                use_unified_data_manager: false,
                migrate_kline_chart: false,
                migrate_heatmap_chart: false,
                migrate_ladder: false,
            }),
    {
        MigrationConfig {
            use_unified_data_manager: false,
            migrate_kline_chart: false,
            migrate_heatmap_chart: false,
            migrate_ladder: false,
        }
    }
}

impl MigrationConfig {
    /// Whether the candle chart takes its data from the shared path: the
    /// shared manager is on and the chart has moved to it.
    pub fn kline_chart_uses_unified(&self) -> (b: bool)
        ensures
            b == (self.use_unified_data_manager && self.migrate_kline_chart),
    {
        self.use_unified_data_manager && self.migrate_kline_chart
    }
}

/// What data a chart needs and supports.
#[derive(Debug, Clone, Copy, PartialEq, Eq, Structural)]
pub struct DataRequirements {
    pub needs_klines: bool,
    pub needs_trades: bool,
    pub needs_depth: bool,
    pub needs_open_interest: bool,
    pub supports_historical: bool,
    pub supports_tick_basis: bool,
}

impl Default for DataRequirements {
    /// Needs and supports nothing.
    fn default() -> (r: Self)
        ensures
            r == (DataRequirements {
                needs_klines: false,
                needs_trades: false,
                needs_depth: false,
                needs_open_interest: false,
                supports_historical: false,
                supports_tick_basis: false,
            }),
    {
        DataRequirements {
            needs_klines: false,
            needs_trades: false,
            needs_depth: false,
            needs_open_interest: false,
            supports_historical: false,
            supports_tick_basis: false,
        }
    }
}

/// Live data handed to charts.
#[derive(Debug, Clone)]
pub enum RealtimeData {
    DepthAndTrades { depth: Depth, trades: Vec<Trade>, time: u64 },
    Kline(Kline),
}

/// Kinds of chart.
#[derive(Debug, Clone, Copy, PartialEq, Eq, Structural, Hash)]
pub enum ChartType {
    Kline,
    Heatmap,
    Ladder,
    TimeAndSales,
    Comparison,
}

/// A span of data to fetch, in milliseconds.
#[derive(Debug, Clone, Copy, PartialEq, Eq, Structural, Hash)]
pub enum FetchRange {
    Kline(u64, u64),
    OpenInterest(u64, u64),
    Trades(u64, u64),
}

impl FetchRange {
    /// End of the span.
    pub fn end(&self) -> (e: u64)
        ensures
            e == match *self {
                FetchRange::Kline(_, e) => e,
                FetchRange::OpenInterest(_, e) => e,
                FetchRange::Trades(_, e) => e,
            },
    {
        match *self {
            FetchRange::Kline(_, e) => e,
            FetchRange::OpenInterest(_, e) => e,
            FetchRange::Trades(_, e) => e,
        }
    }
}

/// Identifies a request: ticker, span and chart basis.
#[derive(Debug, Clone)]
pub struct DataKey {
    pub ticker: TickerInfo,
    pub range: FetchRange,
    pub basis: Basis,
}

/// A data key taken by value.
pub type DataKeyV = (((Seq<char>, crate::exchange::adapter::Exchange), crate::exchange::PriceStep, u64, Option<u64>), FetchRange, Basis);

impl View for DataKey {
    type V = DataKeyV;

    open spec fn view(&self) -> DataKeyV {
        (self.ticker@, self.range, self.basis)
    }
}

impl DataKey {
    /// Whether two keys name the same data.
    pub fn same_as(&self, other: &DataKey) -> (b: bool)
        ensures
            b == (self@ == other@),
    {
        self.ticker.same_as(&other.ticker) && self.range == other.range && self.basis
            == other.basis
    }

    /// An owned copy.
    pub fn duplicate(&self) -> (r: DataKey)
        ensures
            r@ == self@,
    {
        DataKey {
            ticker: crate::exchange::adapter::copy_ticker_info(&self.ticker),
            range: self.range,
            basis: self.basis,
        }
    }
}

/// How a data request is served.
#[derive(Debug, Clone)]
pub enum RequestResult<D> {
    /// From the cache.
    Cached(Arc<D>),
    /// By a fetch already in flight.
    Pending,
    /// By a new fetch of this key.
    NewRequest(DataKey),
}

} // verus!
