//! Chart-level settings: how the x-axis aggregates data and how the view
//! scales.

pub mod heatmap;
pub mod kline;

use vstd::prelude::*;

use crate::exchange::adapter::spec_supports_heatmap_timeframe;
use crate::aggr::time::{DataPoint, DataPyramid, base_of, fold_high, fold_low};
use crate::exchange::{Price, TickerInfo, Timeframe, heatmap_timeframes};
use crate::timemap::{lower_bound, upper_bound};

verus! {

/// How the price axis follows the data.
#[derive(Debug, Clone, Copy, PartialEq, Eq, Structural)]
pub enum Autoscale {
    CenterLatest,
    FitToVisible,
}

impl Default for Autoscale {
    fn default() -> (a: Self)
        ensures
            a == Autoscale::CenterLatest,
    {
        Autoscale::CenterLatest
    }
}

/// How chart data is aggregated along the x-axis: by a fixed time interval,
/// or by a fixed number of trades per data point.
#[derive(Debug, Clone, Copy, PartialEq, Eq, Structural)]
pub enum Basis {
    Time(Timeframe),
    Tick(u16),
}

/// Index of the first heatmap interval that `ex` supports, or the number of
/// heatmap intervals when it supports none.
pub open spec fn first_supported(
    ex: crate::exchange::adapter::Exchange,
    tfs: Seq<Timeframe>,
) -> int
    decreases tfs.len(),
{
    if tfs.len() == 0 {
        0
    } else if spec_supports_heatmap_timeframe(ex, tfs[0]) {
        0
    } else {
        1 + first_supported(ex, tfs.drop_first())
    }
}

/// The heatmap interval chosen for a ticker: the finest one its exchange
/// supports, falling back to half a second.
pub open spec fn spec_default_heatmap_interval(ticker_info: Option<TickerInfo>) -> Timeframe {
    match ticker_info {
        None => Timeframe::MS500,
        Some(info) => {
            let i = first_supported(info.ticker.exchange, heatmap_timeframes());
            if i < heatmap_timeframes().len() {
                heatmap_timeframes()[i]
            } else {
                Timeframe::MS500
            }
        },
    }
}

impl Basis {
    pub fn is_time(&self) -> (b: bool)
        ensures
            b == (*self is Time),
    {
        match self {
            Basis::Time(_) => true,
            Basis::Tick(_) => false,
        }
    }

    /// Time basis for a heatmap: the finest heatmap interval that the
    /// ticker's exchange supports, or half a second without a ticker or a
    /// supported interval.
    pub fn default_heatmap_time(ticker_info: Option<TickerInfo>) -> (b: Basis)
        ensures
            b == Basis::Time(spec_default_heatmap_interval(ticker_info)),
    {
        let fallback = Timeframe::MS500;
        match ticker_info {
            None => Basis::Time(fallback),
            Some(info) => {
                let ex = info.exchange();
                let tfs = Timeframe::heatmap();
                let mut i: usize = 0;
                while i < tfs.len()
                    invariant
                        tfs@ == heatmap_timeframes(),
                        ticker_info == Some(info),
                        ex == info.ticker.exchange,
                        0 <= i <= tfs@.len(),
                        forall|j: int| 0 <= j < i ==> !spec_supports_heatmap_timeframe(ex, tfs@[j]),
                    decreases tfs.len() - i,
                {
                    if ex.supports_heatmap_timeframe(tfs[i]) {
                        proof {
                            lemma_first_supported_is(ex, tfs@, i as int);
                        }
                        return Basis::Time(tfs[i]);
                    }
                    i = i + 1;
                }
                proof {
                    lemma_first_supported_none(ex, tfs@);
                }
                Basis::Time(fallback)
            },
        }
    }

    /// The time basis of an interval.
    pub fn from_timeframe(timeframe: Timeframe) -> (b: Basis)
        ensures
            b == Basis::Time(timeframe),
    {
        Basis::Time(timeframe)
    }
}

proof fn lemma_first_supported_is(
    ex: crate::exchange::adapter::Exchange,
    tfs: Seq<Timeframe>,
    i: int,
)
    requires
        0 <= i < tfs.len(),
        spec_supports_heatmap_timeframe(ex, tfs[i]),
        forall|j: int| 0 <= j < i ==> !spec_supports_heatmap_timeframe(ex, tfs[j]),
    ensures
        first_supported(ex, tfs) == i,
    decreases tfs.len(),
{
    if i > 0 {
        let t = tfs.drop_first();
        assert forall|j: int| 0 <= j < i - 1 implies !spec_supports_heatmap_timeframe(ex, t[j]) by {
            assert(t[j] == tfs[j + 1]);
        }
        lemma_first_supported_is(ex, t, i - 1);
    }
}

proof fn lemma_first_supported_none(ex: crate::exchange::adapter::Exchange, tfs: Seq<Timeframe>)
    requires
        forall|j: int| 0 <= j < tfs.len() ==> !spec_supports_heatmap_timeframe(ex, tfs[j]),
    ensures
        first_supported(ex, tfs) == tfs.len(),
    decreases tfs.len(),
{
    if tfs.len() > 0 {
        let t = tfs.drop_first();
        assert forall|j: int| 0 <= j < t.len() implies !spec_supports_heatmap_timeframe(ex, t[j]) by {
            assert(t[j] == tfs[j + 1]);
        }
        lemma_first_supported_none(ex, t);
    }
}

/// The data behind a chart, aggregated by time.
pub enum PlotData<D: DataPoint> {
    TimeBased(DataPyramid<D>),
}

impl<D: DataPoint> PlotData<D> {
    /// Lowest low and highest high of the base data points from `start` to
    /// `end` (both included); `None` when there are none.
    pub fn visible_price_range(&self, start: u64, end: u64) -> (r: Option<(Price, Price)>)
        requires
            match self {
                PlotData::TimeBased(ts) => ts.wf() && (ts.levels@.len() > 0 ==> start <= end),
            },
        ensures
            match self {
                PlotData::TimeBased(ts) => {
                    let s = base_of(ts@);
                    let lo = lower_bound(s, start) as int;
                    let hi = upper_bound(s, end) as int;
                    let w = s.subrange(lo, hi);
                    r == if ts@.levels.len() == 0 || lo >= hi {
                        None::<(Price, Price)>
                    } else {
                        Some((fold_low::<D>(w), fold_high::<D>(w)))
                    }
                },
            },
    {
        match self {
            PlotData::TimeBased(ts) => ts.min_max_price_in_range_prices(start, end),
        }
    }
}

} // verus!
