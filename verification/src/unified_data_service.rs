//! Routing a request between live and historical storage around the history
//! boundary, and joining the two answers.

use vstd::prelude::*;

use crate::arbiter_service::{is_merge_of, merge_by_open_time};
use crate::realtime_data_service::TimeRange;

verus! {

/// Where a request for a time range is served from.
#[derive(Debug, Clone, Copy, PartialEq, Eq, Structural)]
pub enum Route {
    /// Entirely from live storage.
    Realtime,
    /// Entirely from history.
    Historical,
    /// History up to the boundary, live storage from it on.
    Split { historical: TimeRange, realtime: TimeRange },
}

/// Routes a range around the history boundary `safe_cutoff`: a range
/// starting at or after it is live, one ending before it is historical, and
/// any other is split at it.
pub fn route(range: TimeRange, safe_cutoff: u64) -> (r: Route)
    ensures
        r == if range.start_us >= safe_cutoff {
            Route::Realtime
        } else if range.end_us < safe_cutoff {
            Route::Historical
        } else {
            Route::Split {
                historical: TimeRange { start_us: range.start_us, end_us: safe_cutoff },
                realtime: TimeRange { start_us: safe_cutoff, end_us: range.end_us },
            }
        },
{
    if range.start_us >= safe_cutoff {
        Route::Realtime
    } else if range.end_us < safe_cutoff {
        Route::Historical
    } else {
        Route::Split {
            historical: TimeRange { start_us: range.start_us, end_us: safe_cutoff },
            realtime: TimeRange { start_us: safe_cutoff, end_us: range.end_us },
        }
    }
}

/// The span covering two optional spans.
pub open spec fn spec_merge_spans(a: Option<(u64, u64)>, b: Option<(u64, u64)>) -> Option<(u64, u64)> {
    match (a, b) {
        (Some((s1, e1)), Some((s2, e2))) => Some((if s1 < s2 { s1 } else { s2 }, if e1 > e2 { e1 } else { e2 })),
        (Some(x), None) => Some(x),
        (None, Some(y)) => Some(y),
        (None, None) => None,
    }
}

/// The span covering two optional spans of data.
pub fn merge_time_ranges(a: Option<(u64, u64)>, b: Option<(u64, u64)>) -> (r: Option<(u64, u64)>)
    ensures
        r == spec_merge_spans(a, b),
{
    match (a, b) {
        (Some((s1, e1)), Some((s2, e2))) => Some((if s1 < s2 { s1 } else { s2 }, if e1 > e2 { e1 } else { e2 })),
        (Some(x), None) => Some(x),
        (None, Some(y)) => Some(y),
        (None, None) => None,
    }
}

/// Joins the historical and live candles of a split request: one candle per
/// open time in increasing order, the historical one where both have it.
pub fn join_split_klines<V: Copy>(historical: &Vec<(u64, V)>, realtime: &Vec<(u64, V)>) -> (r: Vec<(u64, V)>)
    ensures
        is_merge_of(r@, historical@ + realtime@),
{
    merge_by_open_time(historical, realtime)
}

} // verus!
