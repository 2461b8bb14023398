//! Planning reads of cached history: the part of a range history may
//! answer, the days it spans, and which of them still need a download.

use vstd::prelude::*;

use crate::event_bus::DataAvailability;
use crate::realtime_data_service::{TimeRange, filter_ticks, kept_bounds, kept_positions};

verus! {

/// The part of a range history may answer: cut at the boundary.
pub fn effective_range(range: TimeRange, safe_cutoff: u64) -> (r: TimeRange)
    ensures
        r == (TimeRange {
            start_us: range.start_us,
            end_us: if range.end_us < safe_cutoff { range.end_us } else { safe_cutoff },
        }),
{
    TimeRange {
        start_us: range.start_us,
        end_us: if range.end_us < safe_cutoff {
            range.end_us
        } else {
            safe_cutoff
        },
    }
}

/// Whether a day needs a download: its availability is unknown or it was
/// unavailable.
pub open spec fn needs_download(a: DataAvailability) -> bool {
    a == DataAvailability::Unknown || a == DataAvailability::Unavailable
}

/// The views of the days, with their availability, that need a download,
/// in order.
pub open spec fn missing_days(s: Seq<(String, DataAvailability)>) -> Seq<Seq<char>>
    decreases s.len(),
{
    if s.len() == 0 {
        Seq::empty()
    } else {
        let rest = missing_days(s.drop_last());
        if needs_download(s.last().1) {
            rest.push(s.last().0@)
        } else {
            rest
        }
    }
}

/// The days that need a download, in order.
pub fn missing_dates(results: &Vec<(String, DataAvailability)>) -> (r: Vec<String>)
    ensures
        r@.map_values(|s: String| s@) == missing_days(results@),
{
    let mut out: Vec<String> = Vec::new();
    let mut i: usize = 0;
    while i < results.len()
        invariant
            i <= results@.len(),
            out@.map_values(|s: String| s@) == missing_days(results@.take(i as int)),
        decreases results.len() - i,
    {
        proof {
            assert(results@.take(i as int + 1).drop_last() =~= results@.take(i as int));
        }
        let a = results[i].1;
        if a == DataAvailability::Unknown || a == DataAvailability::Unavailable {
            out.push(results[i].0.clone());
            proof {
                assert(out@.map_values(|s: String| s@) =~= out@.drop_last().map_values(|s: String| s@).push(results@[i as int].0@));
            }
        }
        i = i + 1;
    }
    proof {
        assert(results@.take(results@.len() as int) =~= results@);
    }
    out
}

/// Whether an open time lies inside the range.
pub fn in_range(t: u64, range: TimeRange) -> (b: bool)
    ensures
        b == (range.start_us <= t && t < range.end_us),
{
    t >= range.start_us && t < range.end_us
}

/// The wider of two optional time spans: the least start and the greatest
/// end of those present.
pub open spec fn join_spans(a: Option<(u64, u64)>, b: Option<(u64, u64)>) -> Option<(u64, u64)> {
    match (a, b) {
        (None, x) => x,
        (x, None) => x,
        (Some((s1, e1)), Some((s2, e2))) => Some((if s1 < s2 { s1 } else { s2 }, if e1 > e2 { e1 } else { e2 })),
    }
}

fn join_spans_exec(a: Option<(u64, u64)>, b: Option<(u64, u64)>) -> (r: Option<(u64, u64)>)
    ensures
        r == join_spans(a, b),
{
    match (a, b) {
        (None, x) => x,
        (x, None) => x,
        (Some((s1, e1)), Some((s2, e2))) => Some((if s1 < s2 { s1 } else { s2 }, if e1 > e2 { e1 } else { e2 })),
    }
}

/// The (day, position) of every time of days `0..k` inside the range: day
/// by day, and within a day in position order.
pub open spec fn days_kept(days: Seq<Seq<u64>>, range: TimeRange, k: int) -> Seq<(usize, usize)>
    decreases k,
{
    if k <= 0 {
        Seq::empty()
    } else {
        let d = days[k - 1];
        days_kept(days, range, k - 1) + kept_positions(d, range, d.len() as int).map_values(
            |p: usize| ((k - 1) as usize, p),
        )
    }
}

/// The least and greatest time of days `0..k` inside the range.
pub open spec fn days_bounds(days: Seq<Seq<u64>>, range: TimeRange, k: int) -> Option<(u64, u64)>
    decreases k,
{
    if k <= 0 {
        None
    } else {
        let d = days[k - 1];
        join_spans(days_bounds(days, range, k - 1), kept_bounds(d, range, d.len() as int))
    }
}

/// The views of the days' times.
pub open spec fn day_times_view(v: Seq<Vec<u64>>) -> Seq<Seq<u64>> {
    v.map_values(|d: Vec<u64>| d@)
}

/// Filters cached days to the requested range: the (day, position) of every
/// time in `[start, end)`, in day and position order, with the least and
/// greatest of those times.
pub fn keep_days_in_range(day_times_us: &Vec<Vec<u64>>, range: TimeRange) -> (r: (Vec<(usize, usize)>, Option<(u64, u64)>))
    ensures
        r.0@ == days_kept(day_times_view(day_times_us@), range, day_times_us@.len() as int),
        r.1 == days_bounds(day_times_view(day_times_us@), range, day_times_us@.len() as int),
{
    let ghost days = day_times_view(day_times_us@);
    let mut kept: Vec<(usize, usize)> = Vec::new();
    let mut bounds: Option<(u64, u64)> = None;
    let mut k: usize = 0;
    while k < day_times_us.len()
        invariant
            k <= day_times_us@.len(),
            days == day_times_view(day_times_us@),
            kept@ == days_kept(days, range, k as int),
            bounds == days_bounds(days, range, k as int),
        decreases day_times_us.len() - k,
    {
        let (pos, b) = filter_ticks(&day_times_us[k], range);
        let ghost before = kept@;
        proof {
            assert(days[k as int] == day_times_us@[k as int]@);
        }
        let mut j: usize = 0;
        while j < pos.len()
            invariant
                j <= pos@.len(),
                kept@ == before + pos@.take(j as int).map_values(|p: usize| (k, p)),
            decreases pos.len() - j,
        {
            proof {
                assert(pos@.take(j as int + 1).map_values(|p: usize| (k, p)) =~= pos@.take(j as int).map_values(
                    |p: usize| (k, p),
                ).push((k, pos@[j as int])));
            }
            kept.push((k, pos[j]));
            j = j + 1;
        }
        proof {
            assert(pos@.take(pos@.len() as int) =~= pos@);
            assert(pos@.map_values(|p: usize| (k, p)) =~= kept_positions(days[k as int], range, days[k as int].len() as int).map_values(
                |p: usize| (((k + 1) - 1) as usize, p),
            ));
        }
        bounds = join_spans_exec(bounds, b);
        k = k + 1;
    }
    (kept, bounds)
}

/// The span of the cached days' ticks: the least start and greatest end of
/// the days' spans, leaving out days without one.
pub open spec fn merged_spans(spans: Seq<Option<(u64, u64)>>) -> Option<(u64, u64)>
    decreases spans.len(),
{
    if spans.len() == 0 {
        None
    } else {
        join_spans(merged_spans(spans.drop_last()), spans.last())
    }
}

/// Merges the time spans of the cached days' ticks.
pub fn merge_day_spans(spans: &Vec<Option<(u64, u64)>>) -> (r: Option<(u64, u64)>)
    ensures
        r == merged_spans(spans@),
{
    let mut acc: Option<(u64, u64)> = None;
    let mut i: usize = 0;
    while i < spans.len()
        invariant
            i <= spans@.len(),
            acc == merged_spans(spans@.take(i as int)),
        decreases spans.len() - i,
    {
        proof {
            assert(spans@.take(i as int + 1).drop_last() =~= spans@.take(i as int));
        }
        acc = join_spans_exec(acc, spans[i]);
        i = i + 1;
    }
    proof {
        assert(spans@.take(spans@.len() as int) =~= spans@);
    }
    acc
}

} // verus!
