//! Reading live data back: which stored chunks a time range touches, which
//! ticks it keeps, and when cached candles can answer a request.

use std::sync::Arc;

use vstd::prelude::*;

use crate::exchange::Timeframe;
use crate::symbol_resolver::SymbolResolver;
use crate::text::str_eq;

verus! {

/// A filesystem path.
#[verifier::external_type_specification]
#[verifier::external_body]
pub struct ExPathBuf(std::path::PathBuf);

/// A span of time in microseconds: start included, end excluded.
#[derive(Debug, Clone, Copy, PartialEq, Eq, Structural)]
pub struct TimeRange {
    pub start_us: u64,
    pub end_us: u64,
}

/// A chunk key in microseconds: keys above 10^18 were stored in
/// nanoseconds and are scaled down.
pub open spec fn spec_normalize_key(k: u64) -> u64 {
    if k > 1_000_000_000_000_000_000 {
        (k / 1000) as u64
    } else {
        k
    }
}

/// A chunk key in microseconds, scaling down keys stored in nanoseconds.
pub fn normalize_key_hash_to_us(key_hash: u64) -> (r: u64)
    ensures
        r == spec_normalize_key(key_hash),
{
    if key_hash > 1_000_000_000_000_000_000 {
        key_hash / 1_000
    } else {
        key_hash
    }
}

/// The candle timeframe a label such as "5m" names.
pub open spec fn spec_parse_timeframe(s: Seq<char>) -> Option<Timeframe> {
    if s == "1m"@ {
        Some(Timeframe::M1)
    } else if s == "3m"@ {
        Some(Timeframe::M3)
    } else if s == "5m"@ {
        Some(Timeframe::M5)
    } else if s == "15m"@ {
        Some(Timeframe::M15)
    } else if s == "30m"@ {
        Some(Timeframe::M30)
    } else if s == "1h"@ {
        Some(Timeframe::H1)
    } else if s == "2h"@ {
        Some(Timeframe::H2)
    } else if s == "4h"@ {
        Some(Timeframe::H4)
    } else if s == "6h"@ {
        Some(Timeframe::H6)
    } else if s == "12h"@ {
        Some(Timeframe::H12)
    } else if s == "1d"@ {
        Some(Timeframe::D1)
    } else {
        None
    }
}

/// Parses a candle timeframe label: "1m", "3m", "5m", "15m", "30m", "1h",
/// "2h", "4h", "6h", "12h" or "1d".
pub fn parse_timeframe(s: &str) -> (r: Option<Timeframe>)
    ensures
        r == spec_parse_timeframe(s@),
{
    if str_eq(s, "1m") {
        Some(Timeframe::M1)
    } else if str_eq(s, "3m") {
        Some(Timeframe::M3)
    } else if str_eq(s, "5m") {
        Some(Timeframe::M5)
    } else if str_eq(s, "15m") {
        Some(Timeframe::M15)
    } else if str_eq(s, "30m") {
        Some(Timeframe::M30)
    } else if str_eq(s, "1h") {
        Some(Timeframe::H1)
    } else if str_eq(s, "2h") {
        Some(Timeframe::H2)
    } else if str_eq(s, "4h") {
        Some(Timeframe::H4)
    } else if str_eq(s, "6h") {
        Some(Timeframe::H6)
    } else if str_eq(s, "12h") {
        Some(Timeframe::H12)
    } else if str_eq(s, "1d") {
        Some(Timeframe::D1)
    } else {
        None
    }
}

/// Index of the first key at or after `i` whose normalised value is at
/// least `t`, or the length.
pub open spec fn first_key_at_least(keys: Seq<u64>, t: u64, i: int) -> int
    decreases keys.len() - i,
{
    if i < 0 || i >= keys.len() {
        keys.len() as int
    } else if spec_normalize_key(keys[i]) >= t {
        i
    } else {
        first_key_at_least(keys, t, i + 1)
    }
}

/// The chunks a range reads, as index bounds into the chunk keys: from the
/// chunk before the first one starting at or after the range start (it may
/// still hold ticks of the range), up to the first later chunk starting at
/// or after the range end.
pub open spec fn spec_scan_window(keys: Seq<u64>, range: TimeRange) -> (int, int) {
    let start_idx = first_key_at_least(keys, range.start_us, 0);
    let scan = if start_idx == 0 {
        0
    } else {
        start_idx - 1
    };
    (scan, first_key_at_least(keys, range.end_us, scan))
}

fn first_at_least(keys: &Vec<u64>, t: u64, from: usize) -> (r: usize)
    requires
        from <= keys@.len(),
    ensures
        r == first_key_at_least(keys@, t, from as int),
        from <= r <= keys@.len(),
{
    let mut i = from;
    while i < keys.len()
        invariant
            from <= i <= keys@.len(),
            first_key_at_least(keys@, t, from as int) == first_key_at_least(keys@, t, i as int),
        decreases keys.len() - i,
    {
        if normalize_key_hash_to_us(keys[i]) >= t {
            return i;
        }
        i = i + 1;
    }
    i
}

/// Index bounds of the chunks a range reads, given the chunk keys in index
/// order.
pub fn scan_window(keys: &Vec<u64>, range: TimeRange) -> (r: (usize, usize))
    ensures
        r.0 == spec_scan_window(keys@, range).0,
        r.1 == spec_scan_window(keys@, range).1,
        r.0 <= r.1 <= keys@.len(),
{
    let start_idx = first_at_least(keys, range.start_us, 0);
    let scan = if start_idx == 0 {
        0
    } else {
        start_idx - 1
    };
    let end = first_at_least(keys, range.end_us, scan);
    (scan, end)
}

/// Ticks kept from a chunk: positions of the times inside the range, in
/// order, and the earliest and latest kept time.
pub open spec fn kept_positions(ts: Seq<u64>, range: TimeRange, n: int) -> Seq<usize>
    decreases n,
{
    if n <= 0 {
        Seq::empty()
    } else {
        let rest = kept_positions(ts, range, n - 1);
        if range.start_us <= ts[n - 1] && ts[n - 1] < range.end_us {
            rest.push((n - 1) as usize)
        } else {
            rest
        }
    }
}

/// Earliest and latest time among the kept ticks, folded into `acc`.
pub open spec fn kept_bounds(ts: Seq<u64>, range: TimeRange, n: int) -> Option<(u64, u64)>
    decreases n,
{
    if n <= 0 {
        None
    } else {
        let rest = kept_bounds(ts, range, n - 1);
        let t = ts[n - 1];
        if range.start_us <= t && t < range.end_us {
            match rest {
                None => Some((t, t)),
                Some((a, b)) => Some((if t < a { t } else { a }, if t > b { t } else { b })),
            }
        } else {
            rest
        }
    }
}

/// Positions of the tick times inside `range`, in order, with the earliest
/// and latest of them.
pub fn filter_ticks(ts: &Vec<u64>, range: TimeRange) -> (r: (Vec<usize>, Option<(u64, u64)>))
    ensures
        r.0@ == kept_positions(ts@, range, ts@.len() as int),
        r.1 == kept_bounds(ts@, range, ts@.len() as int),
{
    let mut kept: Vec<usize> = Vec::new();
    let mut bounds: Option<(u64, u64)> = None;
    let mut i: usize = 0;
    while i < ts.len()
        invariant
            i <= ts@.len(),
            kept@ == kept_positions(ts@, range, i as int),
            bounds == kept_bounds(ts@, range, i as int),
        decreases ts.len() - i,
    {
        let t = ts[i];
        if t >= range.start_us && t < range.end_us {
            kept.push(i);
            bounds = match bounds {
                None => Some((t, t)),
                Some((a, b)) => Some((if t < a { t } else { a }, if t > b { t } else { b })),
            };
        }
        i = i + 1;
    }
    (kept, bounds)
}

/// Whether cached candles answer a request: some were found in the range
/// and the cached series spans the whole range.
pub fn cache_covers(found_any: bool, cached_span: Option<(u64, u64)>, range: TimeRange) -> (b: bool)
    ensures
        b == (found_any && match cached_span {
            Some((lo, hi)) => lo <= range.start_us && hi >= range.end_us,
            None => false,
        }),
{
    if !found_any {
        return false;
    }
    match cached_span {
        Some((lo, hi)) => lo <= range.start_us && hi >= range.end_us,
        None => false,
    }
}

/// The range in milliseconds, as the exchange API takes it.
pub fn range_in_ms(range: TimeRange) -> (r: (u64, u64))
    ensures
        r == ((range.start_us / 1000) as u64, (range.end_us / 1000) as u64),
{
    (range.start_us / 1000, range.end_us / 1000)
}

/// Reads live data of symbols from their stored files, with an optional
/// candle cache.
#[derive(Debug)]
pub struct RealtimeDataService<C> {
    pub data_dir: std::path::PathBuf,
    pub kline_cache: Option<Arc<C>>,
    pub symbol_resolver: SymbolResolver,
}

impl<C> RealtimeDataService<C> {
    /// A service reading from `data_dir`, without a candle cache.
    pub fn new(data_dir: std::path::PathBuf) -> (s: Self)
        ensures
            s.data_dir == data_dir,
            s.kline_cache is None,
            s.symbol_resolver == SymbolResolver,
    {
        RealtimeDataService { data_dir, kline_cache: None, symbol_resolver: SymbolResolver::new() }
    }

    /// Uses `cache` for candle requests.
    pub fn set_kline_cache(&mut self, cache: Arc<C>)
        ensures
            final(self).kline_cache == Some(cache),
            final(self).data_dir == old(self).data_dir,
            final(self).symbol_resolver == old(self).symbol_resolver,
    {
        self.kline_cache = Some(cache);
    }
}

} // verus!
