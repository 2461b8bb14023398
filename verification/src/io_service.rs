//! Turning stored ticks into one-minute candles: which ticks a range keeps
//! and how they group into candles.

use vstd::prelude::*;

verus! {

/// A span of time in nanoseconds: start included, end excluded.
#[derive(Debug, Clone, Copy, PartialEq, Eq, Structural)]
pub struct TimeRange {
    pub start_ns: u64,
    pub end_ns: u64,
}

/// One minute in nanoseconds.
pub open spec fn minute_ns() -> u64 {
    60_000_000_000
}

/// Open time of the one-minute candle holding time `t` (nanoseconds).
pub open spec fn minute_of(t: u64) -> u64 {
    ((t / 60_000_000_000) * 60_000_000_000) as u64
}

/// Whether the times are in non-decreasing order.
pub open spec fn times_sorted(ts: Seq<u64>) -> bool {
    forall|i: int, j: int| 0 <= i <= j < ts.len() ==> ts[i] <= ts[j]
}

/// Whether pair `a` comes before or equals pair `b`: by time, then by
/// position.
pub open spec fn pair_le(a: (u64, usize), b: (u64, usize)) -> bool {
    a.0 < b.0 || (a.0 == b.0 && a.1 <= b.1)
}

/// Whether the pairs are in non-decreasing (time, position) order.
pub open spec fn pairs_sorted(s: Seq<(u64, usize)>) -> bool {
    forall|i: int, j: int| 0 <= i <= j < s.len() ==> pair_le(#[trigger] s[i], #[trigger] s[j])
}

/// Sorts (time, position) pairs in ascending order: by time, then position.
///
/// Trusted: calls `slice::sort_unstable` on the pairs, which std documents as
/// sorting them ascending by the tuples' order; the contract claims the
/// result is in that order and holds the same pairs.
#[verifier::external_body]
pub(crate) fn sort_pairs(v: &mut Vec<(u64, usize)>)
    ensures
        pairs_sorted(final(v)@),
        final(v)@.to_multiset() == old(v)@.to_multiset(),
{
    v.sort_unstable()
}

/// A candle over a run of time-ordered ticks: its open time and the
/// positions of its first tick and one past its last.
#[derive(Debug, Clone, Copy, PartialEq, Eq, Structural)]
pub struct CandleSpan {
    pub open_time: u64,
    pub first: usize,
    pub end: usize,
}

/// The candles of the ticks `ts[i..]` while the open candle starts at
/// `open` and holds `ts[first..i]`: consecutive ticks of one minute share a
/// candle.
pub open spec fn candles_from(ts: Seq<u64>, i: int, open: u64, first: int) -> Seq<CandleSpan>
    decreases ts.len() - i,
{
    if i >= ts.len() {
        seq![CandleSpan { open_time: open, first: first as usize, end: i as usize }]
    } else if minute_of(ts[i]) == open {
        candles_from(ts, i + 1, open, first)
    } else {
        seq![CandleSpan { open_time: open, first: first as usize, end: i as usize }] + candles_from(
            ts,
            i + 1,
            minute_of(ts[i]),
            i,
        )
    }
}

/// The one-minute candles of ticks with times `ts`, in order, none without
/// ticks.
pub open spec fn candles_of(ts: Seq<u64>) -> Seq<CandleSpan> {
    if ts.len() == 0 {
        Seq::empty()
    } else {
        candles_from(ts, 1, minute_of(ts[0]), 0)
    }
}

/// Groups ticks, by their times in nanoseconds, into one-minute candles.
pub fn group_into_minutes(ts: &Vec<u64>) -> (r: Vec<CandleSpan>)
    ensures
        r@ == candles_of(ts@),
{
    let mut out: Vec<CandleSpan> = Vec::new();
    let n = ts.len();
    if n == 0 {
        return out;
    }
    let interval: u64 = 60_000_000_000;
    let mut open = (ts[0] / interval) * interval;
    let mut first: usize = 0;
    let mut i: usize = 1;
    while i < n
        invariant
            n == ts@.len(),
            interval == 60_000_000_000,
            first < i <= n,
            out@ + candles_from(ts@, i as int, open, first as int) == candles_of(ts@),
        decreases n - i,
    {
        let m = (ts[i] / interval) * interval;
        if m != open {
            proof {
                let x = CandleSpan { open_time: open, first: first, end: i };
                assert(out@.push(x) + candles_from(ts@, i + 1, m, i as int) =~= out@ + (seq![x]
                    + candles_from(ts@, i + 1, m, i as int)));
            }
            out.push(CandleSpan { open_time: open, first, end: i });
            open = m;
            first = i;
        }
        i = i + 1;
    }
    proof {
        assert(out@.push(CandleSpan { open_time: open, first: first, end: n }) =~= out@ + seq![CandleSpan { open_time: open, first: first, end: n }]);
    }
    out.push(CandleSpan { open_time: open, first, end: n });
    out
}

/// The candles whose open time lies inside the range, in order.
pub fn candles_in_range(c: &Vec<CandleSpan>, range: TimeRange) -> (r: Vec<CandleSpan>)
    ensures
        r@ == c@.filter(|k: CandleSpan| range.start_ns <= k.open_time && k.open_time < range.end_ns),
{
    let mut out: Vec<CandleSpan> = Vec::new();
    let mut i: usize = 0;
    while i < c.len()
        invariant
            i <= c@.len(),
            out@ == c@.take(i as int).filter(|k: CandleSpan| range.start_ns <= k.open_time && k.open_time < range.end_ns),
        decreases c.len() - i,
    {
        proof {
            reveal(Seq::filter);
            assert(c@.take(i as int + 1).drop_last() =~= c@.take(i as int));
            assert(c@.take(i as int + 1).last() == c@[i as int]);
        }
        let k = c[i];
        if range.start_ns <= k.open_time && k.open_time < range.end_ns {
            out.push(k);
        }
        i = i + 1;
    }
    proof {
        assert(c@.take(c@.len() as int) =~= c@);
    }
    out
}

/// Positions of `ts[0..n]` whose time lies in `[lo, hi)`, in order.
pub open spec fn positions_in(ts: Seq<u64>, lo: u64, hi: u64, n: int) -> Seq<usize>
    decreases n,
{
    if n <= 0 {
        Seq::empty()
    } else {
        let rest = positions_in(ts, lo, hi, n - 1);
        if lo <= ts[n - 1] && ts[n - 1] < hi {
            rest.push((n - 1) as usize)
        } else {
            rest
        }
    }
}

/// Positions of the tick times inside the range, in order.
pub fn ticks_in_range(ts: &Vec<u64>, range: TimeRange) -> (r: Vec<usize>)
    ensures
        r@ == positions_in(ts@, range.start_ns, range.end_ns, ts@.len() as int),
{
    let mut out: Vec<usize> = Vec::new();
    let mut i: usize = 0;
    while i < ts.len()
        invariant
            i <= ts@.len(),
            out@ == positions_in(ts@, range.start_ns, range.end_ns, i as int),
        decreases ts.len() - i,
    {
        if ts[i] >= range.start_ns && ts[i] < range.end_ns {
            out.push(i);
        }
        i = i + 1;
    }
    out
}

/// Number of leading chunk keys below `t` in `keys[..n]`, counted from the
/// back: for ascending keys, the first position of a key at or after `t`.
pub open spec fn keys_below(keys: Seq<u64>, t: u64, n: int) -> int
    decreases n,
{
    if n <= 0 {
        0
    } else if keys[n - 1] < t {
        n
    } else {
        keys_below(keys, t, n - 1)
    }
}

/// First position at or after `i` whose key is at least `t`, or the length.
pub open spec fn first_key_from(keys: Seq<u64>, t: u64, i: int) -> int
    decreases keys.len() - i,
{
    if i < 0 || i >= keys.len() {
        keys.len() as int
    } else if keys[i] >= t {
        i
    } else {
        first_key_from(keys, t, i + 1)
    }
}

/// For ascending keys, the position of the first key at or after `t` splits
/// the keys into those below `t` and the rest.
proof fn lemma_keys_below(keys: Seq<u64>, t: u64, n: int)
    requires
        times_sorted(keys),
        0 <= n <= keys.len(),
    ensures
        0 <= keys_below(keys, t, n) <= n,
        forall|j: int| 0 <= j < keys_below(keys, t, n) ==> keys[j] < t,
        forall|j: int| keys_below(keys, t, n) <= j < n ==> keys[j] >= t,
    decreases n,
{
    if n > 0 {
        lemma_keys_below(keys, t, n - 1);
        if keys[n - 1] < t {
            assert forall|j: int| 0 <= j < n implies keys[j] < t by {
                assert(keys[j] <= keys[n - 1]);
            }
        }
    }
}

/// The chunks a range reads, as positions in the ascending chunk keys: from
/// the first chunk keyed at or after the range start, up to the first one
/// from there keyed at or after the range end.
pub fn chunk_window(keys: &Vec<u64>, range: TimeRange) -> (r: (usize, usize))
    requires
        times_sorted(keys@),
    ensures
        r.0 == keys_below(keys@, range.start_ns, keys@.len() as int),
        r.1 == first_key_from(keys@, range.end_ns, r.0 as int),
        r.0 <= r.1 <= keys@.len(),
{
    let n = keys.len();
    proof {
        lemma_keys_below(keys@, range.start_ns, n as int);
    }
    let mut lo: usize = 0;
    let mut hi: usize = n;
    while lo < hi
        invariant
            n == keys@.len(),
            times_sorted(keys@),
            lo <= hi <= n,
            lo <= keys_below(keys@, range.start_ns, n as int) <= hi,
            0 <= keys_below(keys@, range.start_ns, n as int) <= n,
            forall|j: int| 0 <= j < keys_below(keys@, range.start_ns, n as int) ==> keys@[j] < range.start_ns,
            forall|j: int| keys_below(keys@, range.start_ns, n as int) <= j < n ==> keys@[j] >= range.start_ns,
        decreases hi - lo,
    {
        let mid = lo + (hi - lo) / 2;
        if keys[mid] < range.start_ns {
            lo = mid + 1;
        } else {
            hi = mid;
        }
    }
    let start = lo;
    let mut end = start;
    while end < n && keys[end] < range.end_ns
        invariant
            n == keys@.len(),
            start <= end <= n,
            first_key_from(keys@, range.end_ns, start as int) == first_key_from(keys@, range.end_ns, end as int),
        decreases n - end,
    {
        end = end + 1;
    }
    (start, end)
}

} // verus!
