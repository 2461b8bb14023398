//! Arbitration between live and historical candles: recent candles come
//! from the live store, older ones from history, one candle per open time.

use vstd::prelude::*;

use crate::io_service::{pair_le, pairs_sorted, sort_pairs};

verus! {

/// The live window: the last twelve hours, in nanoseconds.
pub open spec fn live_window_ns() -> u64 {
    43_200_000_000_000
}

/// Start of the live window at time `now_ns`.
pub open spec fn live_window_start(now_ns: u64) -> u64 {
    if now_ns >= 43_200_000_000_000 {
        (now_ns - 43_200_000_000_000) as u64
    } else {
        0
    }
}

/// The candles competing for the merge: every live candle, then the
/// historical candles that open before the live window.
pub open spec fn merge_candidates<V>(live: Seq<(u64, V)>, hist: Seq<(u64, V)>, now_ns: u64) -> Seq<(u64, V)> {
    live + hist.filter(|k: (u64, V)| k.0 < live_window_start(now_ns))
}

/// Whether some pair of `order` holds position `i`.
pub open spec fn holds_position(order: Seq<(u64, usize)>, i: int) -> bool {
    exists|x: int| 0 <= x < order.len() && #[trigger] order[x].1 == i as usize
}

/// Whether `i` is the first position of `s` holding open time `t`.
pub open spec fn first_with_time<V>(s: Seq<(u64, V)>, i: int, t: u64) -> bool {
    0 <= i < s.len() && s[i].0 == t && forall|j: int| 0 <= j < i ==> s[j].0 != t
}

/// Whether candle `v` is the first candidate of `c` with its open time.
pub open spec fn picked_first<V>(c: Seq<(u64, V)>, v: (u64, V)) -> bool {
    exists|i: int| #[trigger] first_with_time(c, i, v.0) && c[i] == v
}

/// Whether `r` is the merge of the candidates `c`: one candle per open time
/// of `c`, in increasing open time, each the first candidate with that time
/// (so a live candle wins over a historical one).
pub open spec fn is_merge_of<V>(r: Seq<(u64, V)>, c: Seq<(u64, V)>) -> bool {
    &&& forall|a: int, b: int| 0 <= a < b < r.len() ==> #[trigger] r[a].0 < #[trigger] r[b].0
    &&& forall|a: int| 0 <= a < r.len() ==> #[trigger] picked_first(c, r[a])
    &&& forall|i: int| 0 <= i < c.len() ==> exists|a: int| 0 <= a < r.len() && #[trigger] r[a].0 == #[trigger] c[i].0
}

/// Live data wins: in a merge of live and historical candles, the first live
/// candle of each open time is the one kept, and every kept candle that
/// opens inside the live window is a live candle.
pub proof fn law_live_candle_wins<V>(
    r: Seq<(u64, V)>,
    live: Seq<(u64, V)>,
    hist: Seq<(u64, V)>,
    now_ns: u64,
)
    requires
        is_merge_of(r, merge_candidates(live, hist, now_ns)),
    ensures
        forall|i: int|
            #[trigger] first_with_time(live, i, live[i].0) ==> exists|a: int|
                0 <= a < r.len() && #[trigger] r[a] == live[i],
        forall|a: int|
            0 <= a < r.len() && #[trigger] r[a].0 >= live_window_start(now_ns) ==> exists|i: int|
                0 <= i < live.len() && #[trigger] live[i] == r[a],
{
    let c = merge_candidates(live, hist, now_ns);
    let f = hist.filter(|k: (u64, V)| k.0 < live_window_start(now_ns));
    assert(c == live + f);
    assert forall|i: int| #[trigger] first_with_time(live, i, live[i].0) implies exists|a: int|
        0 <= a < r.len() && #[trigger] r[a] == live[i] by {
        let t = live[i].0;
        assert(c[i] == live[i]);
        assert(first_with_time(c, i, t));
        let a = choose|a: int| 0 <= a < r.len() && #[trigger] r[a].0 == #[trigger] c[i].0;
        assert(picked_first(c, r[a]));
        let i2 = choose|i2: int| #[trigger] first_with_time(c, i2, r[a].0) && c[i2] == r[a];
        if i2 < i {
            assert(c[i2].0 == t);
        } else if i < i2 {
            assert(c[i].0 == t);
        }
        assert(r[a] == live[i]);
    }
    assert forall|a: int| 0 <= a < r.len() && #[trigger] r[a].0 >= live_window_start(now_ns) implies exists|i: int|
        0 <= i < live.len() && #[trigger] live[i] == r[a] by {
        assert(picked_first(c, r[a]));
        let i2 = choose|i2: int| #[trigger] first_with_time(c, i2, r[a].0) && c[i2] == r[a];
        if i2 >= live.len() {
            let k = i2 - live.len();
            assert(c[i2] == f[k]);
            hist.lemma_filter_pred(|e: (u64, V)| e.0 < live_window_start(now_ns), k);
            assert(f[k].0 < live_window_start(now_ns));
        }
        assert(live[i2] == r[a]);
    }
}

/// Merges live and historical candles (each an open time in nanoseconds
/// with its candle) at time `now_ns`: historical candles inside the live
/// window are dropped, the rest are ordered by open time and only the first
/// candle of each open time is kept.
pub fn merge_and_resolve_at<V: Copy>(live: &Vec<(u64, V)>, hist: &Vec<(u64, V)>, now_ns: u64) -> (r: Vec<(u64, V)>)
    ensures
        is_merge_of(r@, merge_candidates(live@, hist@, now_ns)),
{
    let window_start = now_ns.saturating_sub(43_200_000_000_000);
    let mut combined: Vec<(u64, V)> = Vec::new();
    let mut i: usize = 0;
    while i < live.len()
        invariant
            i <= live@.len(),
            combined@ == live@.take(i as int),
        decreases live.len() - i,
    {
        combined.push(live[i]);
        proof {
            assert(live@.take(i as int + 1) =~= live@.take(i as int).push(live@[i as int]));
        }
        i = i + 1;
    }
    proof {
        assert(live@.take(live@.len() as int) =~= live@);
    }
    let ghost keep = |k: (u64, V)| k.0 < live_window_start(now_ns);
    let mut j: usize = 0;
    while j < hist.len()
        invariant
            j <= hist@.len(),
            window_start == live_window_start(now_ns),
            keep == (|k: (u64, V)| k.0 < live_window_start(now_ns)),
            combined@ == live@ + hist@.take(j as int).filter(keep),
        decreases hist.len() - j,
    {
        proof {
            reveal(Seq::filter);
            assert(hist@.take(j as int + 1).drop_last() =~= hist@.take(j as int));
            assert(hist@.take(j as int + 1).last() == hist@[j as int]);
        }
        if hist[j].0 < window_start {
            combined.push(hist[j]);
            proof {
                assert(combined@ =~= live@ + hist@.take(j as int + 1).filter(keep));
            }
        }
        j = j + 1;
    }
    proof {
        assert(hist@.take(hist@.len() as int) =~= hist@);
    }
    let ghost c = combined@;
    let mut order: Vec<(u64, usize)> = Vec::new();
    let mut k: usize = 0;
    while k < combined.len()
        invariant
            k <= combined@.len(),
            order@.len() == k,
            forall|x: int| 0 <= x < k ==> #[trigger] order@[x] == (combined@[x].0, x as usize),
        decreases combined.len() - k,
    {
        order.push((combined[k].0, k));
        k = k + 1;
    }
    let ghost unsorted = order@;
    let total = combined.len();
    sort_pairs(&mut order);
    proof {
        lemma_sorted_pairs_props(unsorted, order@, c);
    }
    let r = dedup_sorted(&combined, &order);
    proof {
        assert(c =~= merge_candidates(live@, hist@, now_ns));
    }
    r
}

/// One candle per open time from `first` followed by `second`, in
/// increasing open time, each the first of its open time (a candle of
/// `first` wins over one of `second`).
pub fn merge_by_open_time<V: Copy>(first: &Vec<(u64, V)>, second: &Vec<(u64, V)>) -> (r: Vec<(u64, V)>)
    ensures
        is_merge_of(r@, first@ + second@),
{
    let mut combined: Vec<(u64, V)> = Vec::new();
    let mut i: usize = 0;
    while i < first.len()
        invariant
            i <= first@.len(),
            combined@ == first@.take(i as int),
        decreases first.len() - i,
    {
        combined.push(first[i]);
        proof {
            assert(first@.take(i as int + 1) =~= first@.take(i as int).push(first@[i as int]));
        }
        i = i + 1;
    }
    let mut j: usize = 0;
    while j < second.len()
        invariant
            j <= second@.len(),
            combined@ == first@ + second@.take(j as int),
        decreases second.len() - j,
    {
        combined.push(second[j]);
        proof {
            assert(first@ + second@.take(j as int + 1) =~= (first@ + second@.take(j as int)).push(second@[j as int]));
        }
        j = j + 1;
    }
    proof {
        assert(first@.take(first@.len() as int) =~= first@);
        assert(second@.take(second@.len() as int) =~= second@);
    }
    let ghost c = combined@;
    let mut order: Vec<(u64, usize)> = Vec::new();
    let mut k: usize = 0;
    while k < combined.len()
        invariant
            k <= combined@.len(),
            order@.len() == k,
            forall|x: int| 0 <= x < k ==> #[trigger] order@[x] == (combined@[x].0, x as usize),
        decreases combined.len() - k,
    {
        order.push((combined[k].0, k));
        k = k + 1;
    }
    let ghost unsorted = order@;
    let total = combined.len();
    sort_pairs(&mut order);
    proof {
        lemma_sorted_pairs_props(unsorted, order@, c);
    }
    dedup_sorted(&combined, &order)
}

/// The current time in nanoseconds since the Unix epoch, 0 where it does
/// not fit in an `i64`.
fn utc_now_nanos() -> u64 {
    let ns = crate::time_utils::clock_nanos();
    if ns > 0x7fff_ffff_ffff_ffffu128 {
        0
    } else {
        ns as u64
    }
}

/// Merges live and historical candles now: see `merge_and_resolve_at`.
pub fn merge_and_resolve<V: Copy>(live: &Vec<(u64, V)>, hist: &Vec<(u64, V)>) -> (r: Vec<(u64, V)>)
    ensures
        exists|now_ns: u64| is_merge_of(r@, #[trigger] merge_candidates(live@, hist@, now_ns)),
{
    let now = utc_now_nanos();
    let r = merge_and_resolve_at(live, hist, now);
    assert(is_merge_of(r@, merge_candidates(live@, hist@, now)));
    r
}

/// One candle per open time from candidates `combined`, given their
/// (open time, position) pairs in ascending order: the first candidate of
/// each open time, in increasing open time.
#[verifier::rlimit(40)]
fn dedup_sorted<V: Copy>(combined: &Vec<(u64, V)>, order: &Vec<(u64, usize)>) -> (out: Vec<(u64, V)>)
    requires
        pairs_sorted(order@),
        order@.len() == combined@.len(),
        forall|x: int| 0 <= x < order@.len() ==> (#[trigger] order@[x]).1 < combined@.len() && combined@[order@[x].1 as int].0 == order@[x].0,
        forall|i: int| 0 <= i < combined@.len() ==> #[trigger] holds_position(order@, i),
    ensures
        is_merge_of(out@, combined@),
{
    let ghost c = combined@;
    let mut out: Vec<(u64, V)> = Vec::new();
    let mut m: usize = 0;
    while m < order.len()
        invariant
            c == combined@,
            m <= order@.len(),
            pairs_sorted(order@),
            order@.len() == c.len(),
            forall|x: int| 0 <= x < order@.len() ==> (#[trigger] order@[x]).1 < c.len() && c[order@[x].1 as int].0 == order@[x].0,
            forall|i: int| 0 <= i < c.len() ==> #[trigger] holds_position(order@, i),
            forall|a: int, b: int| 0 <= a < b < out@.len() ==> #[trigger] out@[a].0 < #[trigger] out@[b].0,
            out@.len() > 0 ==> m > 0 && out@.last().0 == order@[m - 1].0,
            out@.len() == 0 <==> m == 0,
            forall|a: int| 0 <= a < out@.len() ==> #[trigger] picked_first(c, out@[a]),
            forall|x: int| 0 <= x < m ==> exists|a: int| 0 <= a < out@.len() && #[trigger] out@[a].0 == #[trigger] order@[x].0,
        decreases order.len() - m,
    {
        let (t, pos) = order[m];
        let fresh = out.len() == 0 || out[out.len() - 1].0 != t;
        if fresh {
            proof {
                lemma_first_in_group(c, order@, m as int);
                if m > 0 {
                    assert(pair_le(order@[m - 1], order@[m as int]));
                }
            }
            let ghost before = out@;
            out.push(combined[pos]);
            proof {
                assert(out@[out@.len() - 1] == c[pos as int]);
                assert(first_with_time(c, pos as int, out@[out@.len() - 1].0));
                assert forall|a: int, b: int| 0 <= a < b < out@.len() implies #[trigger] out@[a].0 < #[trigger] out@[b].0 by {
                    if b == out@.len() - 1 && a < b {
                        assert(out@[a].0 <= before.last().0);
                    }
                }
                assert(first_with_time(c, pos as int, out@.last().0));
                assert forall|a: int| 0 <= a < out@.len() implies #[trigger] picked_first(c, out@[a]) by {
                    if a < before.len() {
                        assert(out@[a] == before[a]);
                        assert(picked_first(c, before[a]));
                    } else {
                        assert(first_with_time(c, pos as int, out@[a].0) && c[pos as int] == out@[a]);
                    }
                }
                assert forall|x: int| 0 <= x < m + 1 implies exists|a: int| 0 <= a < out@.len() && #[trigger] out@[a].0 == #[trigger] order@[x].0 by {
                    if x < m {
                        let a = choose|a: int| 0 <= a < before.len() && #[trigger] before[a].0 == #[trigger] order@[x].0;
                        assert(out@[a] == before[a]);
                    } else {
                        assert(out@[out@.len() - 1].0 == order@[x].0);
                    }
                }
            }
        } else {
            proof {
                assert forall|x: int| 0 <= x < m + 1 implies exists|a: int| 0 <= a < out@.len() && #[trigger] out@[a].0 == #[trigger] order@[x].0 by {
                    if x == m {
                        assert(out@[out@.len() - 1].0 == order@[x].0);
                    }
                }
            }
        }
        m = m + 1;
    }
    proof {
        assert forall|i: int| 0 <= i < c.len() implies exists|a: int| 0 <= a < out@.len() && #[trigger] out@[a].0 == #[trigger] c[i].0 by {
            assert(holds_position(order@, i));
            let x = choose|x: int| 0 <= x < order@.len() && #[trigger] order@[x].1 == i as usize;
            let a = choose|a: int| 0 <= a < out@.len() && #[trigger] out@[a].0 == #[trigger] order@[x].0;
            assert(out@[a].0 == c[i].0);
        }
    }
    out
}

/// In time-then-position order, the first pair of a time group holds the
/// first position with that time.
proof fn lemma_first_in_group<V>(c: Seq<(u64, V)>, order: Seq<(u64, usize)>, m: int)
    requires
        pairs_sorted(order),
        0 <= m < order.len(),
        order.len() == c.len(),
        forall|x: int| 0 <= x < order.len() ==> (#[trigger] order[x]).1 < c.len() && c[order[x].1 as int].0 == order[x].0,
        forall|i: int| 0 <= i < c.len() ==> #[trigger] holds_position(order, i),
        m > 0 ==> order[m - 1].0 != order[m].0,
    ensures
        first_with_time(c, order[m].1 as int, order[m].0),
{
    let t = order[m].0;
    let pos = order[m].1 as int;
    assert forall|j: int| 0 <= j < pos implies c[j].0 != t by {
        if c[j].0 == t {
            assert(holds_position(order, j));
            let x = choose|x: int| 0 <= x < order.len() && #[trigger] order[x].1 == j as usize;
            assert(order[x].0 == t);
            if x < m {
                assert(pair_le(order[x], order[m - 1]));
                assert(pair_le(order[m - 1], order[m]));
            } else if x > m {
                assert(pair_le(order[m], order[x]));
            }
        }
    }
}

/// The sorted order pairs are positions of `c` with their times, every
/// position once.
proof fn lemma_sorted_pairs_props<V>(unsorted: Seq<(u64, usize)>, sorted: Seq<(u64, usize)>, c: Seq<(u64, V)>)
    requires
        unsorted.len() == c.len(),
        c.len() <= usize::MAX,
        forall|x: int| 0 <= x < unsorted.len() ==> #[trigger] unsorted[x] == (c[x].0, x as usize),
        sorted.to_multiset() == unsorted.to_multiset(),
    ensures
        sorted.len() == c.len(),
        forall|x: int| 0 <= x < sorted.len() ==> (#[trigger] sorted[x]).1 < c.len() && c[sorted[x].1 as int].0 == sorted[x].0,
        forall|i: int| 0 <= i < c.len() ==> #[trigger] holds_position(sorted, i),
{
    assert(sorted.len() == unsorted.len()) by {
        sorted.to_multiset_ensures();
        unsorted.to_multiset_ensures();
    }
    assert forall|x: int| 0 <= x < sorted.len() implies (#[trigger] sorted[x]).1 < c.len() && c[sorted[x].1 as int].0 == sorted[x].0 by {
        sorted.to_multiset_ensures();
        unsorted.to_multiset_ensures();
        assert(sorted.to_multiset().count(sorted[x]) > 0);
        assert(unsorted.contains(sorted[x]));
        let y = choose|y: int| 0 <= y < unsorted.len() && unsorted[y] == sorted[x];
        assert(unsorted[y] == (c[y].0, y as usize));
    }
    assert forall|i: int| 0 <= i < c.len() implies #[trigger] holds_position(sorted, i) by {
        sorted.to_multiset_ensures();
        unsorted.to_multiset_ensures();
        assert(unsorted[i] == (c[i].0, i as usize));
        assert(unsorted.to_multiset().count(unsorted[i]) > 0);
        assert(sorted.contains(unsorted[i]));
        let x = choose|x: int| 0 <= x < sorted.len() && sorted[x] == unsorted[i];
        assert(sorted[x].1 == i as usize);
    }
}

} // verus!
