//! Session volume profile: parameters of the histogram pass, how a large pass
//! is split into dispatches, and how the dense histogram it produces becomes
//! a profile.

use std::sync::Arc;

use vstd::prelude::*;

verus! {

/// Parameters of one histogram pass.
#[derive(Debug, Clone, Copy, PartialEq, Eq, Structural)]
pub struct ComputeParams {
    pub num_ticks: u32,
    pub price_resolution: u32,
    pub min_price: u32,
    pub volume_scaling_factor: u32,
    /// Index of the first tick a dispatch handles.
    pub tick_offset: u32,
}

/// One price level of a profile with its volume.
#[derive(Debug, Clone, Copy, PartialEq, Eq, Structural)]
pub struct SparseBar {
    pub price_level: u32,
    pub volume: u32,
}

/// A volume profile: the non-empty price levels in ascending index order,
/// the price of the level with the largest volume and the value area around
/// it.
#[derive(Debug, Clone)]
pub struct VolumeProfile {
    pub bars: Arc<Vec<SparseBar>>,
    pub point_of_control: u32,
    pub value_area_start: u32,
    pub value_area_end: u32,
}

/// Failures of a histogram pass.
#[derive(Debug, Clone)]
pub enum ComputeError {
    MapError,
    ChannelClosed,
    DataError(String),
    Other(String),
}

/// Workgroups of 64 threads needed for `n` ticks.
pub open spec fn workgroups_for(n: int) -> int {
    (n + 63) / 64
}

/// The dispatches that cover `remaining` ticks from `offset` on: each takes
/// as many workgroups as the rest needs, at most 65535 (the per-dispatch
/// limit), and the ticks those workgroups cover.
pub open spec fn dispatches_from(remaining: int, offset: int) -> Seq<(u32, u32)>
    decreases remaining,
{
    if remaining <= 0 {
        Seq::empty()
    } else {
        let wg = if workgroups_for(remaining) < 65535 {
            workgroups_for(remaining)
        } else {
            65535
        };
        let t = if wg * 64 < remaining {
            wg * 64
        } else {
            remaining
        };
        seq![(wg as u32, offset as u32)] + dispatches_from(remaining - t, offset + t)
    }
}

/// The dispatches tile the ticks: the first starts at the offset, each
/// takes between 1 and 65535 workgroups, each but the last ends where the
/// next starts, and the last starts before the end and reaches it.
pub proof fn law_dispatches_tile(n: int, off: int)
    requires
        0 < n,
        0 <= off,
        off + n <= u32::MAX,
    ensures
        ({
            let ds = dispatches_from(n, off);
            &&& ds.len() > 0
            &&& ds[0].1 == off
            &&& forall|i: int| 0 <= i < ds.len() ==> 0 < (#[trigger] ds[i]).0 <= 65535
            &&& forall|i: int| 0 <= i < ds.len() - 1 ==> (#[trigger] ds[i + 1]).1 == ds[i].1 + ds[i].0 * 64
            &&& ds.last().1 < off + n
            &&& ds.last().1 + ds.last().0 * 64 >= off + n
        }),
    decreases n,
{
    let w = workgroups_for(n);
    assert(w * 64 >= n && w >= 1) by {
        vstd::arithmetic::div_mod::lemma_fundamental_div_mod(n + 63, 64);
    }
    let wg = if w < 65535 { w } else { 65535 };
    let t = if wg * 64 < n { wg * 64 } else { n };
    let ds = dispatches_from(n, off);
    let rest = dispatches_from(n - t, off + t);
    assert(ds == seq![(wg as u32, off as u32)] + rest);
    if t < n {
        law_dispatches_tile(n - t, off + t);
        assert(wg == 65535);
        assert forall|i: int| 0 <= i < ds.len() implies 0 < (#[trigger] ds[i]).0 <= 65535 by {
            if i > 0 {
                assert(ds[i] == rest[i - 1]);
            }
        }
        assert forall|i: int| 0 <= i < ds.len() - 1 implies (#[trigger] ds[i + 1]).1 == ds[i].1
            + ds[i].0 * 64 by {
            assert(ds[i + 1] == rest[i]);
            if i > 0 {
                let j = i - 1;
                assert(ds[i] == rest[j]);
                assert(rest[j + 1].1 == rest[j].1 + rest[j].0 * 64);
            } else {
                assert(ds[0].0 == 65535 && ds[0].1 == off);
                assert(t == 65535 * 64);
                assert(rest[0].1 == off + t);
            }
        }
        assert(ds.last() == rest.last());
    } else {
        assert(rest =~= Seq::<(u32, u32)>::empty());
        assert(ds =~= seq![(wg as u32, off as u32)]);
    }
}

/// How a pass over `num_ticks` ticks is split: no split (empty) when one
/// dispatch can hold every workgroup, else the (workgroups, tick offset) of
/// each dispatch in order.
pub fn split_dispatches(num_ticks: u32) -> (r: Vec<(u32, u32)>)
    requires
        num_ticks <= u32::MAX - 63,
    ensures
        r@ == if workgroups_for(num_ticks as int) <= 65535 {
            Seq::<(u32, u32)>::empty()
        } else {
            dispatches_from(num_ticks as int, 0)
        },
{
    let total_workgroups = (num_ticks + 63) / 64;
    let mut chunks: Vec<(u32, u32)> = Vec::new();
    if total_workgroups <= 65535 {
        return chunks;
    }
    let mut offset: u32 = 0;
    let mut remaining: u32 = num_ticks;
    while remaining > 0
        invariant
            offset as int + remaining as int == num_ticks as int,
            num_ticks <= u32::MAX - 63,
            chunks@ + dispatches_from(remaining as int, offset as int) == dispatches_from(
                num_ticks as int,
                0,
            ),
        decreases remaining,
    {
        let needed = (remaining + 63) / 64;
        let wg = if needed < 65535 {
            needed
        } else {
            65535
        };
        let covered = wg * 64;
        let t = if covered < remaining {
            covered
        } else {
            remaining
        };
        proof {
            assert(chunks@.push((wg, offset)) + dispatches_from(remaining - t, offset + t)
                =~= chunks@ + dispatches_from(remaining as int, offset as int));
        }
        chunks.push((wg, offset));
        offset = offset + t;
        remaining = remaining - t;
    }
    proof {
        assert(chunks@ + dispatches_from(0, offset as int) =~= chunks@);
    }
    chunks
}

/// Price of dense bucket `i`.
pub open spec fn level_price(min_price: u32, res: u32, i: int) -> int {
    min_price + i * res
}

/// The non-empty buckets of `d[0..n]` as bars, in index order.
pub open spec fn sparse_bars(d: Seq<u32>, n: int, min_price: u32, res: u32) -> Seq<SparseBar>
    decreases n,
{
    if n <= 0 {
        Seq::empty()
    } else {
        let rest = sparse_bars(d, n - 1, min_price, res);
        if d[n - 1] > 0 {
            rest.push(SparseBar { price_level: level_price(min_price, res, n - 1) as u32, volume: d[n - 1] })
        } else {
            rest
        }
    }
}

/// Sum of `d[0..n]`.
pub open spec fn volume_sum(d: Seq<u32>, n: int) -> int
    decreases n,
{
    if n <= 0 {
        0
    } else {
        volume_sum(d, n - 1) + d[n - 1]
    }
}

/// (volume, price) of the first bucket in `d[0..n]` with the largest volume,
/// (0, 0) when every bucket is empty.
pub open spec fn poc_of(d: Seq<u32>, n: int, min_price: u32, res: u32) -> (u32, u32)
    decreases n,
{
    if n <= 0 {
        (0, 0)
    } else {
        let prev = poc_of(d, n - 1, min_price, res);
        if d[n - 1] > prev.0 {
            (d[n - 1], level_price(min_price, res, n - 1) as u32)
        } else {
            prev
        }
    }
}

/// Index of the first bar at price `p`, or 0 when none is.
pub open spec fn first_bar_at(bars: Seq<SparseBar>, p: u32, i: int) -> int
    decreases bars.len() - i,
{
    if i < 0 || i >= bars.len() {
        0
    } else if bars[i].price_level == p {
        i
    } else {
        first_bar_at(bars, p, i + 1)
    }
}

/// Value-area bounds grown from the point of control: while the volume is
/// below `target`, take the larger neighbouring bar (the upper one on a
/// tie) until no neighbour is left.
pub open spec fn value_area_from(
    bars: Seq<SparseBar>,
    lo: int,
    hi: int,
    cur: int,
    target: int,
    start: u32,
    end: u32,
) -> (u32, u32)
    decreases lo + 1, bars.len() - hi,
{
    if cur >= target || lo < -1 || hi < 0 {
        (start, end)
    } else {
        let lv: int = if 0 <= lo < bars.len() {
            bars[lo].volume as int
        } else {
            0
        };
        let hv: int = if hi < bars.len() {
            bars[hi].volume as int
        } else {
            0
        };
        if lv == 0 && hv == 0 {
            (start, end)
        } else if lv > hv {
            value_area_from(bars, lo - 1, hi, cur + lv, target, bars[lo].price_level, end)
        } else {
            value_area_from(bars, lo, hi + 1, cur + hv, target, start, bars[hi].price_level)
        }
    }
}

/// The profile of a dense histogram: every empty bucket dropped, the point of
/// control at the first largest bucket, and the value area grown from it
/// until it holds `value_area_target`.
pub open spec fn spec_profile(d: Seq<u32>, min_price: u32, res: u32, value_area_target: u64) -> (
    Seq<SparseBar>,
    u32,
    u32,
    u32,
) {
    let bars = sparse_bars(d, d.len() as int, min_price, res);
    if bars.len() == 0 {
        (bars, 0, 0, 0)
    } else {
        let poc = poc_of(d, d.len() as int, min_price, res);
        let i = first_bar_at(bars, poc.1, 0);
        let va = value_area_from(
            bars,
            i - 1,
            i + 1,
            poc.0 as int,
            value_area_target as int,
            poc.1,
            poc.1,
        );
        (bars, poc.1, va.0, va.1)
    }
}

proof fn lemma_sparse_bars_props(d: Seq<u32>, n: int, min_price: u32, res: u32)
    requires
        0 <= n <= d.len(),
    ensures
        sparse_bars(d, n, min_price, res).len() <= n,
        forall|j: int|
            0 <= j < sparse_bars(d, n, min_price, res).len() ==> (#[trigger] sparse_bars(
                d,
                n,
                min_price,
                res,
            )[j]).volume > 0,
        poc_of(d, n, min_price, res).0 > 0 ==> exists|j: int|
            0 <= j < sparse_bars(d, n, min_price, res).len() && (#[trigger] sparse_bars(
                d,
                n,
                min_price,
                res,
            )[j]).price_level == poc_of(d, n, min_price, res).1 && sparse_bars(
                d,
                n,
                min_price,
                res,
            )[j].volume == poc_of(d, n, min_price, res).0,
        poc_of(d, n, min_price, res).0 == 0 ==> poc_of(d, n, min_price, res) == (0u32, 0u32),
        volume_sum(d, n) >= poc_of(d, n, min_price, res).0,
        sparse_bars(d, n, min_price, res).len() > 0 ==> poc_of(d, n, min_price, res).0 > 0,
    decreases n,
{
    if n > 0 {
        lemma_sparse_bars_props(d, n - 1, min_price, res);
        let rest = sparse_bars(d, n - 1, min_price, res);
        let cur = sparse_bars(d, n, min_price, res);
        let p = poc_of(d, n - 1, min_price, res);
        if d[n - 1] > 0 {
            assert(cur == rest.push(
                SparseBar { price_level: level_price(min_price, res, n - 1) as u32, volume: d[n - 1] },
            ));
            if d[n - 1] > p.0 {
                assert(cur[rest.len() as int].price_level == poc_of(d, n, min_price, res).1);
            } else if p.0 > 0 {
                let j = choose|j: int|
                    0 <= j < rest.len() && (#[trigger] rest[j]).price_level == p.1 && rest[j].volume
                        == p.0;
                assert(cur[j] == rest[j]);
            }
        }
    }
}

proof fn lemma_sparse_bars_sorted(d: Seq<u32>, n: int, min_price: u32, res: u32)
    requires
        0 <= n <= d.len(),
        forall|k: int|
            0 <= k < d.len() && d[k] > 0 ==> level_price(min_price, res, k) <= u32::MAX,
    ensures
        forall|j: int|
            0 <= j < sparse_bars(d, n, min_price, res).len() ==> (#[trigger] sparse_bars(
                d,
                n,
                min_price,
                res,
            )[j]).price_level <= level_price(min_price, res, n - 1),
        forall|a: int, b: int|
            0 <= a <= b < sparse_bars(d, n, min_price, res).len() ==> (#[trigger] sparse_bars(
                d,
                n,
                min_price,
                res,
            )[a]).price_level <= (#[trigger] sparse_bars(d, n, min_price, res)[b]).price_level,
    decreases n,
{
    if n > 0 {
        lemma_sparse_bars_sorted(d, n - 1, min_price, res);
        let rest = sparse_bars(d, n - 1, min_price, res);
        let cur = sparse_bars(d, n, min_price, res);
        assert(level_price(min_price, res, n - 2) <= level_price(min_price, res, n - 1)) by (nonlinear_arith)
            requires
                res >= 0,
        ;
        if d[n - 1] > 0 {
            let top = SparseBar { price_level: level_price(min_price, res, n - 1) as u32, volume: d[n - 1] };
            assert(cur == rest.push(top));
            assert(top.price_level == level_price(min_price, res, n - 1));
            assert forall|j: int| 0 <= j < cur.len() implies (#[trigger] cur[j]).price_level
                <= level_price(min_price, res, n - 1) by {
                if j < rest.len() {
                    assert(cur[j] == rest[j]);
                }
            }
            assert forall|a: int, b: int| 0 <= a <= b < cur.len() implies (#[trigger] cur[a]).price_level
                <= (#[trigger] cur[b]).price_level by {
                if b < rest.len() {
                    assert(cur[a] == rest[a] && cur[b] == rest[b]);
                } else if a < rest.len() {
                    assert(cur[a] == rest[a]);
                }
            }
        }
    }
}

proof fn lemma_first_bar_at_finds(bars: Seq<SparseBar>, p: u32, i: int, w: int)
    requires
        0 <= i <= w < bars.len(),
        bars[w].price_level == p,
    ensures
        i <= first_bar_at(bars, p, i) <= w,
        bars[first_bar_at(bars, p, i)].price_level == p,
    decreases bars.len() - i,
{
    if bars[i].price_level != p {
        lemma_first_bar_at_finds(bars, p, i + 1, w);
    }
}

proof fn lemma_value_area_encloses(
    bars: Seq<SparseBar>,
    lo: int,
    hi: int,
    cur: int,
    target: int,
    start: u32,
    end: u32,
    i: int,
)
    requires
        forall|a: int, b: int|
            0 <= a <= b < bars.len() ==> (#[trigger] bars[a]).price_level <= (#[trigger] bars[b]).price_level,
        0 <= i < bars.len(),
        -1 <= lo < i < hi,
        start <= bars[i].price_level <= end,
    ensures
        value_area_from(bars, lo, hi, cur, target, start, end).0 <= bars[i].price_level,
        bars[i].price_level <= value_area_from(bars, lo, hi, cur, target, start, end).1,
    decreases lo + 1, bars.len() - hi,
{
    if cur >= target || lo < -1 || hi < 0 {
    } else {
        let lv: int = if 0 <= lo < bars.len() {
            bars[lo].volume as int
        } else {
            0
        };
        let hv: int = if hi < bars.len() {
            bars[hi].volume as int
        } else {
            0
        };
        if lv == 0 && hv == 0 {
        } else if lv > hv {
            assert(bars[lo].price_level <= bars[i].price_level);
            lemma_value_area_encloses(bars, lo - 1, hi, cur + lv, target, bars[lo].price_level, end, i);
        } else {
            assert(bars[i].price_level <= bars[hi].price_level);
            lemma_value_area_encloses(bars, lo, hi + 1, cur + hv, target, start, bars[hi].price_level, i);
        }
    }
}

/// The value area of a profile encloses its point of control: for any
/// histogram whose non-empty buckets have prices that fit, and any target,
/// the value area starts at or below the point of control and ends at or
/// above it.
pub proof fn law_value_area_encloses_poc(d: Seq<u32>, min_price: u32, res: u32, value_area_target: u64)
    requires
        forall|k: int|
            0 <= k < d.len() && d[k] > 0 ==> level_price(min_price, res, k) <= u32::MAX,
    ensures
        spec_profile(d, min_price, res, value_area_target).2 <= spec_profile(
            d,
            min_price,
            res,
            value_area_target,
        ).1 <= spec_profile(d, min_price, res, value_area_target).3,
{
    let n = d.len() as int;
    let bars = sparse_bars(d, n, min_price, res);
    lemma_sparse_bars_props(d, n, min_price, res);
    lemma_sparse_bars_sorted(d, n, min_price, res);
    if bars.len() > 0 {
        let poc = poc_of(d, n, min_price, res);
        let w = choose|j: int|
            0 <= j < bars.len() && (#[trigger] bars[j]).price_level == poc.1 && bars[j].volume
                == poc.0;
        lemma_first_bar_at_finds(bars, poc.1, 0, w);
        let i = first_bar_at(bars, poc.1, 0);
        lemma_value_area_encloses(bars, i - 1, i + 1, poc.0 as int, value_area_target as int, poc.1, poc.1, i);
    }
}

/// Reduces a dense histogram to a volume profile. `value_area_target` is the
/// volume the value area must reach (seven tenths of the total volume, which
/// the caller computes).
pub fn process_histogram(
    dense_histogram: Vec<u32>,
    min_price: u32,
    price_resolution: u32,
    value_area_target: u64,
) -> (r: VolumeProfile)
    requires
        dense_histogram@.len() <= i32::MAX,
        forall|i: int|
            0 <= i < dense_histogram@.len() && dense_histogram@[i] > 0 ==> level_price(
                min_price,
                price_resolution,
                i,
            ) <= u32::MAX,
    ensures
        ({
            let p = spec_profile(dense_histogram@, min_price, price_resolution, value_area_target);
            &&& r.bars@ == p.0
            &&& r.point_of_control == p.1
            &&& r.value_area_start == p.2
            &&& r.value_area_end == p.3
        }),
{
    let ghost d = dense_histogram@;
    let n = dense_histogram.len();
    let mut bars: Vec<SparseBar> = Vec::new();
    let mut total_volume: u64 = 0;
    let mut poc_volume: u32 = 0;
    let mut poc_price: u32 = 0;
    let mut i: usize = 0;
    while i < n
        invariant
            n == d.len(),
            d == dense_histogram@,
            n <= i32::MAX,
            i <= n,
            forall|k: int|
                0 <= k < d.len() && d[k] > 0 ==> level_price(min_price, price_resolution, k)
                    <= u32::MAX,
            bars@ == sparse_bars(d, i as int, min_price, price_resolution),
            total_volume == volume_sum(d, i as int),
            total_volume <= i * 0xffff_ffffu64,
            (poc_volume, poc_price) == poc_of(d, i as int, min_price, price_resolution),
        decreases n - i,
    {
        let volume = dense_histogram[i];
        if volume > 0 {
            proof {
                assert(level_price(min_price, price_resolution, i as int) <= u32::MAX);
                assert(i * price_resolution <= u32::MAX);
            }
            let price_level = min_price + (i as u32) * price_resolution;
            total_volume = total_volume + volume as u64;
            if volume > poc_volume {
                poc_volume = volume;
                poc_price = price_level;
            }
            bars.push(SparseBar { price_level, volume });
        }
        proof {
            assert(total_volume <= (i + 1) * 0xffff_ffffu64) by (nonlinear_arith)
                requires
                    total_volume <= i * 0xffff_ffffu64 + 0xffff_ffffu64,
            ;
        }
        i = i + 1;
    }
    proof {
        lemma_sparse_bars_props(d, n as int, min_price, price_resolution);
    }
    if bars.len() == 0 {
        return VolumeProfile {
            bars: Arc::new(bars),
            point_of_control: 0,
            value_area_start: 0,
            value_area_end: 0,
        };
    }
    let ghost sb = bars@;
    let mut poc_index: usize = 0;
    let mut k: usize = 0;
    let mut found = false;
    while k < bars.len() && !found
        invariant
            sb == bars@,
            k <= bars@.len(),
            !found ==> first_bar_at(sb, poc_price, 0) == first_bar_at(sb, poc_price, k as int),
            found ==> first_bar_at(sb, poc_price, 0) == poc_index && poc_index < sb.len(),
        decreases bars.len() - k,
    {
        if bars[k].price_level == poc_price {
            poc_index = k;
            found = true;
        }
        k = k + 1;
    }
    if !found {
        poc_index = 0;
    }
    let mut current: u64 = poc_volume as u64;
    let mut low: i64 = poc_index as i64 - 1;
    let mut high: usize = poc_index + 1;
    let mut va_start = poc_price;
    let mut va_end = poc_price;
    let len = bars.len();
    let mut stop = false;
    while current < value_area_target && !stop
        invariant
            sb == bars@,
            len == sb.len(),
            len <= i32::MAX,
            -1 <= low < len,
            0 <= high <= len + 1,
            high - low >= 2,
            current <= (high - low) * 0xffff_ffffu64,
            forall|j: int| 0 <= j < sb.len() ==> (#[trigger] sb[j]).volume > 0,
            !stop ==> value_area_from(
                sb,
                low as int,
                high as int,
                current as int,
                value_area_target as int,
                va_start,
                va_end,
            ) == value_area_from(
                sb,
                first_bar_at(sb, poc_price, 0) - 1,
                first_bar_at(sb, poc_price, 0) + 1,
                poc_volume as int,
                value_area_target as int,
                poc_price,
                poc_price,
            ),
            stop ==> (va_start, va_end) == value_area_from(
                sb,
                first_bar_at(sb, poc_price, 0) - 1,
                first_bar_at(sb, poc_price, 0) + 1,
                poc_volume as int,
                value_area_target as int,
                poc_price,
                poc_price,
            ),
        decreases low + 1, len - high, if stop { 0int } else { 1int },
    {
        let low_volume: u32 = if low >= 0 {
            bars[low as usize].volume
        } else {
            0
        };
        let high_volume: u32 = if high < len {
            bars[high].volume
        } else {
            0
        };
        if low_volume == 0 && high_volume == 0 {
            stop = true;
        } else if low_volume > high_volume {
            proof {
                assert(current + low_volume <= (high - low + 1) * 0xffff_ffffu64) by (nonlinear_arith)
                    requires
                        current <= (high - low) * 0xffff_ffffu64,
                        low_volume <= 0xffff_ffffu64,
                ;
                assert((high - low + 1) * 0xffff_ffffu64 <= (i32::MAX as int + 3) * 0xffff_ffffu64) by (nonlinear_arith)
                    requires
                        high - low + 1 <= i32::MAX as int + 3,
                ;
            }
            current = current + low_volume as u64;
            va_start = bars[low as usize].price_level;
            low = low - 1;
        } else {
            proof {
                assert(current + high_volume <= (high - low + 1) * 0xffff_ffffu64) by (nonlinear_arith)
                    requires
                        current <= (high - low) * 0xffff_ffffu64,
                        high_volume <= 0xffff_ffffu64,
                ;
                assert((high - low + 1) * 0xffff_ffffu64 <= (i32::MAX as int + 3) * 0xffff_ffffu64) by (nonlinear_arith)
                    requires
                        high - low + 1 <= i32::MAX as int + 3,
                ;
            }
            current = current + high_volume as u64;
            va_end = bars[high].price_level;
            high = high + 1;
        }
    }
    VolumeProfile {
        bars: Arc::new(bars),
        point_of_control: poc_price,
        value_area_start: va_start,
        value_area_end: va_end,
    }
}

/// Smallest of the times, `None` without times.
pub open spec fn min_time(ts: Seq<u64>) -> Option<u64>
    decreases ts.len(),
{
    if ts.len() == 0 {
        None
    } else {
        match min_time(ts.drop_last()) {
            Some(m) => Some(if ts.last() < m { ts.last() } else { m }),
            None => Some(ts.last()),
        }
    }
}

/// Largest of the times, `None` without times.
pub open spec fn max_time(ts: Seq<u64>) -> Option<u64>
    decreases ts.len(),
{
    if ts.len() == 0 {
        None
    } else {
        match max_time(ts.drop_last()) {
            Some(m) => Some(if ts.last() > m { ts.last() } else { m }),
            None => Some(ts.last()),
        }
    }
}

/// The span of trade times `times_ms` (milliseconds), in microseconds: the
/// earliest and the latest time, `None` without trades.
pub fn tick_time_span(times_ms: &Vec<u64>) -> (r: Option<(u64, u64)>)
    requires
        forall|i: int| 0 <= i < times_ms@.len() ==> #[trigger] times_ms@[i] <= u64::MAX / 1000,
    ensures
        r == match (min_time(times_ms@), max_time(times_ms@)) {
            (Some(a), Some(b)) => Some(((a * 1000) as u64, (b * 1000) as u64)),
            _ => None::<(u64, u64)>,
        },
{
    let mut lo: Option<u64> = None;
    let mut hi: Option<u64> = None;
    let mut i: usize = 0;
    while i < times_ms.len()
        invariant
            i <= times_ms@.len(),
            forall|j: int| 0 <= j < times_ms@.len() ==> #[trigger] times_ms@[j] <= u64::MAX / 1000,
            lo == (match min_time(times_ms@.take(i as int)) {
                Some(a) => Some((a * 1000) as u64),
                None => None::<u64>,
            }),
            hi == (match max_time(times_ms@.take(i as int)) {
                Some(a) => Some((a * 1000) as u64),
                None => None::<u64>,
            }),
            min_time(times_ms@.take(i as int)) matches Some(a) ==> a <= u64::MAX / 1000,
            max_time(times_ms@.take(i as int)) matches Some(a) ==> a <= u64::MAX / 1000,
            (min_time(times_ms@.take(i as int)) is Some) == (i > 0),
            (max_time(times_ms@.take(i as int)) is Some) == (i > 0),
        decreases times_ms.len() - i,
    {
        proof {
            assert(times_ms@.take(i as int + 1).drop_last() =~= times_ms@.take(i as int));
        }
        let t = times_ms[i];
        let us = t * 1000;
        lo = match lo {
            Some(m) => if us < m { Some(us) } else { Some(m) },
            None => Some(us),
        };
        hi = match hi {
            Some(m) => if us > m { Some(us) } else { Some(m) },
            None => Some(us),
        };
        i = i + 1;
    }
    proof {
        assert(times_ms@.take(times_ms@.len() as int) =~= times_ms@);
    }
    match (lo, hi) {
        (Some(a), Some(b)) => Some((a, b)),
        _ => None,
    }
}

} // verus!
