//! Time-bucketed series of data points, with coarser aggregation levels on
//! top of the base interval.

use vstd::prelude::*;

use crate::exchange::{
    Kline, MAX_PRICE_UNITS, Price, PriceStep, Timeframe, Trade, ceil_to_step, floor_to_step,
    price_units_in_range, timeframe_ms,
};
use crate::chart::Basis;
use crate::chart::heatmap::{
    GroupedTrade, HeatmapDataPoint, HeatmapDataPointV, groups_max_qty, groups_qty_sum,
};
use crate::chart::kline::{
    KlineDataPoint, KlineDataPointV, KlineTradesV, NPoc, levels_poc, poc_with_status,
};
use crate::timemap::{
    TimeMap, has_key, lemma_index_is_lower_bound, lemma_lower_bound, lemma_same_keys,
    lemma_seq_get, lemma_seq_set, lemma_seq_set_twice, lemma_upper_bound, lower_bound, same_keys,
    seq_get, seq_set, sorted_keys, upper_bound,
};

verus! {

/// A value aggregated over one time bucket. The transformations are
/// specified on the value's view.
pub trait DataPoint: Sized + View {
    /// Price of the latest trade or close.
    spec fn v_last_price(v: Self::V) -> Price;

    /// Highest price the data point covers.
    spec fn v_value_high(v: Self::V) -> Price;

    /// Lowest price the data point covers.
    spec fn v_value_low(v: Self::V) -> Price;

    /// The candle of the data point, if it has one.
    spec fn v_kline(v: Self::V) -> Option<Kline>;

    /// Time of the earliest recorded trade, if any.
    spec fn v_first_trade_time(v: Self::V) -> Option<u64>;

    /// Time of the latest recorded trade, if any.
    spec fn v_last_trade_time(v: Self::V) -> Option<u64>;

    /// The data point without its trades.
    spec fn v_cleared(v: Self::V) -> Self::V;

    /// The data point with one more trade recorded at the price level of `step`.
    spec fn v_with_trade(v: Self::V, trade: Trade, step: PriceStep) -> Self::V;

    /// The data point combined with a later one.
    spec fn v_merged(a: Self::V, b: Self::V) -> Self::V;

    fn add_trade(&mut self, trade: &Trade, step: PriceStep)
        requires
            price_units_in_range(trade.price.units as int),
            step.units <= MAX_PRICE_UNITS,
        ensures
            final(self)@ == Self::v_with_trade(old(self)@, *trade, step),
    ;

    fn clear_trades(&mut self)
        ensures
            final(self)@ == Self::v_cleared(old(self)@),
    ;

    fn merge(&mut self, other: &Self)
        ensures
            final(self)@ == Self::v_merged(old(self)@, other@),
    ;

    fn last_trade_time(&self) -> (r: Option<u64>)
        ensures
            r == Self::v_last_trade_time(self@),
    ;

    fn first_trade_time(&self) -> (r: Option<u64>)
        ensures
            r == Self::v_first_trade_time(self@),
    ;

    fn last_price(&self) -> (p: Price)
        ensures
            p == Self::v_last_price(self@),
    ;

    fn kline(&self) -> (r: Option<&Kline>)
        ensures
            r matches Some(k) ==> Self::v_kline(self@) == Some(*k),
            r is None ==> Self::v_kline(self@) is None,
    ;

    fn value_high(&self) -> (p: Price)
        ensures
            p == Self::v_value_high(self@),
    ;

    fn value_low(&self) -> (p: Price)
        ensures
            p == Self::v_value_low(self@),
    ;

    /// An owned copy of the data point.
    fn duplicate(&self) -> (r: Self)
        ensures
            r@ == self@,
    ;
}

/// The entries of a level with each data point taken by its view.
pub open spec fn entries_view<D: DataPoint>(s: Seq<(u64, D)>) -> Seq<(u64, D::V)> {
    s.map_values(|e: (u64, D)| (e.0, e.1@))
}

/// Highest `value_high` over a non-empty run of data points, price 0 when
/// the run is empty.
pub open spec fn fold_high<D: DataPoint>(w: Seq<(u64, D::V)>) -> Price
    decreases w.len(),
{
    if w.len() == 0 {
        Price { units: 0 }
    } else if w.len() == 1 {
        D::v_value_high(w[0].1)
    } else {
        let m = fold_high::<D>(w.drop_last());
        let h = D::v_value_high(w.last().1);
        if h.units > m.units {
            h
        } else {
            m
        }
    }
}

/// Lowest `value_low` over a non-empty run of data points, price 0 when the
/// run is empty.
pub open spec fn fold_low<D: DataPoint>(w: Seq<(u64, D::V)>) -> Price
    decreases w.len(),
{
    if w.len() == 0 {
        Price { units: 0 }
    } else if w.len() == 1 {
        D::v_value_low(w[0].1)
    } else {
        let m = fold_low::<D>(w.drop_last());
        let l = D::v_value_low(w.last().1);
        if l.units < m.units {
            l
        } else {
            m
        }
    }
}

/// Times from `t` on, one `interval` apart and below `latest`, that have no
/// data point.
pub open spec fn missing_times<V>(s: Seq<(u64, V)>, t: int, latest: int, interval: int) -> Seq<u64>
    decreases if t < latest {
        latest - t
    } else {
        0
    },
{
    if t >= latest || interval <= 0 {
        Seq::empty()
    } else {
        let rest = missing_times(s, t + interval, latest, interval);
        if has_key(s, t as u64) {
            rest
        } else {
            seq![t as u64].add(rest)
        }
    }
}

/// Index of the level a chart shows for `visible` base bars: the coarsest
/// level, scanning down from index `i`, whose interval keeps at least 100 bars
/// visible, and the base level at the latest.
pub open spec fn select_index(tfs: Seq<Timeframe>, base_ms: int, visible: int, i: int) -> int
    decreases i,
{
    if i <= 0 {
        0
    } else if visible / (timeframe_ms(tfs[i]) as int / base_ms) >= 100 {
        i
    } else {
        select_index(tfs, base_ms, visible, i - 1)
    }
}

/// Aggregation levels over one series: level 0 holds the data points of the
/// base interval, keyed by bucket time; later levels aggregate them coarser.
pub struct DataPyramid<D: DataPoint> {
    pub levels: Vec<(Timeframe, TimeMap<D>)>,
    pub base_interval: Timeframe,
    pub tick_size: PriceStep,
}

/// Value of a pyramid: each level's interval and its entries taken by view.
pub struct PyramidV<V> {
    pub levels: Seq<(Timeframe, Seq<(u64, V)>)>,
    pub base_interval: Timeframe,
    pub tick_size: PriceStep,
}

impl<D: DataPoint> View for DataPyramid<D> {
    type V = PyramidV<D::V>;

    open spec fn view(&self) -> PyramidV<D::V> {
        PyramidV {
            levels: self.levels@.map_values(
                |l: (Timeframe, TimeMap<D>)| (l.0, entries_view(l.1.entries@)),
            ),
            base_interval: self.base_interval,
            tick_size: self.tick_size,
        }
    }
}

/// The base level's entries, empty without levels.
pub open spec fn base_of<V>(p: PyramidV<V>) -> Seq<(u64, V)> {
    if p.levels.len() == 0 {
        Seq::empty()
    } else {
        p.levels[0].1
    }
}

/// Every level's keys increase strictly.
pub open spec fn levels_sorted<V>(p: PyramidV<V>) -> bool {
    forall|i: int| 0 <= i < p.levels.len() ==> #[trigger] sorted_keys(p.levels[i].1)
}

/// The data points of a level view, taken by view, agree with the entries on
/// every key question.
proof fn lemma_entries_view<D: DataPoint>(s: Seq<(u64, D)>)
    ensures
        same_keys(s, entries_view(s)),
        entries_view(s).len() == s.len(),
        forall|k: u64|
            #![trigger lower_bound(s, k)]
            lower_bound(s, k) == lower_bound(entries_view(s), k) && upper_bound(s, k)
                == upper_bound(entries_view(s), k) && has_key(s, k) == has_key(
                entries_view(s),
                k,
            ),
        sorted_keys(s) == sorted_keys(entries_view(s)),
{
    let t = entries_view(s);
    assert forall|i: int| 0 <= i < s.len() implies #[trigger] s[i].0 == t[i].0 by {}
    assert forall|k: u64|
        #![trigger lower_bound(s, k)]
        lower_bound(s, k) == lower_bound(t, k) && upper_bound(s, k) == upper_bound(t, k) && has_key(
            s,
            k,
        ) == has_key(t, k) by {
        lemma_same_keys(s, t, k);
    }
    lemma_same_keys(s, t, 0);
}

impl<D: DataPoint> DataPyramid<D> {
    /// Whether every level's keys increase strictly.
    pub open spec fn wf(&self) -> bool {
        forall|i: int| 0 <= i < self.levels@.len() ==> #[trigger] self.levels@[i].1.wf()
    }

    /// The wf predicate seen through the view.
    proof fn lemma_wf_view(&self)
        requires
            self.wf(),
        ensures
            levels_sorted(self@),
            self@.levels.len() == self.levels@.len(),
            self.levels@.len() > 0 ==> base_of(self@) == entries_view(self.levels@[0].1.entries@),
    {
        assert forall|i: int| 0 <= i < self@.levels.len() implies #[trigger] sorted_keys(
            self@.levels[i].1,
        ) by {
            assert(self.levels@[i].1.wf());
            lemma_entries_view(self.levels@[i].1.entries@);
        }
    }

    /// Price of the newest base data point, 0 without one.
    pub fn base_price(&self) -> (p: Price)
        ensures
            p == if base_of(self@).len() == 0 {
                Price { units: 0 }
            } else {
                D::v_last_price(base_of(self@).last().1)
            },
    {
        if self.levels.len() == 0 {
            return Price { units: 0 };
        }
        let n = self.levels[0].1.entries.len();
        if n == 0 {
            Price { units: 0 }
        } else {
            self.levels[0].1.entries[n - 1].1.last_price()
        }
    }

    /// Key of the newest base data point.
    pub fn latest_timestamp(&self) -> (r: Option<u64>)
        ensures
            r == if base_of(self@).len() == 0 {
                None::<u64>
            } else {
                Some(base_of(self@).last().0)
            },
    {
        if self.levels.len() == 0 {
            return None;
        }
        self.levels[0].1.last_key()
    }

    /// Candle of the newest base data point, if it has one.
    pub fn latest_kline(&self) -> (r: Option<&Kline>)
        ensures
            r matches Some(k) ==> base_of(self@).len() > 0 && D::v_kline(base_of(self@).last().1)
                == Some(*k),
            r is None ==> base_of(self@).len() == 0 || D::v_kline(base_of(self@).last().1) is None,
    {
        if self.levels.len() == 0 {
            return None;
        }
        let n = self.levels[0].1.entries.len();
        if n == 0 {
            None
        } else {
            self.levels[0].1.entries[n - 1].1.kline()
        }
    }

    /// Highest high and lowest low over the newest `lookback` base data
    /// points; two zero prices when there are none.
    pub fn price_scale(&self, lookback: usize) -> (r: (Price, Price))
        requires
            self.levels@.len() > 0,
        ensures
            ({
                let s = base_of(self@);
                let n = if lookback < s.len() {
                    lookback as int
                } else {
                    s.len() as int
                };
                let w = s.subrange(s.len() - n, s.len() as int);
                r == (fold_high::<D>(w), fold_low::<D>(w))
            }),
    {
        let m = &self.levels[0].1;
        let len = m.entries.len();
        let n = if lookback < len {
            lookback
        } else {
            len
        };
        if n == 0 {
            return (Price { units: 0 }, Price { units: 0 });
        }
        let start = len - n;
        let ghost s = entries_view(m.entries@);
        let mut high = m.entries[start].1.value_high();
        let mut low = m.entries[start].1.value_low();
        let mut i = start + 1;
        proof {
            assert(s.subrange(start as int, i as int) =~= seq![s[start as int]]);
        }
        while i < len
            invariant
                m == &self.levels@[0].1,
                s == entries_view(m.entries@),
                len == m.entries@.len(),
                start < i <= len,
                high == fold_high::<D>(s.subrange(start as int, i as int)),
                low == fold_low::<D>(s.subrange(start as int, i as int)),
            decreases len - i,
        {
            let h = m.entries[i].1.value_high();
            let l = m.entries[i].1.value_low();
            proof {
                let w = s.subrange(start as int, i as int + 1);
                assert(w.drop_last() =~= s.subrange(start as int, i as int));
                assert(w.last() == s[i as int]);
            }
            if h.units > high.units {
                high = h;
            }
            if l.units < low.units {
                low = l;
            }
            i = i + 1;
        }
        (high, low)
    }

    /// Keys of the oldest and newest base data points, 0 for each that is
    /// missing.
    pub fn timerange(&self) -> (r: (u64, u64))
        ensures
            r.0 == if base_of(self@).len() == 0 {
                0
            } else {
                base_of(self@)[0].0
            },
            r.1 == if base_of(self@).len() == 0 {
                0
            } else {
                base_of(self@).last().0
            },
    {
        if self.levels.len() == 0 {
            return (0, 0);
        }
        let e = match self.levels[0].1.first_key() {
            Some(k) => k,
            None => 0,
        };
        let l = match self.levels[0].1.last_key() {
            Some(k) => k,
            None => 0,
        };
        (e, l)
    }

    /// Lowest low and highest high over the base data points keyed from
    /// `earliest` to `latest`, both included; `None` without such a point.
    pub fn min_max_price_in_range_prices(&self, earliest: u64, latest: u64) -> (r: Option<
        (Price, Price),
    >)
        requires
            self.wf(),
            self.levels@.len() > 0 ==> earliest <= latest,
        ensures
            ({
                let s = base_of(self@);
                let lo = lower_bound(s, earliest) as int;
                let hi = upper_bound(s, latest) as int;
                let w = s.subrange(lo, hi);
                r == if self@.levels.len() == 0 || lo >= hi {
                    None::<(Price, Price)>
                } else {
                    Some((fold_low::<D>(w), fold_high::<D>(w)))
                }
            }),
    {
        if self.levels.len() == 0 {
            return None;
        }
        let m = &self.levels[0].1;
        assert(self.levels@[0].1.wf());
        let ghost s = entries_view(m.entries@);
        proof {
            lemma_entries_view(m.entries@);
            assert(lower_bound(m.entries@, earliest) == lower_bound(s, earliest));
            assert(lower_bound(m.entries@, latest) == lower_bound(s, latest));
        }
        let lo = m.lower_bound(earliest);
        let hi = m.upper_bound(latest);
        proof {
            lemma_upper_bound(m.entries@, latest);
            lemma_lower_bound(m.entries@, earliest);
        }
        if lo >= hi {
            return None;
        }
        let mut low = m.entries[lo].1.value_low();
        let mut high = m.entries[lo].1.value_high();
        let mut i = lo + 1;
        proof {
            assert(s.subrange(lo as int, i as int) =~= seq![s[lo as int]]);
        }
        while i < hi
            invariant
                m == &self.levels@[0].1,
                s == entries_view(m.entries@),
                hi <= m.entries@.len(),
                lo < i <= hi,
                high == fold_high::<D>(s.subrange(lo as int, i as int)),
                low == fold_low::<D>(s.subrange(lo as int, i as int)),
            decreases hi - i,
        {
            let h = m.entries[i].1.value_high();
            let l = m.entries[i].1.value_low();
            proof {
                let w = s.subrange(lo as int, i as int + 1);
                assert(w.drop_last() =~= s.subrange(lo as int, i as int));
                assert(w.last() == s[i as int]);
            }
            if h.units > high.units {
                high = h;
            }
            if l.units < low.units {
                low = l;
            }
            i = i + 1;
        }
        Some((low, high))
    }

    /// Drops the recorded trades of every data point on every level.
    pub fn clear_trades(&mut self)
        requires
            old(self).wf(),
        ensures
            final(self).wf(),
            final(self)@.base_interval == old(self)@.base_interval,
            final(self)@.tick_size == old(self)@.tick_size,
            final(self)@.levels.len() == old(self)@.levels.len(),
            forall|i: int|
                0 <= i < old(self)@.levels.len() ==> (#[trigger] final(self)@.levels[i]).0 == old(
                    self,
                )@.levels[i].0 && final(self)@.levels[i].1 == old(self)@.levels[i].1.map_values(
                    |e: (u64, D::V)| (e.0, D::v_cleared(e.1)),
                ),
    {
        let nl = self.levels.len();
        let mut i: usize = 0;
        while i < nl
            invariant
                nl == self.levels@.len(),
                nl == old(self).levels@.len(),
                0 <= i <= nl,
                self.base_interval == old(self).base_interval,
                self.tick_size == old(self).tick_size,
                self.wf(),
                forall|a: int|
                    0 <= a < nl ==> (#[trigger] self@.levels[a]).0 == old(self)@.levels[a].0,
                forall|a: int|
                    0 <= a < i ==> (#[trigger] self@.levels[a]).1 == old(self)@.levels[a].1.map_values(
                        |e: (u64, D::V)| (e.0, D::v_cleared(e.1)),
                    ),
                forall|a: int| i <= a < nl ==> (#[trigger] self.levels@[a]) == old(self).levels@[a],
            decreases nl - i,
        {
            let ne = self.levels[i].1.entries.len();
            let ghost lv = self.levels@;
            let ghost lvv = self@.levels;
            let ghost before = self.levels@[i as int].1.entries@;
            assert(lv[i as int].1.wf());
            let mut j: usize = 0;
            while j < ne
                invariant
                    nl == self.levels@.len(),
                    lv.len() == nl,
                    i < nl,
                    self.base_interval == old(self).base_interval,
                    self.tick_size == old(self).tick_size,
                    ne == self.levels@[i as int].1.entries@.len(),
                    before.len() == ne,
                    before == lv[i as int].1.entries@,
                    0 <= j <= ne,
                    forall|b: int|
                        0 <= b < j ==> (#[trigger] self.levels@[i as int].1.entries@[b]).0
                            == before[b].0 && self.levels@[i as int].1.entries@[b].1@
                            == D::v_cleared(before[b].1@),
                    forall|b: int|
                        j <= b < ne ==> #[trigger] self.levels@[i as int].1.entries@[b]
                            == before[b],
                    forall|a: int| 0 <= a < nl && a != i ==> #[trigger] self.levels@[a] == lv[a],
                    self.levels@[i as int].0 == lv[i as int].0,
                decreases ne - j,
            {
                self.levels[i].1.entries[j].1.clear_trades();
                j = j + 1;
            }
            proof {
                let now = self.levels@[i as int].1.entries@;
                assert forall|b: int| 0 <= b < before.len() implies #[trigger] before[b].0
                    == now[b].0 by {}
                assert(same_keys(before, now));
                lemma_same_keys(before, now, 0);
                assert(self.levels@[i as int].1.wf());
                assert(entries_view(now) =~= entries_view(before).map_values(
                    |e: (u64, D::V)| (e.0, D::v_cleared(e.1)),
                ));
                assert(self@.levels[i as int].1 == old(self)@.levels[i as int].1.map_values(
                    |e: (u64, D::V)| (e.0, D::v_cleared(e.1)),
                ));
                assert forall|a: int| 0 <= a < nl && a != i implies #[trigger] self@.levels[a]
                    == lvv[a] by {
                    assert(self.levels@[a] == lv[a]);
                }
                assert(self@.levels[i as int].0 == lvv[i as int].0);
            }
            i = i + 1;
        }
    }

    /// Base keys from `earliest` on, one `interval` apart and below `latest`,
    /// that hold no data point; `None` when none is missing or there are no
    /// levels.
    pub fn check_kline_integrity(&self, earliest: u64, latest: u64, interval: u64) -> (r: Option<
        Vec<u64>,
    >)
        requires
            self.wf(),
            earliest < latest ==> interval > 0 && latest + interval <= u64::MAX + 1,
        ensures
            ({
                let miss = missing_times(
                    base_of(self@),
                    earliest as int,
                    latest as int,
                    interval as int,
                );
                match r {
                    Some(v) => self@.levels.len() > 0 && miss.len() > 0 && v@ == miss,
                    None => self@.levels.len() == 0 || miss.len() == 0,
                }
            }),
    {
        if self.levels.len() == 0 {
            return None;
        }
        let m = &self.levels[0].1;
        assert(self.levels@[0].1.wf());
        let ghost s = entries_view(m.entries@);
        proof {
            lemma_entries_view(m.entries@);
        }
        let mut missing: Vec<u64> = Vec::new();
        let mut time = earliest;
        while time < latest
            invariant
                m == &self.levels@[0].1,
                m.wf(),
                s == entries_view(m.entries@),
                forall|k: u64| #[trigger] has_key(m.entries@, k) == has_key(s, k),
                earliest < latest ==> interval > 0 && latest + interval <= u64::MAX + 1,
                earliest <= time,
                time < latest ==> interval > 0 && time + interval <= u64::MAX,
                missing@.add(missing_times(s, time as int, latest as int, interval as int))
                    == missing_times(s, earliest as int, latest as int, interval as int),
            decreases if time < latest {
                latest - time
            } else {
                0
            },
        {
            let present = m.contains_key(time);
            if !present {
                proof {
                    assert(missing@.push(time).add(
                        missing_times(s, time + interval, latest as int, interval as int),
                    ) =~= missing@.add(missing_times(s, time as int, latest as int, interval as int)));
                }
                missing.push(time);
            } else {
                proof {
                    assert(missing_times(s, time as int, latest as int, interval as int)
                        == missing_times(s, time + interval, latest as int, interval as int));
                }
            }
            time = time + interval;
        }
        proof {
            assert(missing@.add(missing_times(s, time as int, latest as int, interval as int))
                =~= missing@);
        }
        if missing.len() == 0 {
            None
        } else {
            Some(missing)
        }
    }

    /// The level to draw for `visible_bars` base bars: the coarsest level
    /// that keeps at least 100 bars visible, else the base level; the base
    /// level when it is empty.
    pub fn select_level(&self, visible_bars: u64) -> (r: &TimeMap<D>)
        requires
            self.levels@.len() > 0,
            self.levels@[0].1.entries@.len() > 0 ==> forall|i: int|
                0 <= i < self.levels@.len() ==> timeframe_ms(#[trigger] self.levels@[i].0)
                    >= timeframe_ms(self.base_interval),
        ensures
            *r == self.levels@[if self.levels@[0].1.entries@.len() == 0 {
                0
            } else {
                select_index(
                    self.levels@.map_values(|l: (Timeframe, TimeMap<D>)| l.0),
                    timeframe_ms(self.base_interval) as int,
                    visible_bars as int,
                    self.levels@.len() - 1,
                )
            }].1,
    {
        if self.levels[0].1.entries.len() == 0 {
            return &self.levels[0].1;
        }
        let ghost tfs = self.levels@.map_values(|l: (Timeframe, TimeMap<D>)| l.0);
        let base_ms = self.base_interval.to_milliseconds();
        let mut i = self.levels.len() - 1;
        loop
            invariant
                0 <= i < self.levels@.len(),
                tfs == self.levels@.map_values(|l: (Timeframe, TimeMap<D>)| l.0),
                base_ms == timeframe_ms(self.base_interval),
                forall|j: int|
                    0 <= j < self.levels@.len() ==> timeframe_ms(#[trigger] self.levels@[j].0)
                        >= timeframe_ms(self.base_interval),
                select_index(tfs, base_ms as int, visible_bars as int, self.levels@.len() - 1)
                    == select_index(tfs, base_ms as int, visible_bars as int, i as int),
            ensures
                0 <= i < self.levels@.len(),
                select_index(tfs, base_ms as int, visible_bars as int, self.levels@.len() - 1)
                    == i as int,
            decreases i,
        {
            if i == 0 {
                break;
            }
            let level_ms = self.levels[i].0.to_milliseconds();
            assert(tfs[i as int] == self.levels@[i as int].0);
            let factor = level_ms / base_ms;
            assert(factor >= 1) by (nonlinear_arith)
                requires
                    level_ms >= base_ms,
                    base_ms > 0,
                    factor == level_ms / base_ms,
            ;
            if visible_bars / factor >= 100 {
                break;
            }
            i = i - 1;
        }
        &self.levels[i].1
    }
} // impl


/// The data points of a non-empty run merged left to right.
pub open spec fn fold_merge<D: DataPoint>(w: Seq<(u64, D::V)>) -> D::V
    decreases w.len(),
{
    if w.len() <= 1 {
        w[0].1
    } else {
        D::v_merged(fold_merge::<D>(w.drop_last()), w.last().1)
    }
}

/// Number of runs of five when `n` data points are grouped, the last run
/// possibly shorter.
pub open spec fn chunk_count(n: int) -> int {
    n / 5 + if n % 5 == 0 {
        0int
    } else {
        1int
    }
}

/// Run `c` of five consecutive data points, the last run possibly shorter.
pub open spec fn chunk_of<V>(s: Seq<(u64, V)>, c: int) -> Seq<(u64, V)> {
    s.subrange(5 * c, if 5 * c + 5 < s.len() {
        5 * c + 5
    } else {
        s.len() as int
    })
}

/// The interval five times as long as `base`, if there is one.
pub open spec fn higher_timeframe(base: Timeframe) -> Option<Timeframe> {
    if exists|tf: Timeframe| timeframe_ms(tf) == timeframe_ms(base) * 5 {
        Some(choose|tf: Timeframe| timeframe_ms(tf) == timeframe_ms(base) * 5)
    } else {
        None
    }
}

/// Timeframes of distinct lengths are distinct.
proof fn lemma_timeframe_ms_injective(a: Timeframe, b: Timeframe)
    requires
        timeframe_ms(a) == timeframe_ms(b),
    ensures
        a == b,
{
}

/// The timeframe `from_milliseconds` finds for five base intervals.
proof fn lemma_higher_timeframe(base: Timeframe, r: Option<Timeframe>)
    requires
        r matches Some(tf) ==> timeframe_ms(tf) == timeframe_ms(base) * 5,
        r is None ==> forall|tf: Timeframe| timeframe_ms(tf) != timeframe_ms(base) * 5,
    ensures
        r == higher_timeframe(base),
{
    if let Some(tf) = r {
        let c = choose|t: Timeframe| timeframe_ms(t) == timeframe_ms(base) * 5;
        lemma_timeframe_ms_injective(tf, c);
    }
}

/// The data points of `v[start..end]` merged left to right, as an owned
/// data point.
fn merge_run<D: DataPoint>(v: &Vec<(u64, D)>, start: usize, end: usize) -> (r: D)
    requires
        start < end <= v@.len(),
    ensures
        r@ == fold_merge::<D>(entries_view(v@).subrange(start as int, end as int)),
{
    let ghost s = entries_view(v@);
    let mut agg = v[start].1.duplicate();
    let mut j = start + 1;
    proof {
        assert(s.subrange(start as int, j as int).len() == 1);
    }
    while j < end
        invariant
            start < j <= end,
            end <= v@.len(),
            s == entries_view(v@),
            agg@ == fold_merge::<D>(s.subrange(start as int, j as int)),
        decreases end - j,
    {
        proof {
            let w = s.subrange(start as int, j as int + 1);
            assert(w.drop_last() =~= s.subrange(start as int, j as int));
            assert(w.last() == s[j as int]);
        }
        agg.merge(&v[j].1);
        j = j + 1;
    }
    agg
}

/// Start index and length of run `c` of `n` data points.
fn chunk_bounds(n: usize, c: usize) -> (r: (usize, usize))
    requires
        0 <= c < chunk_count(n as int),
    ensures
        r.0 == 5 * c,
        r.1 == if 5 * c + 5 < n {
            5 * c + 5
        } else {
            n as int
        },
        r.0 < r.1 <= n,
{
    let start = c * 5;
    let end = if n - start > 5 {
        start + 5
    } else {
        n
    };
    (start, end)
}

/// A copy of a level: the same keys and data points by view.
fn copy_level<D: DataPoint>(m: &TimeMap<D>) -> (r: TimeMap<D>)
    requires
        m.wf(),
    ensures
        r.wf(),
        entries_view(r.entries@) == entries_view(m.entries@),
{
    let mut v: Vec<(u64, D)> = Vec::new();
    let mut i: usize = 0;
    while i < m.entries.len()
        invariant
            i <= m.entries@.len(),
            v@.len() == i,
            forall|j: int|
                0 <= j < i ==> (#[trigger] v@[j]).0 == m.entries@[j].0 && v@[j].1@
                    == m.entries@[j].1@,
        decreases m.entries.len() - i,
    {
        let k = m.entries[i].0;
        let d = m.entries[i].1.duplicate();
        v.push((k, d));
        i = i + 1;
    }
    proof {
        assert(same_keys(m.entries@, v@));
        lemma_same_keys(m.entries@, v@, 0);
        assert(entries_view(v@) =~= entries_view(m.entries@));
    }
    TimeMap { entries: v }
}

/// Storing a data point commutes with taking the entries by view.
proof fn lemma_view_set<D: DataPoint>(s: Seq<(u64, D)>, k: u64, v: D)
    requires
        sorted_keys(s),
    ensures
        entries_view(seq_set(s, k, v)) == seq_set(entries_view(s), k, v@),
        seq_get(entries_view(s), k) is None <==> seq_get(s, k) is None,
{
    lemma_entries_view(s);
    lemma_seq_get(s, k);
    lemma_seq_get(entries_view(s), k);
    let i = lower_bound(s, k) as int;
    if i < s.len() && s[i].0 == k {
        assert(entries_view(s.update(i, (k, v))) =~= entries_view(s).update(i, (k, v@)));
    } else {
        lemma_lower_bound(s, k);
        let a = entries_view(s.insert(i, (k, v)));
        let b = entries_view(s).insert(i, (k, v@));
        assert forall|j: int| 0 <= j < a.len() implies a[j] == b[j] by {
            if j < i {
            } else if j == i {
            } else {
                assert(s.insert(i, (k, v))[j] == s[j - 1]);
            }
        }
        assert(a =~= b);
    }
}

/// Start of the `aggr`-millisecond bucket holding time `t`.
pub open spec fn bucket_time(t: u64, aggr: u64) -> u64 {
    ((t / aggr) * aggr) as u64
}

/// A bucket opened by a trade at `price`: every candle price at the trade
/// price, no volume, no footprint.
pub open spec fn bucket_for(time: u64, price: Price) -> KlineDataPointV {
    KlineDataPointV {
        kline: Kline {
            time,
            open: price,
            high: price,
            low: price,
            close: price,
            buy_volume: 0,
            sell_volume: 0,
        },
        footprint: KlineTradesV { trades: Seq::empty(), poc: None },
    }
}

/// Base entries after recording trade `t` in the bucket keyed `k`; a missing
/// bucket is opened when `create` holds, else the trade is dropped.
pub open spec fn put_trade_at(
    s: Seq<(u64, KlineDataPointV)>,
    k: u64,
    t: Trade,
    step: PriceStep,
    create: bool,
) -> Seq<(u64, KlineDataPointV)> {
    match seq_get(s, k) {
        Some(v) => seq_set(s, k, <KlineDataPoint as DataPoint>::v_with_trade(v, t, step)),
        None => if create {
            seq_set(s, k, <KlineDataPoint as DataPoint>::v_with_trade(bucket_for(k, t.price), t, step))
        } else {
            s
        },
    }
}

/// Base entries after recording the trades in order, each in the bucket of
/// its time.
pub open spec fn put_trades(
    s: Seq<(u64, KlineDataPointV)>,
    ts: Seq<Trade>,
    aggr: u64,
    step: PriceStep,
    create: bool,
) -> Seq<(u64, KlineDataPointV)>
    decreases ts.len(),
{
    if ts.len() == 0 {
        s
    } else {
        let t = ts.last();
        put_trade_at(
            put_trades(s, ts.drop_last(), aggr, step, create),
            bucket_time(t.time, aggr),
            t,
            step,
            create,
        )
    }
}

/// Bucket keys of the trades, in trade order.
pub open spec fn trade_keys(ts: Seq<Trade>, aggr: u64) -> Seq<u64> {
    ts.map_values(|t: Trade| bucket_time(t.time, aggr))
}

/// The data point with its point of control recomputed from its footprint.
pub open spec fn recalc_poc(v: KlineDataPointV) -> KlineDataPointV {
    KlineDataPointV {
        kline: v.kline,
        footprint: KlineTradesV {
            trades: v.footprint.trades,
            poc: levels_poc(v.footprint.trades, v.footprint.poc),
        },
    }
}

/// Entries whose key is listed get their point of control recomputed.
pub open spec fn recalc_pocs(s: Seq<(u64, KlineDataPointV)>, keys: Seq<u64>) -> Seq<
    (u64, KlineDataPointV),
> {
    s.map_values(
        |e: (u64, KlineDataPointV)|
            if keys.contains(e.0) {
                (e.0, recalc_poc(e.1))
            } else {
                e
            },
    )
}

/// Whether every candle's low and high lie in the range where step rounding
/// cannot overflow.
pub open spec fn klines_in_range(s: Seq<(u64, KlineDataPointV)>) -> bool {
    forall|i: int|
        0 <= i < s.len() ==> price_units_in_range((#[trigger] s[i]).1.kline.low.units as int)
            && price_units_in_range(s[i].1.kline.high.units as int)
}

/// The pyramid with its base level's entries replaced.
pub open spec fn with_base<V>(p: PyramidV<V>, b: Seq<(u64, V)>) -> PyramidV<V> {
    PyramidV { levels: p.levels.update(0, (p.levels[0].0, b)), ..p }
}

/// The pyramid after recording trades in the base buckets of their times
/// (opening missing ones where `create` holds, dropping their trades
/// otherwise), with the point of control of every bucket a trade reached
/// recomputed; the other levels are left as they are.
pub open spec fn after_trades(p: PyramidV<KlineDataPointV>, ts: Seq<Trade>, create: bool) -> PyramidV<KlineDataPointV> {
    with_base(
        p,
        recalc_pocs(
            put_trades(base_of(p), ts, timeframe_ms(p.base_interval), p.tick_size, create),
            trade_keys(ts, timeframe_ms(p.base_interval)),
        ),
    )
}

proof fn lemma_contains_push(ks: Seq<u64>, k: u64, x: u64)
    ensures
        ks.push(k).contains(x) <==> (ks.contains(x) || x == k),
{
    if ks.contains(x) {
        let w = choose|w: int| 0 <= w < ks.len() && ks[w] == x;
        assert(ks.push(k)[w] == x);
    }
    if x == k {
        assert(ks.push(k)[ks.len() as int] == x);
    }
    if ks.push(k).contains(x) {
        let w = choose|w: int| 0 <= w < ks.push(k).len() && ks.push(k)[w] == x;
        if w < ks.len() {
            assert(ks[w] == x);
        }
    }
}

/// Recomputing points of control for one more key changes only the entry
/// at that key.
proof fn lemma_recalc_push(s: Seq<(u64, KlineDataPointV)>, ks: Seq<u64>, k: u64)
    requires
        sorted_keys(s),
    ensures
        recalc_pocs(s, ks.push(k)) == (if has_key(s, k) {
            let r = recalc_pocs(s, ks);
            let i = lower_bound(s, k) as int;
            r.update(i, (k, recalc_poc(r[i].1)))
        } else {
            recalc_pocs(s, ks)
        }),
{
    let r = recalc_pocs(s, ks);
    let q = recalc_pocs(s, ks.push(k));
    lemma_lower_bound(s, k);
    lemma_seq_get(s, k);
    if has_key(s, k) {
        let i = lower_bound(s, k) as int;
        let w = choose|w: int| 0 <= w < s.len() && #[trigger] s[w].0 == k;
        assert(w == i) by {
            if w < i {
                assert(s[w].0 < k);
            } else if w > i {
                assert(s[i].0 < s[w].0);
            }
        }
        assert forall|a: int| 0 <= a < s.len() implies #[trigger] q[a] == r.update(
            i,
            (k, recalc_poc(r[i].1)),
        )[a] by {
            lemma_contains_push(ks, k, s[a].0);
            if a != i {
                if a < i {
                    assert(s[a].0 < s[i].0);
                } else {
                    assert(s[i].0 < s[a].0);
                }
            }
        }
        assert(q =~= r.update(i, (k, recalc_poc(r[i].1))));
    } else {
        assert forall|a: int| 0 <= a < s.len() implies #[trigger] q[a] == r[a] by {
            lemma_contains_push(ks, k, s[a].0);
            assert(s[a].0 != k);
        }
        assert(q =~= r);
    }
}

/// Whether `x` occurs in `v`.
fn vec_contains(v: &Vec<u64>, x: u64) -> (b: bool)
    ensures
        b == v@.contains(x),
{
    let mut i: usize = 0;
    while i < v.len()
        invariant
            i <= v@.len(),
            forall|j: int| 0 <= j < i ==> v@[j] != x,
        decreases v.len() - i,
    {
        if v[i] == x {
            assert(v@[i as int] == x);
            return true;
        }
        i = i + 1;
    }
    false
}


/// The aggregated level of kline data points: each run of five merged and
/// keyed by the merged candle's time.
pub open spec fn kline_level(s: Seq<(u64, KlineDataPointV)>, c: int) -> Seq<
    (u64, KlineDataPointV),
>
    decreases c,
{
    if c <= 0 {
        Seq::empty()
    } else {
        let agg = fold_merge::<KlineDataPoint>(chunk_of(s, c - 1));
        seq_set(kline_level(s, c - 1), agg.kline.time, agg)
    }
}

/// A kline pyramid with its aggregated level built: when the base interval
/// has a five-times-longer interval, only the base level exists and it holds
/// data, that level is added.
pub open spec fn kline_built(p: PyramidV<KlineDataPointV>) -> PyramidV<KlineDataPointV> {
    match higher_timeframe(p.base_interval) {
        Some(tf) => if p.levels.len() == 1 && p.levels[0].1.len() > 0 {
            PyramidV {
                levels: p.levels.push(
                    (tf, kline_level(p.levels[0].1, chunk_count(p.levels[0].1.len() as int))),
                ),
                ..p
            }
        } else {
            p
        },
        None => p,
    }
}

/// Base entries after storing a candle under its time: an existing data
/// point takes the candle and keeps its footprint, else a data point without
/// trades is added.
pub open spec fn put_kline(s: Seq<(u64, KlineDataPointV)>, k: Kline) -> Seq<(u64, KlineDataPointV)> {
    match seq_get(s, k.time) {
        Some(v) => seq_set(s, k.time, KlineDataPointV { kline: k, footprint: v.footprint }),
        None => seq_set(
            s,
            k.time,
            KlineDataPointV { kline: k, footprint: KlineTradesV { trades: Seq::empty(), poc: None } },
        ),
    }
}

/// Base entries after storing the candles in order.
pub open spec fn put_klines(s: Seq<(u64, KlineDataPointV)>, ks: Seq<Kline>) -> Seq<
    (u64, KlineDataPointV),
>
    decreases ks.len(),
{
    if ks.len() == 0 {
        s
    } else {
        put_kline(put_klines(s, ks.drop_last()), ks.last())
    }
}

/// Whether a candle's low and high lie in the rounding-safe range.
pub open spec fn kline_in_range(k: Kline) -> bool {
    price_units_in_range(k.low.units as int) && price_units_in_range(k.high.units as int)
}

/// Storing a data point whose candle is in range keeps every candle in range.
proof fn lemma_in_range_set(s: Seq<(u64, KlineDataPointV)>, k: u64, v: KlineDataPointV)
    requires
        sorted_keys(s),
        klines_in_range(s),
        kline_in_range(v.kline),
    ensures
        klines_in_range(seq_set(s, k, v)),
{
    lemma_lower_bound(s, k);
    let i = lower_bound(s, k) as int;
    let r = seq_set(s, k, v);
    assert forall|a: int| 0 <= a < r.len() implies price_units_in_range(
        (#[trigger] r[a]).1.kline.low.units as int,
    ) && price_units_in_range(r[a].1.kline.high.units as int) by {
        if i < s.len() && s[i].0 == k {
            if a != i {
                assert(r[a] == s[a]);
            }
        } else {
            if a < i {
                assert(r[a] == s[a]);
            } else if a > i {
                assert(r[a] == s[a - 1]);
            }
        }
    }
}

/// Data points of the last run of trades-free buckets: index of the newest
/// base bucket without footprint levels, or -1.
pub open spec fn last_empty_index(s: Seq<(u64, KlineDataPointV)>) -> int
    decreases s.len(),
{
    if s.len() == 0 {
        -1
    } else if s.last().1.footprint.trades.len() == 0 {
        s.len() - 1
    } else {
        last_empty_index(s.drop_last())
    }
}

/// Latest trade time of the newest bucket before index `i` that has one.
pub open spec fn last_time_before(s: Seq<(u64, KlineDataPointV)>, i: int) -> Option<u64>
    decreases i,
{
    if i <= 0 || i > s.len() {
        None
    } else {
        match <KlineDataPoint as DataPoint>::v_last_trade_time(s[i - 1].1) {
            Some(t) => Some(t),
            None => last_time_before(s, i - 1),
        }
    }
}

/// Earliest trade time of the oldest bucket from index `i` on that has one.
pub open spec fn first_time_after(s: Seq<(u64, KlineDataPointV)>, i: int) -> Option<u64>
    decreases s.len() - i,
{
    if i < 0 || i >= s.len() {
        None
    } else {
        match <KlineDataPoint as DataPoint>::v_first_trade_time(s[i].1) {
            Some(t) => Some(t),
            None => first_time_after(s, i + 1),
        }
    }
}

/// Around the newest bucket without trades: the last trade time before it
/// and the first trade time after it; `None` when every bucket has trades.
pub open spec fn trade_gap(s: Seq<(u64, KlineDataPointV)>) -> Option<(Option<u64>, Option<u64>)> {
    let g = last_empty_index(s);
    if g < 0 {
        None
    } else {
        Some((last_time_before(s, g), first_time_after(s, g + 1)))
    }
}

/// The range of trades to fetch so the visible window gets its missing
/// trades, as `suggest_trade_fetch_range` computes it.
pub open spec fn fetch_range(
    s: Seq<(u64, KlineDataPointV)>,
    visible_earliest: u64,
    visible_latest: u64,
) -> Option<(u64, u64)> {
    if s.len() == 0 {
        None
    } else {
        match trade_gap(s) {
            None => None,
            Some((before, after)) => if before is None && after is None {
                Some((visible_earliest, visible_latest))
            } else {
                let from0 = match before {
                    Some(t) => t.saturating_add(1),
                    None => s[0].0,
                };
                let to0 = match after {
                    Some(t) => t.saturating_sub(1),
                    None => s.last().0,
                };
                let from = if from0 > visible_earliest {
                    from0
                } else {
                    visible_earliest
                };
                let to = if to0 < visible_latest {
                    to0
                } else {
                    visible_latest
                };
                if from < to {
                    Some((from, to))
                } else {
                    None
                }
            },
        }
    }
}

/// A candle price rounded to the tick grid: down for a low, up for a high.
pub open spec fn side_round(p: Price, down: bool, step: PriceStep) -> int {
    if step.units <= 1 {
        p.units as int
    } else if down {
        floor_to_step(p.units as int, step.units as int)
    } else {
        ceil_to_step(p.units as int, step.units as int)
    }
}

/// Whether a candle's range, widened to the tick grid, reaches price `p`.
pub open spec fn covers(v: KlineDataPointV, p: Price, step: PriceStep) -> bool {
    side_round(v.kline.low, true, step) <= p.units && p.units <= side_round(
        v.kline.high,
        false,
        step,
    )
}

/// Status of a point of control at price `p` after scanning the candles from
/// index `j` on: filled at the first candle that reaches it, naked when a
/// later candle exists and none does, `acc` when no candle is left.
pub open spec fn npoc_scan(
    s: Seq<(u64, KlineDataPointV)>,
    j: int,
    p: Price,
    step: PriceStep,
    acc: NPoc,
) -> NPoc
    decreases s.len() - j,
{
    if j < 0 || j >= s.len() {
        acc
    } else if covers(s[j].1, p, step) {
        NPoc::Filled { at: s[j].0 }
    } else {
        npoc_scan(s, j + 1, p, step, NPoc::Naked)
    }
}

/// The data point at index `i` with the status of its point of control
/// decided by the candles after it.
pub open spec fn poc_status_at(s: Seq<(u64, KlineDataPointV)>, i: int, step: PriceStep) -> KlineDataPointV {
    let v = s[i].1;
    match v.footprint.poc {
        Some(poc) => KlineDataPointV {
            kline: v.kline,
            footprint: KlineTradesV {
                trades: v.footprint.trades,
                poc: poc_with_status(
                    v.footprint.poc,
                    npoc_scan(s, i + 1, poc.price, step, NPoc::Unset),
                ),
            },
        },
        None => v,
    }
}

/// Every data point with the status of its point of control updated.
pub open spec fn poc_statuses(s: Seq<(u64, KlineDataPointV)>, step: PriceStep) -> Seq<
    (u64, KlineDataPointV),
> {
    Seq::new(s.len(), |i: int| (s[i].0, poc_status_at(s, i, step)))
}

/// The pyramid with every data point's trades dropped and `step` as its
/// price step.
pub open spec fn cleared_with_step<D: DataPoint>(p: PyramidV<D::V>, step: PriceStep) -> PyramidV<D::V> {
    PyramidV {
        levels: p.levels.map_values(
            |l: (Timeframe, Seq<(u64, D::V)>)|
                (l.0, l.1.map_values(|e: (u64, D::V)| (e.0, D::v_cleared(e.1)))),
        ),
        base_interval: p.base_interval,
        tick_size: step,
    }
}

/// Each base time with the candle's buy and sell volume.
pub open spec fn volumes_of(s: Seq<(u64, KlineDataPointV)>) -> Seq<(u64, (u64, u64))> {
    s.map_values(|e: (u64, KlineDataPointV)| (e.0, (e.1.kline.buy_volume, e.1.kline.sell_volume)))
}

impl DataPyramid<KlineDataPoint> {
    /// Records `trade` in the base bucket keyed `k`; a missing bucket is
    /// opened first when `create` holds, else nothing changes.
    fn put_trade_in_base(&mut self, k: u64, trade: &Trade, create: bool)
        requires
            old(self).wf(),
            old(self).levels@.len() > 0,
            price_units_in_range(trade.price.units as int),
            old(self).tick_size.units <= MAX_PRICE_UNITS,
        ensures
            final(self).wf(),
            final(self).levels@.len() == old(self).levels@.len(),
            forall|a: int|
                1 <= a < old(self).levels@.len() ==> #[trigger] final(self).levels@[a] == old(
                    self,
                ).levels@[a],
            final(self).levels@[0].0 == old(self).levels@[0].0,
            final(self).base_interval == old(self).base_interval,
            final(self).tick_size == old(self).tick_size,
            entries_view(final(self).levels@[0].1.entries@) == put_trade_at(
                entries_view(old(self).levels@[0].1.entries@),
                k,
                *trade,
                old(self).tick_size,
                create,
            ),
    {
        let step = self.tick_size;
        let ghost s0 = self.levels@[0].1.entries@;
        assert(self.levels@[0].1.wf());
        proof {
            lemma_seq_get(s0, k);
            lemma_seq_get(entries_view(s0), k);
            lemma_entries_view(s0);
        }
        let found = self.levels[0].1.find(k);
        let i = match found {
            Some(i) => {
                proof {
                    lemma_index_is_lower_bound(entries_view(s0), i as int);
                }
                i
            },
            None => {
                if !create {
                    return ;
                }
                let kl = Kline {
                    time: k,
                    open: trade.price,
                    high: trade.price,
                    low: trade.price,
                    close: trade.price,
                    buy_volume: 0,
                    sell_volume: 0,
                };
                let dp = KlineDataPoint::new(kl);
                proof {
                    lemma_view_set(s0, k, dp);
                    lemma_seq_set(s0, k, dp);
                }
                self.levels[0].1.insert(k, dp);
                assert(self.levels@[0].1.wf());
                let j = self.levels[0].1.lower_bound(k);
                proof {
                    let e1 = self.levels@[0].1.entries@;
                    lemma_lower_bound(e1, k);
                    lemma_seq_get(e1, k);
                    lemma_entries_view(e1);
                    assert(j < e1.len() && e1[j as int].0 == k);
                    lemma_index_is_lower_bound(entries_view(e1), j as int);
                    lemma_seq_set_twice(
                        entries_view(s0),
                        k,
                        bucket_for(k, trade.price),
                        <KlineDataPoint as DataPoint>::v_with_trade(
                            bucket_for(k, trade.price),
                            *trade,
                            step,
                        ),
                    );
                    lemma_entries_view(s0);
                }
                j
            },
        };
        let ghost e1 = self.levels@[0].1.entries@;
        let ghost lv = self.levels@;
        self.levels[0].1.entries[i].1.add_trade(trade, step);
        proof {
            let e2 = self.levels@[0].1.entries@;
            assert(e2 == e1.update(i as int, (k, e2[i as int].1)));
            assert(entries_view(e2) =~= entries_view(e1).update(i as int, (k, e2[i as int].1@)));
            assert(same_keys(e1, e2));
            lemma_same_keys(e1, e2, k);
            assert(forall|a: int| 1 <= a < lv.len() ==> #[trigger] self.levels@[a] == lv[a]);
        }
    }

    /// Recomputes the point of control of the base bucket keyed `k`, if
    /// there is one.
    fn recalc_poc_in_base(&mut self, k: u64)
        requires
            old(self).wf(),
            old(self).levels@.len() > 0,
        ensures
            final(self).wf(),
            final(self).levels@.len() == old(self).levels@.len(),
            forall|a: int|
                1 <= a < old(self).levels@.len() ==> #[trigger] final(self).levels@[a] == old(
                    self,
                ).levels@[a],
            final(self).levels@[0].0 == old(self).levels@[0].0,
            final(self).base_interval == old(self).base_interval,
            final(self).tick_size == old(self).tick_size,
            ({
                let s = entries_view(old(self).levels@[0].1.entries@);
                let i = lower_bound(s, k) as int;
                entries_view(final(self).levels@[0].1.entries@) == if has_key(s, k) {
                    s.update(i, (k, recalc_poc(s[i].1)))
                } else {
                    s
                }
            }),
    {
        let ghost e0 = self.levels@[0].1.entries@;
        let ghost lv = self.levels@;
        assert(self.levels@[0].1.wf());
        proof {
            lemma_entries_view(e0);
            lemma_lower_bound(e0, k);
        }
        match self.levels[0].1.find(k) {
            Some(i) => {
                self.levels[0].1.entries[i].1.calculate_poc();
                proof {
                    let e2 = self.levels@[0].1.entries@;
                    assert(e2[i as int].1@ == recalc_poc(e0[i as int].1@));
                    assert(entries_view(e2) =~= entries_view(e0).update(
                        i as int,
                        (k, recalc_poc(entries_view(e0)[i as int].1)),
                    ));
                    assert(same_keys(e0, e2));
                    lemma_same_keys(e0, e2, k);
                    assert(forall|a: int| 1 <= a < lv.len() ==> #[trigger] self.levels@[a] == lv[a]);
                }
            },
            None => {},
        }
    }

    /// Switches to price step `tick_size`: every data point drops its trades,
    /// then `raw_trades` are recorded again in the base buckets that exist.
    pub fn change_tick_size(&mut self, tick_size: PriceStep, raw_trades: &[Trade])
        requires
            old(self).wf(),
            raw_trades@.len() > 0 ==> old(self).levels@.len() > 0,
            tick_size.units <= MAX_PRICE_UNITS,
            forall|i: int|
                0 <= i < raw_trades@.len() ==> price_units_in_range(
                    (#[trigger] raw_trades@[i]).price.units as int,
                ),
        ensures
            final(self).wf(),
            ({
                let c = cleared_with_step::<KlineDataPoint>(old(self)@, tick_size);
                final(self)@ == if raw_trades@.len() == 0 {
                    c
                } else {
                    with_base(
                        c,
                        recalc_pocs(
                            put_trades(
                                base_of(c),
                                raw_trades@,
                                timeframe_ms(old(self).base_interval),
                                tick_size,
                                false,
                            ),
                            trade_keys(raw_trades@, timeframe_ms(old(self).base_interval)),
                        ),
                    )
                }
            }),
    {
        self.tick_size = tick_size;
        self.clear_trades();
        proof {
            assert(self@.levels =~= cleared_with_step::<KlineDataPoint>(old(self)@, tick_size).levels);
        }
        if raw_trades.len() > 0 {
            self.insert_trades_existing_buckets(raw_trades);
        }
    }

    /// Buy and sell volume of each base candle, by time.
    pub fn volume_data(&self) -> (r: Vec<(u64, (u64, u64))>)
        requires
            self.levels@.len() > 0,
        ensures
            r@ == volumes_of(base_of(self@)),
    {
        let m = &self.levels[0].1;
        let mut out: Vec<(u64, (u64, u64))> = Vec::new();
        let mut i: usize = 0;
        while i < m.entries.len()
            invariant
                i <= m.entries@.len(),
                m == &self.levels@[0].1,
                self.levels@.len() > 0,
                out@ == volumes_of(base_of(self@)).take(i as int),
            decreases m.entries.len() - i,
        {
            let k = &m.entries[i].1.kline;
            out.push((m.entries[i].0, (k.buy_volume, k.sell_volume)));
            proof {
                assert(volumes_of(base_of(self@)).take(i as int + 1) =~= volumes_of(base_of(self@)).take(i as int).push(
                    (m.entries@[i as int].0, (k.buy_volume, k.sell_volume)),
                ));
            }
            i = i + 1;
        }
        proof {
            assert(volumes_of(base_of(self@)).take(m.entries@.len() as int) =~= volumes_of(base_of(self@)));
        }
        out
    }

    /// Records each trade in the base bucket of its time, opening missing
    /// buckets with the trade's price, then recomputes the point of control
    /// of every bucket a trade reached.
    pub fn insert_trades_or_create_bucket(&mut self, buffer: &[Trade])
        requires
            old(self).wf(),
            buffer@.len() > 0 ==> old(self).levels@.len() > 0,
            buffer@.len() > 0 ==> old(self).tick_size.units <= MAX_PRICE_UNITS,
            forall|i: int|
                0 <= i < buffer@.len() ==> price_units_in_range(
                    (#[trigger] buffer@[i]).price.units as int,
                ),
        ensures
            final(self).wf(),
            buffer@.len() == 0 ==> final(self)@ == old(self)@,
            buffer@.len() > 0 ==> final(self)@ == after_trades(old(self)@, buffer@, true),
    {
        if buffer.len() == 0 {
            return;
        }
        self.insert_trades(buffer, true);
    }

    /// Records each trade in the base bucket of its time when that bucket
    /// exists, dropping the others, then recomputes the point of control of
    /// every bucket a trade reached.
    pub fn insert_trades_existing_buckets(&mut self, buffer: &[Trade])
        requires
            old(self).wf(),
            buffer@.len() > 0 ==> old(self).levels@.len() > 0,
            buffer@.len() > 0 ==> old(self).tick_size.units <= MAX_PRICE_UNITS,
            forall|i: int|
                0 <= i < buffer@.len() ==> price_units_in_range(
                    (#[trigger] buffer@[i]).price.units as int,
                ),
        ensures
            final(self).wf(),
            buffer@.len() == 0 ==> final(self)@ == old(self)@,
            buffer@.len() > 0 ==> final(self)@ == after_trades(old(self)@, buffer@, false),
    {
        if buffer.len() == 0 {
            return;
        }
        self.insert_trades(buffer, false);
    }

    fn insert_trades(&mut self, buffer: &[Trade], create: bool)
        requires
            old(self).wf(),
            old(self).levels@.len() > 0,
            old(self).tick_size.units <= MAX_PRICE_UNITS,
            forall|i: int|
                0 <= i < buffer@.len() ==> price_units_in_range(
                    (#[trigger] buffer@[i]).price.units as int,
                ),
        ensures
            final(self).wf(),
            final(self)@ == with_base(
                old(self)@,
                recalc_pocs(
                    put_trades(
                        base_of(old(self)@),
                        buffer@,
                        timeframe_ms(old(self).base_interval),
                        old(self).tick_size,
                        create,
                    ),
                    trade_keys(buffer@, timeframe_ms(old(self).base_interval)),
                ),
            ),
    {
        let ghost lv0 = self.levels@;
        let ghost old_view = self@;
        let ghost s0 = entries_view(self.levels@[0].1.entries@);
        let aggr = self.base_interval.to_milliseconds();
        let step = self.tick_size;
        proof {
            assert(self.levels@[0].1.wf());
            lemma_entries_view(self.levels@[0].1.entries@);
            self.lemma_wf_view();
        }
        let mut updated: Vec<u64> = Vec::new();
        let mut i: usize = 0;
        while i < buffer.len()
            invariant
                self.wf(),
                self.levels@.len() == lv0.len(),
                lv0.len() > 0,
                forall|a: int| 1 <= a < lv0.len() ==> #[trigger] self.levels@[a] == lv0[a],
                self.levels@[0].0 == lv0[0].0,
                self.base_interval == old(self).base_interval,
                self.tick_size == old(self).tick_size,
                step == self.tick_size,
                step.units <= MAX_PRICE_UNITS,
                aggr == timeframe_ms(self.base_interval),
                aggr > 0,
                i <= buffer@.len(),
                forall|j: int|
                    0 <= j < buffer@.len() ==> price_units_in_range(
                        (#[trigger] buffer@[j]).price.units as int,
                    ),
                entries_view(self.levels@[0].1.entries@) == put_trades(
                    s0,
                    buffer@.take(i as int),
                    aggr,
                    step,
                    create,
                ),
                create ==> forall|x: u64|
                    #[trigger] updated@.contains(x) <==> trade_keys(buffer@.take(i as int), aggr).contains(x),
                !create ==> forall|x: u64|
                    has_key(entries_view(self.levels@[0].1.entries@), x) ==> (#[trigger] updated@.contains(x)
                        <==> trade_keys(buffer@.take(i as int), aggr).contains(x)),
                !create ==> forall|x: u64|
                    #[trigger] updated@.contains(x) ==> has_key(
                        entries_view(self.levels@[0].1.entries@),
                        x,
                    ),
                !create ==> forall|x: u64|
                    #[trigger] has_key(entries_view(self.levels@[0].1.entries@), x) == has_key(s0, x),
            decreases buffer.len() - i,
        {
            let t = buffer[i];
            proof {
                vstd::arithmetic::div_mod::lemma_fundamental_div_mod(t.time as int, aggr as int);
                assert((t.time / aggr) * aggr <= t.time) by (nonlinear_arith)
                    requires
                        aggr > 0,
                        t.time == aggr * (t.time / aggr) + t.time % aggr,
                        t.time % aggr >= 0,
                ;
            }
            let k = (t.time / aggr) * aggr;
            let ghost sv = entries_view(self.levels@[0].1.entries@);
            let ghost ks = trade_keys(buffer@.take(i as int), aggr);
            proof {
                assert(buffer@.take(i as int + 1).drop_last() =~= buffer@.take(i as int));
                assert(trade_keys(buffer@.take(i as int + 1), aggr) =~= ks.push(k));
                assert(self.levels@[0].1.wf());
                lemma_entries_view(self.levels@[0].1.entries@);
                lemma_seq_get(sv, k);
            }
            let ghost u0 = updated@;
            let mut present = true;
            if !create {
                present = self.levels[0].1.contains_key(k);
            }
            if present && !vec_contains(&updated, k) {
                updated.push(k);
            }
            proof {
                assert(updated@ == u0 || updated@ == u0.push(k));
                if create {
                    assert forall|x: u64| #[trigger] updated@.contains(x) <==> ks.push(k).contains(x) by {
                        lemma_contains_push(ks, k, x);
                        lemma_contains_push(u0, k, x);
                    }
                }
            }
            self.put_trade_in_base(k, &t, create);
            proof {
                let sv2 = entries_view(self.levels@[0].1.entries@);
                assert(sv2 == put_trades(s0, buffer@.take(i as int + 1), aggr, step, create));
                if !create {
                    assert forall|x: u64| #[trigger] has_key(sv2, x) == has_key(sv, x) by {
                        if has_key(sv, k) {
                            lemma_seq_set(
                                sv,
                                k,
                                <KlineDataPoint as DataPoint>::v_with_trade(seq_get(sv, k).unwrap(), t, step),
                            );
                        }
                    }
                    assert forall|x: u64| has_key(sv2, x) implies (#[trigger] updated@.contains(x)
                        <==> ks.push(k).contains(x)) by {
                        lemma_contains_push(ks, k, x);
                        lemma_contains_push(u0, k, x);
                    }
                    assert forall|x: u64| #[trigger] updated@.contains(x) implies has_key(sv2, x) by {
                        lemma_contains_push(u0, k, x);
                    }
                }
            }
            i = i + 1;
        }
        proof {
            assert(buffer@.take(buffer@.len() as int) =~= buffer@);
        }
        let ghost s1 = entries_view(self.levels@[0].1.entries@);
        proof {
            assert(self.levels@[0].1.wf());
            lemma_entries_view(self.levels@[0].1.entries@);
            assert(recalc_pocs(s1, updated@.take(0)) =~= s1);
        }
        let mut j: usize = 0;
        while j < updated.len()
            invariant
                self.wf(),
                self.levels@.len() == lv0.len(),
                lv0.len() > 0,
                forall|a: int| 1 <= a < lv0.len() ==> #[trigger] self.levels@[a] == lv0[a],
                self.levels@[0].0 == lv0[0].0,
                self.base_interval == old(self).base_interval,
                self.tick_size == old(self).tick_size,
                sorted_keys(s1),
                j <= updated@.len(),
                entries_view(self.levels@[0].1.entries@) == recalc_pocs(s1, updated@.take(j as int)),
            decreases updated.len() - j,
        {
            let k = updated[j];
            let ghost r = entries_view(self.levels@[0].1.entries@);
            proof {
                let ks = updated@.take(j as int);
                assert(updated@.take(j as int + 1) =~= ks.push(k));
                lemma_recalc_push(s1, ks, k);
                assert(same_keys(s1, r));
                lemma_same_keys(s1, r, k);
            }
            self.recalc_poc_in_base(k);
            j = j + 1;
        }
        proof {
            assert(updated@.take(updated@.len() as int) =~= updated@);
            let keys = trade_keys(buffer@, aggr);
            let a = recalc_pocs(s1, updated@);
            let b = recalc_pocs(s1, keys);
            assert forall|x: int| 0 <= x < s1.len() implies a[x] == b[x] by {
                if !create {
                    assert(has_key(s1, s1[x].0));
                }
            }
            assert(a =~= b);
            let fin = self@;
            self.lemma_wf_view();
            assert(fin.levels =~= old_view.levels.update(0, (old_view.levels[0].0, b)));
        }
    }

    /// Marks each base point of control as filled by the first later candle
    /// whose range, widened to the tick grid, reaches it, or as naked when no
    /// later candle does.
    pub fn update_poc_status(&mut self)
        requires
            old(self).wf(),
            old(self).levels@.len() > 0,
            old(self).tick_size.units <= MAX_PRICE_UNITS,
            klines_in_range(base_of(old(self)@)),
        ensures
            final(self).wf(),
            final(self)@ == with_base(old(self)@, poc_statuses(base_of(old(self)@), old(self).tick_size)),
    {
        let ghost lv0 = self.levels@;
        let ghost old_view = self@;
        let ghost e0 = self.levels@[0].1.entries@;
        let ghost s0 = entries_view(e0);
        let step = self.tick_size;
        let n = self.levels[0].1.entries.len();
        proof {
            self.lemma_wf_view();
            assert(self.levels@[0].1.wf());
        }
        let mut i: usize = 0;
        while i < n
            invariant
                self.levels@.len() == lv0.len(),
                lv0.len() > 0,
                forall|a: int| 1 <= a < lv0.len() ==> #[trigger] self.levels@[a] == lv0[a],
                self.levels@[0].0 == lv0[0].0,
                self.base_interval == old(self).base_interval,
                self.tick_size == old(self).tick_size,
                step == self.tick_size,
                step.units <= MAX_PRICE_UNITS,
                e0 == lv0[0].1.entries@,
                s0 == entries_view(e0),
                klines_in_range(s0),
                n == e0.len(),
                self.levels@[0].1.entries@.len() == n,
                i <= n,
                forall|a: int|
                    0 <= a < i ==> (#[trigger] self.levels@[0].1.entries@[a]).0 == e0[a].0
                        && self.levels@[0].1.entries@[a].1@ == poc_status_at(s0, a, step),
                forall|a: int| i <= a < n ==> #[trigger] self.levels@[0].1.entries@[a] == e0[a],
            decreases n - i,
        {
            let pp = self.levels[0].1.entries[i].1.poc_price();
            match pp {
                Some(p) => {
                    let mut npoc = NPoc::Unset;
                    let mut done = false;
                    let mut j = i + 1;
                    while j < n && !done
                        invariant
                            i < j <= n,
                            n == e0.len(),
                            self.levels@[0].1.entries@.len() == n,
                            lv0.len() > 0,
                            self.levels@.len() == lv0.len(),
                            forall|a: int|
                                i <= a < n ==> #[trigger] self.levels@[0].1.entries@[a] == e0[a],
                            s0 == entries_view(e0),
                            klines_in_range(s0),
                            step.units <= MAX_PRICE_UNITS,
                            done ==> npoc_scan(s0, i + 1, p, step, NPoc::Unset) == npoc,
                            !done ==> npoc_scan(s0, i + 1, p, step, NPoc::Unset) == npoc_scan(
                                s0,
                                j as int,
                                p,
                                step,
                                npoc,
                            ),
                        decreases n - j,
                    {
                        let kl = self.levels[0].1.entries[j].1.kline;
                        let key = self.levels[0].1.entries[j].0;
                        proof {
                            assert(s0[j as int].1.kline == kl);
                            assert(price_units_in_range(s0[j as int].1.kline.low.units as int));
                            assert(price_units_in_range(s0[j as int].1.kline.high.units as int));
                        }
                        let lo = kl.low.round_to_side_step(true, step);
                        let hi = kl.high.round_to_side_step(false, step);
                        if lo.units <= p.units && hi.units >= p.units {
                            npoc.filled(key);
                            done = true;
                        } else {
                            npoc.unfilled();
                        }
                        j = j + 1;
                    }
                    self.levels[0].1.entries[i].1.set_poc_status(npoc);
                },
                None => {},
            }
            i = i + 1;
        }
        proof {
            let e2 = self.levels@[0].1.entries@;
            assert(same_keys(e0, e2));
            lemma_same_keys(e0, e2, 0);
            assert(self.levels@[0].1.wf());
            assert(entries_view(e2) =~= poc_statuses(s0, step));
            self.lemma_wf_view();
            assert(self@.levels =~= old_view.levels.update(0, (old_view.levels[0].0, poc_statuses(s0, step))));
        }
    }

    /// Adds the aggregated level over the base data points (runs of five,
    /// each keyed by its merged candle's time), when the base interval has a
    /// five-times-longer interval, no aggregated level exists yet and the
    /// base holds data.
    pub fn build_pyramid(&mut self)
        requires
            old(self).wf(),
            higher_timeframe(old(self).base_interval) is Some ==> old(self).levels@.len() > 0,
        ensures
            final(self).wf(),
            final(self)@ == kline_built(old(self)@),
    {
        let ghost old_view = self@;
        proof {
            self.lemma_wf_view();
        }
        let base_ms = self.base_interval.to_milliseconds();
        let higher = Timeframe::from_milliseconds(base_ms * 5);
        proof {
            lemma_higher_timeframe(self.base_interval, higher);
        }
        match higher {
            None => {},
            Some(tf) => {
                if self.levels.len() > 1 {
                    return ;
                }
                let n = self.levels[0].1.entries.len();
                if n == 0 {
                    return ;
                }
                let nc = n / 5 + if n % 5 == 0 {
                    0
                } else {
                    1
                };
                let ghost s = entries_view(self.levels@[0].1.entries@);
                let mut level1: TimeMap<KlineDataPoint> = TimeMap::new();
                let mut c: usize = 0;
                proof {
                    assert(entries_view(level1.entries@) =~= kline_level(s, 0));
                }
                while c < nc
                    invariant
                        level1.wf(),
                        entries_view(level1.entries@) == kline_level(s, c as int),
                        nc == chunk_count(n as int),
                        c <= nc,
                        self.levels@.len() == 1,
                        n == self.levels@[0].1.entries@.len(),
                        s == entries_view(self.levels@[0].1.entries@),
                    decreases nc - c,
                {
                    let (start, end) = chunk_bounds(n, c);
                    let agg = merge_run(&self.levels[0].1.entries, start, end);
                    proof {
                        assert(s.subrange(start as int, end as int) == chunk_of(s, c as int));
                        lemma_view_set(level1.entries@, agg.kline.time, agg);
                    }
                    let key = agg.kline.time;
                    level1.insert(key, agg);
                    c = c + 1;
                }
                self.levels.push((tf, level1));
                proof {
                    self.lemma_wf_view();
                    assert(self@.levels =~= old_view.levels.push(
                        (tf, kline_level(s, chunk_count(n as int))),
                    ));
                }
            },
        }
    }

    /// Stores candle `k` in the base level under its time.
    fn put_kline_in_base(&mut self, k: Kline)
        requires
            old(self).wf(),
            old(self).levels@.len() > 0,
        ensures
            final(self).wf(),
            final(self).levels@.len() == old(self).levels@.len(),
            forall|a: int|
                1 <= a < old(self).levels@.len() ==> #[trigger] final(self).levels@[a] == old(
                    self,
                ).levels@[a],
            final(self).levels@[0].0 == old(self).levels@[0].0,
            final(self).base_interval == old(self).base_interval,
            final(self).tick_size == old(self).tick_size,
            entries_view(final(self).levels@[0].1.entries@) == put_kline(
                entries_view(old(self).levels@[0].1.entries@),
                k,
            ),
    {
        let ghost e0 = self.levels@[0].1.entries@;
        let ghost lv = self.levels@;
        assert(self.levels@[0].1.wf());
        proof {
            lemma_entries_view(e0);
            lemma_seq_get(e0, k.time);
            lemma_seq_get(entries_view(e0), k.time);
        }
        match self.levels[0].1.find(k.time) {
            Some(i) => {
                proof {
                    lemma_index_is_lower_bound(entries_view(e0), i as int);
                }
                self.levels[0].1.entries[i].1.kline = k;
                proof {
                    let e2 = self.levels@[0].1.entries@;
                    assert(entries_view(e2) =~= entries_view(e0).update(
                        i as int,
                        (
                            k.time,
                            KlineDataPointV {
                                kline: k,
                                footprint: entries_view(e0)[i as int].1.footprint,
                            },
                        ),
                    ));
                    assert(same_keys(e0, e2));
                    lemma_same_keys(e0, e2, 0);
                }
            },
            None => {
                let dp = KlineDataPoint::new(k);
                proof {
                    lemma_view_set(e0, k.time, dp);
                }
                self.levels[0].1.insert(k.time, dp);
            },
        }
        proof {
            assert(forall|a: int| 1 <= a < lv.len() ==> #[trigger] self.levels@[a] == lv[a]);
        }
    }

    /// Stores the candles in the base level (a stored data point keeps its
    /// footprint), updates the points of control's status and builds the
    /// aggregated level. Candle prices must lie within `MAX_PRICE_UNITS`, the
    /// bound under which rounding them to the tick size cannot overflow.
    #[verifier::spinoff_prover]
    #[verifier::rlimit(40)]
    pub fn insert_klines(&mut self, klines: &[Kline])
        requires
            old(self).wf(),
            old(self).levels@.len() > 0,
            old(self).tick_size.units <= MAX_PRICE_UNITS,
            klines_in_range(base_of(old(self)@)),
            forall|i: int| 0 <= i < klines@.len() ==> kline_in_range(#[trigger] klines@[i]),
        ensures
            final(self).wf(),
            final(self)@ == kline_built(
                with_base(
                    old(self)@,
                    poc_statuses(put_klines(base_of(old(self)@), klines@), old(self).tick_size),
                ),
            ),
            klines_in_range(base_of(final(self)@)),
    {
        let ghost lv0 = self.levels@;
        let ghost old_view = self@;
        let ghost s0 = entries_view(self.levels@[0].1.entries@);
        proof {
            self.lemma_wf_view();
        }
        let mut i: usize = 0;
        while i < klines.len()
            invariant
                self.wf(),
                self.levels@.len() == lv0.len(),
                lv0.len() > 0,
                forall|a: int| 1 <= a < lv0.len() ==> #[trigger] self.levels@[a] == lv0[a],
                self.levels@[0].0 == lv0[0].0,
                self.base_interval == old(self).base_interval,
                self.tick_size == old(self).tick_size,
                i <= klines@.len(),
                forall|j: int| 0 <= j < klines@.len() ==> kline_in_range(#[trigger] klines@[j]),
                entries_view(self.levels@[0].1.entries@) == put_klines(s0, klines@.take(i as int)),
                klines_in_range(entries_view(self.levels@[0].1.entries@)),
            decreases klines.len() - i,
        {
            let k = klines[i];
            let ghost sv = entries_view(self.levels@[0].1.entries@);
            proof {
                assert(klines@.take(i as int + 1).drop_last() =~= klines@.take(i as int));
                assert(self.levels@[0].1.wf());
                lemma_entries_view(self.levels@[0].1.entries@);
                lemma_seq_get(sv, k.time);
                match seq_get(sv, k.time) {
                    Some(v) => lemma_in_range_set(
                        sv,
                        k.time,
                        KlineDataPointV { kline: k, footprint: v.footprint },
                    ),
                    None => lemma_in_range_set(
                        sv,
                        k.time,
                        KlineDataPointV {
                            kline: k,
                            footprint: KlineTradesV { trades: Seq::empty(), poc: None },
                        },
                    ),
                }
            }
            self.put_kline_in_base(k);
            i = i + 1;
        }
        proof {
            assert(klines@.take(klines@.len() as int) =~= klines@);
            self.lemma_wf_view();
        }
        let ghost s1 = base_of(self@);
        proof {
            assert(self@.levels =~= old_view.levels.update(0, (old_view.levels[0].0, s1)));
            assert(self@ == with_base(old_view, s1));
        }
        self.update_poc_status();
        proof {
            self.lemma_wf_view();
            let b = poc_statuses(s1, self.tick_size);
            assert(with_base(with_base(old_view, s1), b).levels =~= with_base(old_view, b).levels);
            assert(self@ == with_base(old_view, b));
            assert forall|a: int| 0 <= a < b.len() implies kline_in_range((#[trigger] b[a]).1.kline) by {
                assert(b[a].1.kline == s1[a].1.kline);
            }
        }
        self.build_pyramid();
    }

    /// A pyramid over `interval` holding `klines`, with statuses of the points
    /// of control updated and the aggregated level built. Candle prices must
    /// lie within `MAX_PRICE_UNITS`, the bound under which rounding them to
    /// the tick size cannot overflow.
    pub fn new(interval: Timeframe, tick_size: PriceStep, klines: &[Kline]) -> (r: Self)
        requires
            tick_size.units <= MAX_PRICE_UNITS,
            forall|i: int| 0 <= i < klines@.len() ==> kline_in_range(#[trigger] klines@[i]),
        ensures
            r.wf(),
            r@ == kline_built(
                PyramidV {
                    levels: seq![
                        (interval, poc_statuses(put_klines(Seq::empty(), klines@), tick_size)),
                    ],
                    base_interval: interval,
                    tick_size,
                },
            ),
            klines_in_range(base_of(r@)),
    {
        let mut levels: Vec<(Timeframe, TimeMap<KlineDataPoint>)> = Vec::new();
        levels.push((interval, TimeMap::new()));
        let mut pyramid = DataPyramid { levels, base_interval: interval, tick_size };
        proof {
            assert(pyramid.levels@[0].1.wf());
            pyramid.lemma_wf_view();
            assert(base_of(pyramid@) =~= Seq::<(u64, KlineDataPointV)>::empty());
        }
        let ghost p0 = pyramid@;
        pyramid.insert_klines(klines);
        proof {
            assert(with_base(p0, poc_statuses(put_klines(Seq::empty(), klines@), tick_size)).levels
                =~= seq![(interval, poc_statuses(put_klines(Seq::empty(), klines@), tick_size))]);
        }
        pyramid
    }

    /// A copy of the pyramid with the trades recorded, opening missing base
    /// buckets. Trade prices must lie within `MAX_PRICE_UNITS`, the bound
    /// under which rounding them to the tick size cannot overflow.
    pub fn with_trades(&self, trades: &[Trade]) -> (r: DataPyramid<KlineDataPoint>)
        requires
            self.wf(),
            trades@.len() > 0 ==> self.levels@.len() > 0,
            trades@.len() > 0 ==> self.tick_size.units <= MAX_PRICE_UNITS,
            forall|i: int|
                0 <= i < trades@.len() ==> price_units_in_range(
                    (#[trigger] trades@[i]).price.units as int,
                ),
        ensures
            r.wf(),
            trades@.len() == 0 ==> r@ == self@,
            trades@.len() > 0 ==> r@ == after_trades(self@, trades@, true),
    {
        let mut levels: Vec<(Timeframe, TimeMap<KlineDataPoint>)> = Vec::new();
        let mut i: usize = 0;
        while i < self.levels.len()
            invariant
                self.wf(),
                i <= self.levels@.len(),
                levels@.len() == i,
                forall|a: int|
                    0 <= a < i ==> (#[trigger] levels@[a]).0 == self.levels@[a].0 && levels@[a].1.wf()
                        && entries_view(levels@[a].1.entries@) == entries_view(
                        self.levels@[a].1.entries@,
                    ),
            decreases self.levels.len() - i,
        {
            assert(self.levels@[i as int].1.wf());
            let m = copy_level(&self.levels[i].1);
            levels.push((self.levels[i].0, m));
            i = i + 1;
        }
        let mut copy = DataPyramid {
            levels,
            base_interval: self.base_interval,
            tick_size: self.tick_size,
        };
        proof {
            assert(copy@.levels =~= self@.levels);
        }
        copy.insert_trades_or_create_bucket(trades);
        copy
    }

    /// Around the newest base bucket without trades: the last trade time
    /// before it and the first trade time after it.
    fn find_trade_gap(&self) -> (r: Option<(Option<u64>, Option<u64>)>)
        requires
            self.wf(),
        ensures
            r == if self.levels@.len() == 0 {
                None
            } else {
                trade_gap(base_of(self@))
            },
    {
        if self.levels.len() == 0 {
            return None;
        }
        let m = &self.levels[0].1;
        let n = m.entries.len();
        let ghost s = entries_view(m.entries@);
        proof {
            assert(s.take(n as int) =~= s);
        }
        let mut k = n;
        let mut gap: Option<usize> = None;
        while k > 0 && gap.is_none()
            invariant
                m == &self.levels@[0].1,
                s == entries_view(m.entries@),
                n == s.len(),
                k <= n,
                gap is None ==> last_empty_index(s) == last_empty_index(s.take(k as int)),
                gap matches Some(g) ==> last_empty_index(s) == g && g < n,
            decreases k,
        {
            proof {
                assert(s.take(k as int).drop_last() =~= s.take(k as int - 1));
                assert(s.take(k as int).last() == s[k as int - 1]);
            }
            if m.entries[k - 1].1.footprint.trades.len() == 0 {
                gap = Some(k - 1);
            }
            k = k - 1;
        }
        let g = match gap {
            None => {
                return None;
            },
            Some(g) => g,
        };
        let mut a = g;
        let mut before: Option<u64> = None;
        let mut done = false;
        while a > 0 && !done
            invariant
                m == &self.levels@[0].1,
                s == entries_view(m.entries@),
                n == s.len(),
                a <= g < n,
                !done ==> last_time_before(s, g as int) == last_time_before(s, a as int),
                !done ==> before is None,
                done ==> last_time_before(s, g as int) == before,
            decreases a,
        {
            let t = m.entries[a - 1].1.last_trade_time();
            if t.is_some() {
                before = t;
                done = true;
            }
            a = a - 1;
        }
        let mut b = g + 1;
        let mut after: Option<u64> = None;
        let mut done2 = false;
        while b < n && !done2
            invariant
                m == &self.levels@[0].1,
                s == entries_view(m.entries@),
                n == s.len(),
                g < b <= n,
                !done2 ==> first_time_after(s, g + 1) == first_time_after(s, b as int),
                !done2 ==> after is None,
                done2 ==> first_time_after(s, g + 1) == after,
            decreases n - b,
        {
            let t = m.entries[b].1.first_trade_time();
            if t.is_some() {
                after = t;
                done2 = true;
            }
            b = b + 1;
        }
        Some((before, after))
    }

    /// The range of trades to fetch so that the visible window gets the trades
    /// missing around the newest trades-free bucket; `None` when every bucket
    /// has trades or nothing would be fetched.
    pub fn suggest_trade_fetch_range(&self, visible_earliest: u64, visible_latest: u64) -> (r:
        Option<(u64, u64)>)
        requires
            self.wf(),
            self.levels@.len() > 0 && last_empty_index(base_of(self@)) >= 0 ==> base_of(
                self@,
            )[last_empty_index(base_of(self@))].0 < u64::MAX,
        ensures
            r == if self.levels@.len() == 0 {
                None
            } else {
                fetch_range(base_of(self@), visible_earliest, visible_latest)
            },
    {
        if self.levels.len() == 0 {
            return None;
        }
        if self.levels[0].1.entries.len() == 0 {
            return None;
        }
        match self.find_trade_gap() {
            None => None,
            Some((before, after)) => {
                if before.is_none() && after.is_none() {
                    return Some((visible_earliest, visible_latest));
                }
                let (data_earliest, data_latest) = self.timerange();
                let from0 = match before {
                    Some(t) => t.saturating_add(1),
                    None => data_earliest,
                };
                let to0 = match after {
                    Some(t) => t.saturating_sub(1),
                    None => data_latest,
                };
                let from = if from0 > visible_earliest {
                    from0
                } else {
                    visible_earliest
                };
                let to = if to0 < visible_latest {
                    to0
                } else {
                    visible_latest
                };
                if from < to {
                    Some((from, to))
                } else {
                    None
                }
            },
        }
    }
} // impl

/// Key of aggregated heatmap run `c`: the key of its fifth data point for a
/// full run; for a shorter last run the merged point's last trade time, else
/// the newest base key.
pub open spec fn heatmap_chunk_key(s: Seq<(u64, HeatmapDataPointV)>, c: int) -> u64 {
    let ch = chunk_of(s, c);
    if ch.len() == 5 {
        ch.last().0
    } else {
        match <HeatmapDataPoint as DataPoint>::v_last_trade_time(
            fold_merge::<HeatmapDataPoint>(ch),
        ) {
            Some(t) => t,
            None => s.last().0,
        }
    }
}

/// The aggregated level of heatmap data points: each run of five merged and
/// keyed as `heatmap_chunk_key` says.
pub open spec fn heatmap_level(s: Seq<(u64, HeatmapDataPointV)>, c: int) -> Seq<
    (u64, HeatmapDataPointV),
>
    decreases c,
{
    if c <= 0 {
        Seq::empty()
    } else {
        seq_set(
            heatmap_level(s, c - 1),
            heatmap_chunk_key(s, c - 1),
            fold_merge::<HeatmapDataPoint>(chunk_of(s, c - 1)),
        )
    }
}

/// A heatmap pyramid with its aggregated level built, under the same
/// conditions as for candles.
pub open spec fn heatmap_built(p: PyramidV<HeatmapDataPointV>) -> PyramidV<HeatmapDataPointV> {
    match higher_timeframe(p.base_interval) {
        Some(tf) => if p.levels.len() == 1 && p.levels[0].1.len() > 0 {
            PyramidV {
                levels: p.levels.push(
                    (tf, heatmap_level(p.levels[0].1, chunk_count(p.levels[0].1.len() as int))),
                ),
                ..p
            }
        } else {
            p
        },
        None => p,
    }
}

/// Largest group quantity over the heatmap data points of `w`.
pub open spec fn window_max_trade_qty(w: Seq<(u64, HeatmapDataPointV)>) -> u64
    decreases w.len(),
{
    if w.len() == 0 {
        0
    } else {
        let m = window_max_trade_qty(w.drop_last());
        let q = groups_max_qty(w.last().1.groups);
        if q > m {
            q
        } else {
            m
        }
    }
}

/// Largest total traded quantity of one heatmap data point of `w`.
pub open spec fn window_max_volume(w: Seq<(u64, HeatmapDataPointV)>) -> u64
    decreases w.len(),
{
    if w.len() == 0 {
        0
    } else {
        let m = window_max_volume(w.drop_last());
        let q = groups_qty_sum(w.last().1.groups);
        if q > m {
            q
        } else {
            m
        }
    }
}

impl DataPyramid<HeatmapDataPoint> {
    /// An empty heatmap pyramid over the time basis' interval.
    pub fn new(basis: Basis, tick_size: PriceStep) -> (r: Self)
        requires
            basis is Time,
        ensures
            r.wf(),
            r@ == (PyramidV::<HeatmapDataPointV> {
                levels: seq![(basis->Time_0, Seq::empty())],
                base_interval: basis->Time_0,
                tick_size,
            }),
    {
        let timeframe = match basis {
            Basis::Time(interval) => interval,
            Basis::Tick(_) => {
                proof {
                    assert(false);
                }
                Timeframe::MS500
            },
        };
        let mut levels: Vec<(Timeframe, TimeMap<HeatmapDataPoint>)> = Vec::new();
        levels.push((timeframe, TimeMap::new()));
        let r = DataPyramid { levels, base_interval: timeframe, tick_size };
        proof {
            assert(r.levels@[0].1.wf());
            assert(entries_view(r.levels@[0].1.entries@) =~= Seq::<(u64, HeatmapDataPointV)>::empty());
            assert(r@.levels =~= seq![(timeframe, Seq::<(u64, HeatmapDataPointV)>::empty())]);
        }
        r
    }

    /// Largest traded quantity of one price group, and largest total quantity
    /// of one data point, over the base data points keyed from `earliest` to
    /// `latest` (both included).
    pub fn max_trade_qty_and_aggr_volume(&self, earliest: u64, latest: u64) -> (r: (u64, u64))
        requires
            self.wf(),
            self.levels@.len() > 0,
            earliest <= latest,
        ensures
            ({
                let s = base_of(self@);
                let lo = lower_bound(s, earliest) as int;
                let hi = upper_bound(s, latest) as int;
                r == if lo >= hi {
                    (0u64, 0u64)
                } else {
                    let w = s.subrange(lo, hi);
                    (window_max_trade_qty(w), window_max_volume(w))
                }
            }),
    {
        let m = &self.levels[0].1;
        assert(self.levels@[0].1.wf());
        let ghost s = entries_view(m.entries@);
        proof {
            lemma_entries_view(m.entries@);
            assert(lower_bound(m.entries@, earliest) == lower_bound(s, earliest));
            assert(lower_bound(m.entries@, latest) == lower_bound(s, latest));
        }
        let lo = m.lower_bound(earliest);
        let hi = m.upper_bound(latest);
        proof {
            lemma_upper_bound(m.entries@, latest);
            lemma_lower_bound(m.entries@, earliest);
        }
        if lo >= hi {
            return (0, 0);
        }
        let mut max_trade: u64 = 0;
        let mut max_volume: u64 = 0;
        let mut i = lo;
        proof {
            assert(s.subrange(lo as int, i as int) =~= Seq::<(u64, HeatmapDataPointV)>::empty());
        }
        while i < hi
            invariant
                m == &self.levels@[0].1,
                s == entries_view(m.entries@),
                hi <= m.entries@.len(),
                lo <= i <= hi,
                max_trade == window_max_trade_qty(s.subrange(lo as int, i as int)),
                max_volume == window_max_volume(s.subrange(lo as int, i as int)),
            decreases hi - i,
        {
            let (q, v) = m.entries[i].1.max_qty_and_volume();
            proof {
                let w = s.subrange(lo as int, i as int + 1);
                assert(w.drop_last() =~= s.subrange(lo as int, i as int));
                assert(w.last() == s[i as int]);
            }
            if q > max_trade {
                max_trade = q;
            }
            if v > max_volume {
                max_volume = v;
            }
            i = i + 1;
        }
        (max_trade, max_volume)
    }

    /// Adds the aggregated level over the base data points (runs of five),
    /// under the same conditions as for candles.
    pub fn build_pyramid(&mut self)
        requires
            old(self).wf(),
            higher_timeframe(old(self).base_interval) is Some ==> old(self).levels@.len() > 0,
        ensures
            final(self).wf(),
            final(self)@ == heatmap_built(old(self)@),
    {
        let ghost old_view = self@;
        proof {
            self.lemma_wf_view();
        }
        let base_ms = self.base_interval.to_milliseconds();
        let higher = Timeframe::from_milliseconds(base_ms * 5);
        proof {
            lemma_higher_timeframe(self.base_interval, higher);
        }
        match higher {
            None => {},
            Some(tf) => {
                if self.levels.len() > 1 {
                    return ;
                }
                let n = self.levels[0].1.entries.len();
                if n == 0 {
                    return ;
                }
                let nc = n / 5 + if n % 5 == 0 {
                    0
                } else {
                    1
                };
                let ghost s = entries_view(self.levels@[0].1.entries@);
                let mut level1: TimeMap<HeatmapDataPoint> = TimeMap::new();
                let mut c: usize = 0;
                proof {
                    assert(entries_view(level1.entries@) =~= heatmap_level(s, 0));
                }
                while c < nc
                    invariant
                        level1.wf(),
                        entries_view(level1.entries@) == heatmap_level(s, c as int),
                        nc == chunk_count(n as int),
                        c <= nc,
                        self.levels@.len() == 1,
                        n == self.levels@[0].1.entries@.len(),
                        n > 0,
                        s == entries_view(self.levels@[0].1.entries@),
                    decreases nc - c,
                {
                    let (start, end) = chunk_bounds(n, c);
                    let agg = merge_run(&self.levels[0].1.entries, start, end);
                    let key = if end - start == 5 {
                        self.levels[0].1.entries[end - 1].0
                    } else {
                        match agg.last_trade_time() {
                            Some(t) => t,
                            None => self.levels[0].1.entries[n - 1].0,
                        }
                    };
                    proof {
                        assert(s.subrange(start as int, end as int) == chunk_of(s, c as int));
                        assert(key == heatmap_chunk_key(s, c as int));
                        lemma_view_set(level1.entries@, key, agg);
                    }
                    level1.insert(key, agg);
                    c = c + 1;
                }
                self.levels.push((tf, level1));
                proof {
                    self.lemma_wf_view();
                    assert(self@.levels =~= old_view.levels.push(
                        (tf, heatmap_level(s, chunk_count(n as int))),
                    ));
                }
            },
        }
    }
} // impl

/// Building the aggregated level twice changes nothing more than building it
/// once.
pub proof fn law_build_pyramid_idempotent(p: PyramidV<KlineDataPointV>)
    requires
        p.levels.len() > 0,
    ensures
        kline_built(kline_built(p)) == kline_built(p),
{
}

proof fn lemma_kline_level_len(s: Seq<(u64, KlineDataPointV)>, c: int)
    requires
        c >= 0,
    ensures
        sorted_keys(kline_level(s, c)),
        kline_level(s, c).len() <= c,
        c >= 1 ==> kline_level(s, c).len() >= 1,
    decreases c,
{
    if c > 0 {
        lemma_kline_level_len(s, c - 1);
        let agg = fold_merge::<KlineDataPoint>(chunk_of(s, c - 1));
        lemma_seq_set(kline_level(s, c - 1), agg.kline.time, agg);
    }
}

proof fn lemma_heatmap_level_len(s: Seq<(u64, HeatmapDataPointV)>, c: int)
    requires
        c >= 0,
    ensures
        sorted_keys(heatmap_level(s, c)),
        heatmap_level(s, c).len() <= c,
        c >= 1 ==> heatmap_level(s, c).len() >= 1,
    decreases c,
{
    if c > 0 {
        lemma_heatmap_level_len(s, c - 1);
        lemma_seq_set(
            heatmap_level(s, c - 1),
            heatmap_chunk_key(s, c - 1),
            fold_merge::<HeatmapDataPoint>(chunk_of(s, c - 1)),
        );
    }
}

/// Building the candle pyramid keeps the base level; where the base
/// interval has a five-times-longer interval, only the base level exists
/// and it holds `n` data points, it adds one level of that interval with at
/// least one and at most `ceil(n / 5)` data points; otherwise nothing
/// changes.
pub proof fn law_build_pyramid_levels(p: PyramidV<KlineDataPointV>)
    requires
        p.levels.len() > 0,
    ensures
        kline_built(p).levels[0] == p.levels[0],
        kline_built(p).base_interval == p.base_interval,
        kline_built(p).tick_size == p.tick_size,
        (higher_timeframe(p.base_interval) is Some && p.levels.len() == 1 && p.levels[0].1.len() > 0) ==> {
            &&& kline_built(p).levels.len() == 2
            &&& kline_built(p).levels[1].0 == higher_timeframe(p.base_interval).unwrap()
            &&& 1 <= kline_built(p).levels[1].1.len() <= chunk_count(p.levels[0].1.len() as int)
        },
        !(higher_timeframe(p.base_interval) is Some && p.levels.len() == 1 && p.levels[0].1.len() > 0)
            ==> kline_built(p) == p,
{
    let n = p.levels[0].1.len() as int;
    if n > 0 {
        assert(chunk_count(n) >= 1);
        lemma_kline_level_len(p.levels[0].1, chunk_count(n));
    }
}

/// Building the heatmap pyramid changes the levels as building the candle
/// pyramid does: the base is kept, and at most one level of at most
/// `ceil(n / 5)` data points (at least one) is added.
pub proof fn law_build_heatmap_pyramid_levels(p: PyramidV<HeatmapDataPointV>)
    requires
        p.levels.len() > 0,
    ensures
        heatmap_built(p).levels[0] == p.levels[0],
        heatmap_built(p).base_interval == p.base_interval,
        heatmap_built(p).tick_size == p.tick_size,
        (higher_timeframe(p.base_interval) is Some && p.levels.len() == 1 && p.levels[0].1.len() > 0) ==> {
            &&& heatmap_built(p).levels.len() == 2
            &&& heatmap_built(p).levels[1].0 == higher_timeframe(p.base_interval).unwrap()
            &&& 1 <= heatmap_built(p).levels[1].1.len() <= chunk_count(p.levels[0].1.len() as int)
        },
        !(higher_timeframe(p.base_interval) is Some && p.levels.len() == 1 && p.levels[0].1.len() > 0)
            ==> heatmap_built(p) == p,
{
    let n = p.levels[0].1.len() as int;
    if n > 0 {
        assert(chunk_count(n) >= 1);
        lemma_heatmap_level_len(p.levels[0].1, chunk_count(n));
    }
}

/// Updating the statuses of the points of control keeps every key, candle
/// and footprint level of the base.
pub proof fn law_poc_status_keeps_candles(s: Seq<(u64, KlineDataPointV)>, step: PriceStep)
    ensures
        poc_statuses(s, step).len() == s.len(),
        forall|i: int|
            0 <= i < s.len() ==> (#[trigger] poc_statuses(s, step)[i]).0 == s[i].0 && poc_statuses(
                s,
                step,
            )[i].1.kline == s[i].1.kline && poc_statuses(s, step)[i].1.footprint.trades
                == s[i].1.footprint.trades,
{
}

/// Stored candles are found again: after storing candles, every stored
/// candle's time has a data point, no earlier data point is lost, and the
/// data point under the time of the candle stored last holds that candle.
pub proof fn law_stored_klines_found(s: Seq<(u64, KlineDataPointV)>, ks: Seq<Kline>)
    requires
        sorted_keys(s),
    ensures
        sorted_keys(put_klines(s, ks)),
        forall|j: int| 0 <= j < ks.len() ==> has_key(put_klines(s, ks), (#[trigger] ks[j]).time),
        forall|k: u64| has_key(s, k) ==> #[trigger] has_key(put_klines(s, ks), k),
        ks.len() > 0 ==> (seq_get(put_klines(s, ks), ks.last().time) matches Some(v) && v.kline
            == ks.last()),
    decreases ks.len(),
{
    if ks.len() > 0 {
        let init = ks.drop_last();
        law_stored_klines_found(s, init);
        let prev = put_klines(s, init);
        let k = ks.last();
        let nv = match seq_get(prev, k.time) {
            Some(v) => KlineDataPointV { kline: k, footprint: v.footprint },
            None => KlineDataPointV { kline: k, footprint: KlineTradesV { trades: Seq::empty(), poc: None } },
        };
        assert(put_klines(s, ks) == seq_set(prev, k.time, nv));
        lemma_seq_set(prev, k.time, nv);
        assert forall|j: int| 0 <= j < ks.len() implies has_key(put_klines(s, ks), (#[trigger] ks[j]).time) by {
            if j < ks.len() - 1 {
                assert(ks[j] == init[j]);
                assert(has_key(prev, init[j].time));
            }
        }
    }
}

/// Recording trades only in existing buckets never adds or removes a bucket:
/// the keys are those before.
pub proof fn law_existing_buckets_keep_keys(
    s: Seq<(u64, KlineDataPointV)>,
    ts: Seq<Trade>,
    aggr: u64,
    step: PriceStep,
)
    requires
        sorted_keys(s),
    ensures
        same_keys(put_trades(s, ts, aggr, step, false), s),
        same_keys(recalc_pocs(put_trades(s, ts, aggr, step, false), trade_keys(ts, aggr)), s),
    decreases ts.len(),
{
    if ts.len() > 0 {
        law_existing_buckets_keep_keys(s, ts.drop_last(), aggr, step);
        let prev = put_trades(s, ts.drop_last(), aggr, step, false);
        let t = ts.last();
        let k = bucket_time(t.time, aggr);
        lemma_same_keys(s, prev, k);
        lemma_seq_get(prev, k);
        match seq_get(prev, k) {
            Some(v) => {
                let i = lower_bound(prev, k) as int;
                lemma_lower_bound(prev, k);
                let w = choose|w: int| 0 <= w < prev.len() && #[trigger] prev[w].0 == k;
                assert(w == i) by {
                    if w < i {
                        assert(prev[w].0 < k);
                    } else if w > i {
                        assert(prev[i].0 < prev[w].0);
                    }
                }
                let nv = <KlineDataPoint as DataPoint>::v_with_trade(v, t, step);
                assert(seq_set(prev, k, nv) == prev.update(i, (k, nv)));
            },
            None => {},
        }
    }
    let r = put_trades(s, ts, aggr, step, false);
    assert(same_keys(recalc_pocs(r, trade_keys(ts, aggr)), r));
}

/// After recording trades with bucket creation, the bucket of every trade
/// exists.
pub proof fn law_created_buckets_exist(
    s: Seq<(u64, KlineDataPointV)>,
    ts: Seq<Trade>,
    aggr: u64,
    step: PriceStep,
)
    requires
        sorted_keys(s),
    ensures
        sorted_keys(put_trades(s, ts, aggr, step, true)),
        forall|j: int|
            0 <= j < ts.len() ==> has_key(
                put_trades(s, ts, aggr, step, true),
                bucket_time((#[trigger] ts[j]).time, aggr),
            ),
        forall|k: u64| has_key(s, k) ==> #[trigger] has_key(put_trades(s, ts, aggr, step, true), k),
    decreases ts.len(),
{
    if ts.len() > 0 {
        let init = ts.drop_last();
        law_created_buckets_exist(s, init, aggr, step);
        let prev = put_trades(s, init, aggr, step, true);
        let t = ts.last();
        let k = bucket_time(t.time, aggr);
        let v = match seq_get(prev, k) {
            Some(v) => v,
            None => bucket_for(k, t.price),
        };
        let nv = <KlineDataPoint as DataPoint>::v_with_trade(v, t, step);
        lemma_seq_set(prev, k, nv);
        lemma_seq_get(prev, k);
        assert forall|j: int| 0 <= j < ts.len() implies has_key(
            put_trades(s, ts, aggr, step, true),
            bucket_time((#[trigger] ts[j]).time, aggr),
        ) by {
            if j < ts.len() - 1 {
                assert(ts[j] == init[j]);
                assert(has_key(prev, bucket_time(init[j].time, aggr)));
            }
        }
    }
}

proof fn lemma_existing_match_creating(s: Seq<(u64, KlineDataPointV)>, ts: Seq<Trade>, aggr: u64, step: PriceStep)
    requires
        sorted_keys(s),
        forall|j: int| 0 <= j < ts.len() ==> has_key(s, bucket_time((#[trigger] ts[j]).time, aggr)),
    ensures
        put_trades(s, ts, aggr, step, false) == put_trades(s, ts, aggr, step, true),
    decreases ts.len(),
{
    if ts.len() > 0 {
        let init = ts.drop_last();
        assert forall|j: int| 0 <= j < init.len() implies has_key(s, bucket_time((#[trigger] init[j]).time, aggr)) by {
            assert(init[j] == ts[j]);
        }
        lemma_existing_match_creating(s, init, aggr, step);
        law_existing_buckets_keep_keys(s, init, aggr, step);
        let prev = put_trades(s, init, aggr, step, false);
        let k = bucket_time(ts.last().time, aggr);
        assert(has_key(s, k)) by {
            assert(ts.last() == ts[ts.len() - 1]);
        }
        lemma_same_keys(prev, s, k);
        lemma_seq_get(prev, k);
    }
}

/// Where the base bucket of every trade exists already, recording trades
/// only in existing buckets leaves the pyramid as recording them with
/// bucket creation does.
pub proof fn law_existing_buckets_match_creating(p: PyramidV<KlineDataPointV>, ts: Seq<Trade>)
    requires
        p.levels.len() > 0,
        sorted_keys(base_of(p)),
        forall|j: int|
            0 <= j < ts.len() ==> has_key(
                base_of(p),
                bucket_time((#[trigger] ts[j]).time, timeframe_ms(p.base_interval)),
            ),
    ensures
        after_trades(p, ts, false) == after_trades(p, ts, true),
{
    lemma_existing_match_creating(base_of(p), ts, timeframe_ms(p.base_interval), p.tick_size);
}

/// Recording trades (as `with_trades` does on a copy, and
/// `insert_trades_or_create_bucket` in place: both leave `after_trades`)
/// changes only the base level's buckets: the number of levels, every level
/// above the base, the base level's timeframe, the base interval and the
/// tick size stay as they were.
pub proof fn law_trades_keep_upper_levels(p: PyramidV<KlineDataPointV>, ts: Seq<Trade>, create: bool)
    requires
        p.levels.len() > 0,
    ensures
        after_trades(p, ts, create).levels.len() == p.levels.len(),
        after_trades(p, ts, create).levels[0].0 == p.levels[0].0,
        forall|i: int| 1 <= i < p.levels.len() ==> #[trigger] after_trades(p, ts, create).levels[i] == p.levels[i],
        after_trades(p, ts, create).base_interval == p.base_interval,
        after_trades(p, ts, create).tick_size == p.tick_size,
{
}

/// The integrity check reports exactly the grid times without a data point:
/// every reported time is one of `t, t + interval, ...` below `latest` and
/// has no data point, and every such time without one is reported.
pub proof fn law_missing_times_exact<V>(s: Seq<(u64, V)>, t: int, latest: int, interval: int)
    requires
        interval > 0,
        0 <= t,
        latest <= u64::MAX + 1,
    ensures
        forall|x: u64|
            #[trigger] missing_times(s, t, latest, interval).contains(x) <==> (t <= x < latest
                && (x - t) % interval == 0 && !has_key(s, x)),
    decreases if t < latest {
        latest - t
    } else {
        0
    },
{
    if t < latest {
        law_missing_times_exact(s, t + interval, latest, interval);
        let rest = missing_times(s, t + interval, latest, interval);
        let m = missing_times(s, t, latest, interval);
        assert forall|x: u64| #[trigger] m.contains(x) <==> (t <= x < latest
            && (x - t) % interval == 0 && !has_key(s, x)) by {
            let on_grid = t <= x < latest && (x - t) % interval == 0;
            let on_rest = t + interval <= x < latest && (x - (t + interval)) % interval == 0;
            if x > t && (x - t) % interval == 0 {
                assert((x - (t + interval)) % interval == 0) by {
                    vstd::arithmetic::div_mod::lemma_mod_sub_multiples_vanish(x - t, interval);
                }
            }
            if x >= t + interval && (x - (t + interval)) % interval == 0 {
                assert((x - t) % interval == 0) by {
                    vstd::arithmetic::div_mod::lemma_mod_add_multiples_vanish(x - (t + interval), interval);
                }
            }
            if t < x < t + interval {
                assert((x - t) % interval != 0) by {
                    vstd::arithmetic::div_mod::lemma_small_mod((x - t) as nat, interval as nat);
                }
            }
            assert(x != t ==> (on_grid <==> on_rest));
            assert(rest.contains(x) <==> (on_rest && !has_key(s, x)));
            if has_key(s, t as u64) {
                assert(m == rest);
            } else {
                let u = seq![t as u64].add(rest);
                assert(m == u);
                assert(u[0] == t as u64);
                if rest.contains(x) {
                    let w = choose|w: int| 0 <= w < rest.len() && #[trigger] rest[w] == x;
                    assert(u[w + 1] == x);
                }
                if u.contains(x) && x != t {
                    let w = choose|w: int| 0 <= w < u.len() && #[trigger] u[w] == x;
                    assert(rest[w - 1] == x);
                }
                if x == t {
                    assert(u.contains(x));
                }
            }
            if x == t {
                assert(!rest.contains(x));
                assert((x - t) % interval == 0) by {
                    vstd::arithmetic::div_mod::lemma_small_mod(0, interval as nat);
                }
                assert(m.contains(x) <==> !has_key(s, x));
            } else {
                assert(m.contains(x) <==> rest.contains(x));
            }
        }
    } else {
        assert forall|x: u64| #[trigger] missing_times(s, t, latest, interval).contains(x) <==> (t <= x < latest
            && (x - t) % interval == 0 && !has_key(s, x)) by {}
    }
}

/// Over a window of sorted keys, the bounds `lower_bound(earliest)` and
/// `upper_bound(latest)` enclose exactly the entries keyed in
/// `[earliest, latest]`.
pub proof fn lemma_key_window<V>(s: Seq<(u64, V)>, earliest: u64, latest: u64)
    requires
        sorted_keys(s),
        earliest <= latest,
    ensures
        lower_bound(s, earliest) <= upper_bound(s, latest) <= s.len(),
        forall|i: int|
            0 <= i < s.len() ==> (lower_bound(s, earliest) <= i < upper_bound(s, latest) <==> (earliest
                <= #[trigger] s[i].0 && s[i].0 <= latest)),
{
    lemma_lower_bound(s, earliest);
    lemma_upper_bound(s, latest);
    let lo = lower_bound(s, earliest) as int;
    let hi = upper_bound(s, latest) as int;
    if hi < lo {
        assert(s[hi].0 < earliest);
        assert(s[hi].0 > latest);
    }
}

proof fn lemma_fold_high_max<D: DataPoint>(w: Seq<(u64, D::V)>)
    requires
        w.len() > 0,
    ensures
        forall|i: int| 0 <= i < w.len() ==> D::v_value_high(#[trigger] w[i].1).units <= fold_high::<D>(w).units,
        exists|i: int| 0 <= i < w.len() && fold_high::<D>(w) == D::v_value_high(#[trigger] w[i].1),
    decreases w.len(),
{
    if w.len() == 1 {
        assert(fold_high::<D>(w) == D::v_value_high(w[0].1));
    } else {
        let t = w.drop_last();
        lemma_fold_high_max::<D>(t);
        assert forall|i: int| 0 <= i < w.len() implies D::v_value_high(#[trigger] w[i].1).units
            <= fold_high::<D>(w).units by {
            if i < w.len() - 1 {
                assert(w[i] == t[i]);
            }
        }
        if D::v_value_high(w.last().1).units > fold_high::<D>(t).units {
            assert(fold_high::<D>(w) == D::v_value_high(w[w.len() - 1].1));
        } else {
            let j = choose|j: int| 0 <= j < t.len() && fold_high::<D>(t) == D::v_value_high(#[trigger] t[j].1);
            assert(w[j] == t[j]);
            assert(fold_high::<D>(w) == D::v_value_high(w[j].1));
        }
    }
}

proof fn lemma_fold_low_min<D: DataPoint>(w: Seq<(u64, D::V)>)
    requires
        w.len() > 0,
    ensures
        forall|i: int| 0 <= i < w.len() ==> fold_low::<D>(w).units <= D::v_value_low(#[trigger] w[i].1).units,
        exists|i: int| 0 <= i < w.len() && fold_low::<D>(w) == D::v_value_low(#[trigger] w[i].1),
    decreases w.len(),
{
    if w.len() == 1 {
        assert(fold_low::<D>(w) == D::v_value_low(w[0].1));
    } else {
        let t = w.drop_last();
        lemma_fold_low_min::<D>(t);
        assert forall|i: int| 0 <= i < w.len() implies fold_low::<D>(w).units <= D::v_value_low(
            #[trigger] w[i].1,
        ).units by {
            if i < w.len() - 1 {
                assert(w[i] == t[i]);
            }
        }
        if D::v_value_low(w.last().1).units < fold_low::<D>(t).units {
            assert(fold_low::<D>(w) == D::v_value_low(w[w.len() - 1].1));
        } else {
            let j = choose|j: int| 0 <= j < t.len() && fold_low::<D>(t) == D::v_value_low(#[trigger] t[j].1);
            assert(w[j] == t[j]);
            assert(fold_low::<D>(w) == D::v_value_low(w[j].1));
        }
    }
}

/// The price range of a time window (what `min_max_price_in_range_prices`
/// returns): there is one exactly when some base data point is keyed in
/// `[earliest, latest]`; its low is at most the low of every such point and
/// is one of them, and its high is at least the high of every such point and
/// is one of them.
pub proof fn law_price_range_bounds<D: DataPoint>(s: Seq<(u64, D::V)>, earliest: u64, latest: u64)
    requires
        sorted_keys(s),
        earliest <= latest,
    ensures
        (lower_bound(s, earliest) < upper_bound(s, latest)) <==> exists|i: int|
            0 <= i < s.len() && earliest <= #[trigger] s[i].0 && s[i].0 <= latest,
        lower_bound(s, earliest) < upper_bound(s, latest) ==> forall|i: int|
            0 <= i < s.len() && earliest <= #[trigger] s[i].0 && s[i].0 <= latest ==> {
                &&& fold_low::<D>(s.subrange(lower_bound(s, earliest) as int, upper_bound(s, latest) as int)).units
                    <= D::v_value_low(s[i].1).units
                &&& D::v_value_high(s[i].1).units <= fold_high::<D>(
                    s.subrange(lower_bound(s, earliest) as int, upper_bound(s, latest) as int),
                ).units
            },
        lower_bound(s, earliest) < upper_bound(s, latest) ==> exists|i: int|
            0 <= i < s.len() && earliest <= #[trigger] s[i].0 && s[i].0 <= latest && fold_high::<D>(
                s.subrange(lower_bound(s, earliest) as int, upper_bound(s, latest) as int),
            ) == D::v_value_high(s[i].1),
        lower_bound(s, earliest) < upper_bound(s, latest) ==> exists|i: int|
            0 <= i < s.len() && earliest <= #[trigger] s[i].0 && s[i].0 <= latest && fold_low::<D>(
                s.subrange(lower_bound(s, earliest) as int, upper_bound(s, latest) as int),
            ) == D::v_value_low(s[i].1),
{
    lemma_key_window(s, earliest, latest);
    let lo = lower_bound(s, earliest) as int;
    let hi = upper_bound(s, latest) as int;
    if lo < hi {
        let w = s.subrange(lo, hi);
        assert(earliest <= s[lo].0 && s[lo].0 <= latest);
        lemma_fold_high_max::<D>(w);
        lemma_fold_low_min::<D>(w);
        assert forall|i: int| 0 <= i < s.len() && earliest <= #[trigger] s[i].0 && s[i].0 <= latest implies {
            &&& fold_low::<D>(w).units <= D::v_value_low(s[i].1).units
            &&& D::v_value_high(s[i].1).units <= fold_high::<D>(w).units
        } by {
            assert(w[i - lo] == s[i]);
        }
        let jh = choose|j: int| 0 <= j < w.len() && fold_high::<D>(w) == D::v_value_high(#[trigger] w[j].1);
        assert(w[jh] == s[jh + lo]);
        assert(earliest <= s[jh + lo].0 && s[jh + lo].0 <= latest);
        let jl = choose|j: int| 0 <= j < w.len() && fold_low::<D>(w) == D::v_value_low(#[trigger] w[j].1);
        assert(w[jl] == s[jl + lo]);
        assert(earliest <= s[jl + lo].0 && s[jl + lo].0 <= latest);
    } else {
        assert forall|i: int| 0 <= i < s.len() && earliest <= #[trigger] s[i].0 implies !(s[i].0 <= latest) by {}
    }
}

/// The price scale over the newest `n` base data points (what
/// `price_scale` returns for a lookback of at least one point): its high is
/// at least the high of each of them and is one of them; its low is at most
/// the low of each and is one of them.
pub proof fn law_price_scale_bounds<D: DataPoint>(s: Seq<(u64, D::V)>, n: int)
    requires
        0 < n <= s.len(),
    ensures
        forall|i: int| s.len() - n <= i < s.len() ==> {
            &&& D::v_value_high(#[trigger] s[i].1).units <= fold_high::<D>(s.subrange(s.len() - n, s.len() as int)).units
            &&& fold_low::<D>(s.subrange(s.len() - n, s.len() as int)).units <= D::v_value_low(s[i].1).units
        },
        exists|i: int| s.len() - n <= i < s.len() && fold_high::<D>(s.subrange(s.len() - n, s.len() as int))
            == D::v_value_high(#[trigger] s[i].1),
        exists|i: int| s.len() - n <= i < s.len() && fold_low::<D>(s.subrange(s.len() - n, s.len() as int))
            == D::v_value_low(#[trigger] s[i].1),
{
    let st = s.len() - n;
    let w = s.subrange(st, s.len() as int);
    lemma_fold_high_max::<D>(w);
    lemma_fold_low_min::<D>(w);
    assert forall|i: int| st <= i < s.len() implies {
        &&& D::v_value_high(#[trigger] s[i].1).units <= fold_high::<D>(w).units
        &&& fold_low::<D>(w).units <= D::v_value_low(s[i].1).units
    } by {
        assert(w[i - st] == s[i]);
    }
    let jh = choose|j: int| 0 <= j < w.len() && fold_high::<D>(w) == D::v_value_high(#[trigger] w[j].1);
    assert(w[jh] == s[jh + st]);
    let jl = choose|j: int| 0 <= j < w.len() && fold_low::<D>(w) == D::v_value_low(#[trigger] w[j].1);
    assert(w[jl] == s[jl + st]);
}

proof fn lemma_groups_max_qty(g: Seq<GroupedTrade>)
    ensures
        forall|j: int| 0 <= j < g.len() ==> (#[trigger] g[j]).qty <= groups_max_qty(g),
        g.len() > 0 ==> exists|j: int| 0 <= j < g.len() && groups_max_qty(g) == (#[trigger] g[j]).qty,
        g.len() == 0 ==> groups_max_qty(g) == 0,
    decreases g.len(),
{
    if g.len() > 0 {
        let t = g.drop_last();
        lemma_groups_max_qty(t);
        assert forall|j: int| 0 <= j < g.len() implies (#[trigger] g[j]).qty <= groups_max_qty(g) by {
            if j < g.len() - 1 {
                assert(g[j] == t[j]);
            }
        }
        if g.last().qty > groups_max_qty(t) || t.len() == 0 {
            assert(groups_max_qty(g) == g[g.len() - 1].qty);
        } else {
            let j = choose|j: int| 0 <= j < t.len() && groups_max_qty(t) == (#[trigger] t[j]).qty;
            assert(g[j] == t[j]);
        }
    }
}

proof fn lemma_window_max_trade_qty(w: Seq<(u64, HeatmapDataPointV)>)
    ensures
        forall|i: int, j: int|
            0 <= i < w.len() && 0 <= j < w[i].1.groups.len() ==> (#[trigger] w[i].1.groups[j]).qty
                <= window_max_trade_qty(w),
        (exists|i: int| 0 <= i < w.len() && #[trigger] w[i].1.groups.len() > 0) ==> exists|
            i: int,
            j: int,
        |
            0 <= i < w.len() && 0 <= j < w[i].1.groups.len() && window_max_trade_qty(w) == (
            #[trigger] w[i].1.groups[j]).qty,
        (forall|i: int| 0 <= i < w.len() ==> #[trigger] w[i].1.groups.len() == 0) ==> window_max_trade_qty(w) == 0,
    decreases w.len(),
{
    if w.len() > 0 {
        let t = w.drop_last();
        lemma_window_max_trade_qty(t);
        let g = w.last().1.groups;
        lemma_groups_max_qty(g);
        assert forall|i: int, j: int|
            0 <= i < w.len() && 0 <= j < w[i].1.groups.len() implies (#[trigger] w[i].1.groups[j]).qty
            <= window_max_trade_qty(w) by {
            if i < w.len() - 1 {
                assert(w[i] == t[i]);
            }
        }
        if exists|i: int| 0 <= i < w.len() && #[trigger] w[i].1.groups.len() > 0 {
            if groups_max_qty(g) > window_max_trade_qty(t) {
                assert(g.len() > 0);
                let j = choose|j: int| 0 <= j < g.len() && groups_max_qty(g) == (#[trigger] g[j]).qty;
                assert(w[w.len() - 1].1.groups[j] == g[j]);
            } else if exists|i: int| 0 <= i < t.len() && #[trigger] t[i].1.groups.len() > 0 {
                let (i, j) = choose|i: int, j: int|
                    0 <= i < t.len() && 0 <= j < t[i].1.groups.len() && window_max_trade_qty(t) == (
                    #[trigger] t[i].1.groups[j]).qty;
                assert(w[i] == t[i]);
            } else {
                let i = choose|i: int| 0 <= i < w.len() && #[trigger] w[i].1.groups.len() > 0;
                if i < w.len() - 1 {
                    assert(w[i] == t[i]);
                    assert(t[i].1.groups.len() > 0);
                    assert(false);
                }
                assert(g.len() > 0);
                assert forall|a: int| 0 <= a < t.len() implies #[trigger] t[a].1.groups.len() == 0 by {
                    if t[a].1.groups.len() > 0 {
                        assert(t[a].1.groups.len() > 0);
                    }
                }
                let jj = choose|jj: int| 0 <= jj < g.len() && groups_max_qty(g) == (#[trigger] g[jj]).qty;
                assert(w[w.len() - 1].1.groups[jj] == g[jj]);
            }
        }
        if forall|i: int| 0 <= i < w.len() ==> #[trigger] w[i].1.groups.len() == 0 {
            assert forall|a: int| 0 <= a < t.len() implies #[trigger] t[a].1.groups.len() == 0 by {
                assert(t[a] == w[a]);
            }
            assert(w[w.len() - 1].1.groups.len() == 0);
        }
    }
}

/// The largest trade of a heatmap time window (the first result of
/// `max_trade_qty_and_aggr_volume`): at least the quantity of every group
/// of every base data point keyed in `[earliest, latest]`, and the quantity
/// of one of them when any such point has a group; 0 when none has.
pub proof fn law_heatmap_max_trade_qty(s: Seq<(u64, HeatmapDataPointV)>, earliest: u64, latest: u64)
    requires
        sorted_keys(s),
        earliest <= latest,
    ensures
        ({
            let lo = lower_bound(s, earliest) as int;
            let hi = upper_bound(s, latest) as int;
            let m = if lo >= hi {
                0
            } else {
                window_max_trade_qty(s.subrange(lo, hi))
            };
            &&& forall|i: int, j: int|
                0 <= i < s.len() && earliest <= s[i].0 && s[i].0 <= latest && 0 <= j < s[i].1.groups.len()
                    ==> (#[trigger] s[i].1.groups[j]).qty <= m
            &&& (exists|i: int|
                0 <= i < s.len() && earliest <= s[i].0 && s[i].0 <= latest && #[trigger] s[i].1.groups.len()
                    > 0) ==> exists|i: int, j: int|
                0 <= i < s.len() && earliest <= s[i].0 && s[i].0 <= latest && 0 <= j < s[i].1.groups.len()
                    && m == (#[trigger] s[i].1.groups[j]).qty
        }),
{
    lemma_key_window(s, earliest, latest);
    let lo = lower_bound(s, earliest) as int;
    let hi = upper_bound(s, latest) as int;
    if lo < hi {
        let w = s.subrange(lo, hi);
        lemma_window_max_trade_qty(w);
        assert forall|i: int, j: int|
            0 <= i < s.len() && earliest <= s[i].0 && s[i].0 <= latest && 0 <= j < s[i].1.groups.len()
            implies (#[trigger] s[i].1.groups[j]).qty <= window_max_trade_qty(w) by {
            assert(w[i - lo] == s[i]);
        }
        if exists|i: int|
            0 <= i < s.len() && earliest <= s[i].0 && s[i].0 <= latest && #[trigger] s[i].1.groups.len() > 0 {
            let i = choose|i: int|
                0 <= i < s.len() && earliest <= s[i].0 && s[i].0 <= latest && #[trigger] s[i].1.groups.len() > 0;
            assert(w[i - lo] == s[i]);
            assert(w[i - lo].1.groups.len() > 0);
            let (a, b) = choose|a: int, b: int|
                0 <= a < w.len() && 0 <= b < w[a].1.groups.len() && window_max_trade_qty(w) == (
                #[trigger] w[a].1.groups[b]).qty;
            assert(w[a] == s[a + lo]);
            assert(s[a + lo].1.groups[b] == w[a].1.groups[b]);
        }
    } else {
        assert forall|i: int| 0 <= i < s.len() && earliest <= #[trigger] s[i].0 implies !(s[i].0 <= latest) by {}
    }
}

proof fn lemma_last_empty_index(s: Seq<(u64, KlineDataPointV)>)
    ensures
        -1 <= last_empty_index(s) < s.len(),
        last_empty_index(s) >= 0 ==> s[last_empty_index(s)].1.footprint.trades.len() == 0,
        forall|j: int| last_empty_index(s) < j < s.len() ==> (#[trigger] s[j]).1.footprint.trades.len() > 0,
    decreases s.len(),
{
    if s.len() > 0 && s.last().1.footprint.trades.len() > 0 {
        let t = s.drop_last();
        lemma_last_empty_index(t);
        assert forall|j: int| last_empty_index(s) < j < s.len() implies (#[trigger] s[j]).1.footprint.trades.len()
            > 0 by {
            if j < s.len() - 1 {
                assert(s[j] == t[j]);
            }
        }
        if last_empty_index(t) >= 0 {
            assert(s[last_empty_index(t)] == t[last_empty_index(t)]);
        }
    }
}

/// The trade gap (what `suggest_trade_fetch_range` fills) is taken around
/// the newest trades-free base candle: there is none exactly when every
/// candle has trades, and for the candle at index `g` that has no trades
/// while every newer one has, the gap runs from the last trade before `g` to
/// the first trade after it.
pub proof fn law_trade_gap_is_newest(s: Seq<(u64, KlineDataPointV)>)
    ensures
        trade_gap(s) is None <==> forall|i: int| 0 <= i < s.len() ==> (#[trigger] s[i]).1.footprint.trades.len() > 0,
        forall|g: int|
            0 <= g < s.len() && (#[trigger] s[g]).1.footprint.trades.len() == 0 && (forall|j: int|
                g < j < s.len() ==> (#[trigger] s[j]).1.footprint.trades.len() > 0) ==> trade_gap(s) == Some(
                (last_time_before(s, g), first_time_after(s, g + 1)),
            ),
{
    lemma_last_empty_index(s);
    let e = last_empty_index(s);
    assert forall|g: int|
        0 <= g < s.len() && (#[trigger] s[g]).1.footprint.trades.len() == 0 && (forall|j: int|
            g < j < s.len() ==> (#[trigger] s[j]).1.footprint.trades.len() > 0) implies trade_gap(s) == Some(
        (last_time_before(s, g), first_time_after(s, g + 1)),
    ) by {
        if e < g {
            assert(s[g].1.footprint.trades.len() > 0);
        } else if g < e {
            assert(s[e].1.footprint.trades.len() > 0);
        }
    }
    if trade_gap(s) is None {
        assert forall|i: int| 0 <= i < s.len() implies (#[trigger] s[i]).1.footprint.trades.len() > 0 by {}
    } else {
        assert(s[e].1.footprint.trades.len() == 0);
    }
}

proof fn lemma_select_index(tfs: Seq<Timeframe>, base_ms: int, visible: int, i: int)
    requires
        0 <= i < tfs.len(),
    ensures
        0 <= select_index(tfs, base_ms, visible, i) <= i,
        select_index(tfs, base_ms, visible, i) > 0 ==> visible / (timeframe_ms(
            tfs[select_index(tfs, base_ms, visible, i)],
        ) as int / base_ms) >= 100,
        forall|j: int|
            select_index(tfs, base_ms, visible, i) < j <= i ==> visible / (timeframe_ms(#[trigger] tfs[j]) as int
                / base_ms) < 100,
    decreases i,
{
    if i > 0 && !(visible / (timeframe_ms(tfs[i]) as int / base_ms) >= 100) {
        lemma_select_index(tfs, base_ms, visible, i - 1);
    }
}

/// The level a chart draws (what `select_level` picks for a non-empty
/// base): the coarsest level at which the visible bars, divided by the
/// level's aggregation factor (its interval over the base interval), are
/// still at least 100; the base level when no coarser level keeps 100.
pub proof fn law_select_level_coarsest(tfs: Seq<Timeframe>, base_ms: int, visible: int)
    requires
        tfs.len() > 0,
    ensures
        0 <= select_index(tfs, base_ms, visible, tfs.len() - 1) < tfs.len(),
        select_index(tfs, base_ms, visible, tfs.len() - 1) > 0 ==> visible / (timeframe_ms(
            tfs[select_index(tfs, base_ms, visible, tfs.len() - 1)],
        ) as int / base_ms) >= 100,
        forall|j: int|
            select_index(tfs, base_ms, visible, tfs.len() - 1) < j < tfs.len() ==> visible / (timeframe_ms(
                #[trigger] tfs[j],
            ) as int / base_ms) < 100,
{
    lemma_select_index(tfs, base_ms, visible, tfs.len() - 1);
}

proof fn lemma_npoc_scan(s: Seq<(u64, KlineDataPointV)>, j: int, p: Price, step: PriceStep, acc: NPoc)
    requires
        0 <= j <= s.len(),
    ensures
        (forall|k: int| j <= k < s.len() ==> !covers(#[trigger] s[k].1, p, step)) ==> npoc_scan(
            s,
            j,
            p,
            step,
            acc,
        ) == (if j < s.len() {
            NPoc::Naked
        } else {
            acc
        }),
        forall|k: int|
            j <= k < s.len() && covers(#[trigger] s[k].1, p, step) && (forall|m: int|
                j <= m < k ==> !covers(#[trigger] s[m].1, p, step)) ==> npoc_scan(s, j, p, step, acc)
                == (NPoc::Filled { at: s[k].0 }),
    decreases s.len() - j,
{
    if j < s.len() {
        lemma_npoc_scan(s, j + 1, p, step, NPoc::Naked);
        if !covers(s[j].1, p, step) {
            assert forall|k: int|
                j <= k < s.len() && covers(#[trigger] s[k].1, p, step) && (forall|m: int|
                    j <= m < k ==> !covers(#[trigger] s[m].1, p, step)) implies npoc_scan(s, j, p, step, acc)
                == (NPoc::Filled { at: s[k].0 }) by {
                assert(k != j);
                assert forall|m: int| j + 1 <= m < k implies !covers(#[trigger] s[m].1, p, step) by {}
            }
        } else {
            assert forall|k: int|
                j <= k < s.len() && covers(#[trigger] s[k].1, p, step) && (forall|m: int|
                    j <= m < k ==> !covers(#[trigger] s[m].1, p, step)) implies npoc_scan(s, j, p, step, acc)
                == (NPoc::Filled { at: s[k].0 }) by {
                if k > j {
                    assert(!covers(s[j].1, p, step));
                }
            }
        }
    }
}

/// The status `update_poc_status` gives the point of control of base
/// candle `i`, at price `p`: filled at the key of the first later candle
/// whose range, widened to the tick grid, reaches `p`; naked when later
/// candles exist and none reaches it; unset when no candle is later.
pub proof fn law_poc_status(s: Seq<(u64, KlineDataPointV)>, step: PriceStep, i: int)
    requires
        0 <= i < s.len(),
        s[i].1.footprint.poc is Some,
    ensures
        ({
            let p = s[i].1.footprint.poc.unwrap().price;
            let st = poc_statuses(s, step)[i].1.footprint.poc.unwrap().status;
            &&& poc_statuses(s, step)[i].0 == s[i].0
            &&& forall|k: int|
                i < k < s.len() && covers(#[trigger] s[k].1, p, step) && (forall|m: int|
                    i < m < k ==> !covers(#[trigger] s[m].1, p, step)) ==> st == (NPoc::Filled { at: s[k].0 })
            &&& (forall|k: int| i < k < s.len() ==> !covers(#[trigger] s[k].1, p, step)) ==> st == (if i + 1
                < s.len() {
                NPoc::Naked
            } else {
                NPoc::Unset
            })
        }),
{
    let p = s[i].1.footprint.poc.unwrap().price;
    lemma_npoc_scan(s, i + 1, p, step, NPoc::Unset);
    let st = poc_statuses(s, step)[i].1.footprint.poc.unwrap().status;
    assert(st == npoc_scan(s, i + 1, p, step, NPoc::Unset));
    assert forall|k: int|
        i < k < s.len() && covers(#[trigger] s[k].1, p, step) && (forall|m: int|
            i < m < k ==> !covers(#[trigger] s[m].1, p, step)) implies st == (NPoc::Filled { at: s[k].0 }) by {
        assert forall|m: int| i + 1 <= m < k implies !covers(#[trigger] s[m].1, p, step) by {}
    }
    if forall|k: int| i < k < s.len() ==> !covers(#[trigger] s[k].1, p, step) {
        assert forall|k: int| i + 1 <= k < s.len() implies !covers(#[trigger] s[k].1, p, step) by {}
    }
}

proof fn lemma_window_max_volume(w: Seq<(u64, HeatmapDataPointV)>)
    ensures
        forall|i: int| 0 <= i < w.len() ==> groups_qty_sum(#[trigger] w[i].1.groups) <= window_max_volume(w),
        w.len() > 0 ==> exists|i: int| 0 <= i < w.len() && window_max_volume(w) == groups_qty_sum(#[trigger] w[i].1.groups),
    decreases w.len(),
{
    if w.len() > 0 {
        let t = w.drop_last();
        lemma_window_max_volume(t);
        assert forall|i: int| 0 <= i < w.len() implies groups_qty_sum(#[trigger] w[i].1.groups) <= window_max_volume(w) by {
            if i < w.len() - 1 {
                assert(w[i] == t[i]);
            }
        }
        if groups_qty_sum(w.last().1.groups) > window_max_volume(t) || t.len() == 0 {
            assert(window_max_volume(w) == groups_qty_sum(w[w.len() - 1].1.groups));
        } else {
            let j = choose|j: int| 0 <= j < t.len() && window_max_volume(t) == groups_qty_sum(#[trigger] t[j].1.groups);
            assert(w[j] == t[j]);
        }
    }
}

/// The largest aggregated volume of a heatmap time window (the second
/// result of `max_trade_qty_and_aggr_volume`): at least the total quantity
/// of every base data point keyed in `[earliest, latest]`, and that of one
/// of them when there is one.
pub proof fn law_heatmap_max_volume(s: Seq<(u64, HeatmapDataPointV)>, earliest: u64, latest: u64)
    requires
        sorted_keys(s),
        earliest <= latest,
    ensures
        ({
            let lo = lower_bound(s, earliest) as int;
            let hi = upper_bound(s, latest) as int;
            let m = if lo >= hi {
                0
            } else {
                window_max_volume(s.subrange(lo, hi))
            };
            &&& forall|i: int|
                0 <= i < s.len() && earliest <= s[i].0 && s[i].0 <= latest ==> groups_qty_sum(
                    #[trigger] s[i].1.groups,
                ) <= m
            &&& (exists|i: int| 0 <= i < s.len() && earliest <= #[trigger] s[i].0 && s[i].0 <= latest)
                ==> exists|i: int|
                0 <= i < s.len() && earliest <= s[i].0 && s[i].0 <= latest && m == groups_qty_sum(
                    #[trigger] s[i].1.groups,
                )
        }),
{
    lemma_key_window(s, earliest, latest);
    let lo = lower_bound(s, earliest) as int;
    let hi = upper_bound(s, latest) as int;
    if lo < hi {
        let w = s.subrange(lo, hi);
        lemma_window_max_volume(w);
        assert forall|i: int| 0 <= i < s.len() && earliest <= s[i].0 && s[i].0 <= latest implies groups_qty_sum(
            #[trigger] s[i].1.groups,
        ) <= window_max_volume(w) by {
            assert(w[i - lo] == s[i]);
        }
        let a = choose|a: int| 0 <= a < w.len() && window_max_volume(w) == groups_qty_sum(#[trigger] w[a].1.groups);
        assert(w[a] == s[a + lo]);
        assert(earliest <= s[a + lo].0 && s[a + lo].0 <= latest);
    } else {
        assert forall|i: int| 0 <= i < s.len() && earliest <= #[trigger] s[i].0 implies !(s[i].0 <= latest) by {}
    }
}

/// The trade time before a gap at index `g` is the last trade time of the
/// newest candle before `g` that has trades, and there is none when no
/// candle before `g` has any.
pub proof fn law_last_time_before(s: Seq<(u64, KlineDataPointV)>, g: int)
    requires
        0 <= g <= s.len(),
    ensures
        (forall|k: int| 0 <= k < g ==> (<KlineDataPoint as DataPoint>::v_last_trade_time(#[trigger] s[k].1)) is None)
            ==> last_time_before(s, g) is None,
        forall|k: int|
            0 <= k < g && (<KlineDataPoint as DataPoint>::v_last_trade_time(#[trigger] s[k].1)) is Some && (forall|m: int|
                k < m < g ==> (<KlineDataPoint as DataPoint>::v_last_trade_time(#[trigger] s[m].1)) is None)
                ==> last_time_before(s, g) == <KlineDataPoint as DataPoint>::v_last_trade_time(s[k].1),
    decreases g,
{
    if g > 0 {
        law_last_time_before(s, g - 1);
        assert forall|k: int|
            0 <= k < g && (<KlineDataPoint as DataPoint>::v_last_trade_time(#[trigger] s[k].1)) is Some && (forall|m: int|
                k < m < g ==> (<KlineDataPoint as DataPoint>::v_last_trade_time(#[trigger] s[m].1)) is None)
            implies last_time_before(s, g) == <KlineDataPoint as DataPoint>::v_last_trade_time(s[k].1) by {
            if k < g - 1 {
                assert((<KlineDataPoint as DataPoint>::v_last_trade_time(s[g - 1].1)) is None);
            }
        }
    }
}

/// The trade time after a gap is the first trade time of the oldest candle
/// from index `i` on that has trades, and there is none when no candle from
/// `i` on has any.
pub proof fn law_first_time_after(s: Seq<(u64, KlineDataPointV)>, i: int)
    requires
        0 <= i <= s.len(),
    ensures
        (forall|k: int| i <= k < s.len() ==> (<KlineDataPoint as DataPoint>::v_first_trade_time(#[trigger] s[k].1)) is None)
            ==> first_time_after(s, i) is None,
        forall|k: int|
            i <= k < s.len() && (<KlineDataPoint as DataPoint>::v_first_trade_time(#[trigger] s[k].1)) is Some && (forall|m: int|
                i <= m < k ==> (<KlineDataPoint as DataPoint>::v_first_trade_time(#[trigger] s[m].1)) is None)
                ==> first_time_after(s, i) == <KlineDataPoint as DataPoint>::v_first_trade_time(s[k].1),
    decreases s.len() - i,
{
    if i < s.len() {
        law_first_time_after(s, i + 1);
        assert forall|k: int|
            i <= k < s.len() && (<KlineDataPoint as DataPoint>::v_first_trade_time(#[trigger] s[k].1)) is Some && (forall|m: int|
                i <= m < k ==> (<KlineDataPoint as DataPoint>::v_first_trade_time(#[trigger] s[m].1)) is None)
            implies first_time_after(s, i) == <KlineDataPoint as DataPoint>::v_first_trade_time(s[k].1) by {
            if k > i {
                assert((<KlineDataPoint as DataPoint>::v_first_trade_time(s[i].1)) is None);
            }
        }
    }
}

} // verus!
