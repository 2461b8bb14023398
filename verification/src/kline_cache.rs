//! Cache of live candles per symbol and timeframe, keyed by open time.

use vstd::prelude::*;

use crate::text::str_eq;
use crate::timemap::{
    TimeMap, lemma_key_at_lower_bound, lemma_lower_bound, lemma_lower_bound_unique, lemma_seq_set_sorted, lower_bound, seq_set,
    sorted_keys,
};

verus! {

/// One series of the cache: symbol, timeframe and candles by open time.
#[derive(Debug)]
pub struct CacheSeries<V> {
    pub symbol: String,
    pub timeframe: String,
    pub klines: TimeMap<V>,
}

/// A series taken by value.
pub type SeriesV<V> = (Seq<char>, Seq<char>, Seq<(u64, V)>);

/// Index of the first series at or after `i` for `symbol` and `timeframe`,
/// or -1.
pub open spec fn series_index<V>(s: Seq<SeriesV<V>>, symbol: Seq<char>, tf: Seq<char>, i: int) -> int
    decreases s.len() - i,
{
    if i < 0 || i >= s.len() {
        -1
    } else if s[i].0 == symbol && s[i].1 == tf {
        i
    } else {
        series_index(s, symbol, tf, i + 1)
    }
}

/// The candles of `symbol` and `timeframe`, empty when there is no series.
pub open spec fn series_of<V>(s: Seq<SeriesV<V>>, symbol: Seq<char>, tf: Seq<char>) -> Seq<(u64, V)> {
    let i = series_index(s, symbol, tf, 0);
    if i >= 0 {
        s[i].2
    } else {
        Seq::empty()
    }
}

/// Candles stored one after the other.
pub open spec fn set_all<V>(s: Seq<(u64, V)>, items: Seq<(u64, V)>) -> Seq<(u64, V)>
    decreases items.len(),
{
    if items.len() == 0 {
        s
    } else {
        let last = items.last();
        seq_set(set_all(s, items.drop_last()), last.0, last.1)
    }
}

/// Live candles per symbol and timeframe. The series are found by their
/// (symbol, timeframe) key in a vector with no key twice: with a `String` in
/// the key, vstd's `HashMap` contracts hold only for key types whose hashing
/// and equality it trusts, so nothing of the calls could be proved.
#[derive(Debug)]
pub struct KlineStore<V> {
    pub series: Vec<CacheSeries<V>>,
}

impl<V: Copy> KlineStore<V> {
    pub open spec fn view_series(&self) -> Seq<SeriesV<V>> {
        self.series@.map_values(|c: CacheSeries<V>| (c.symbol@, c.timeframe@, c.klines.entries@))
    }

    /// Whether every series' keys increase.
    pub open spec fn wf(&self) -> bool {
        forall|i: int| 0 <= i < self.series@.len() ==> #[trigger] self.series@[i].klines.wf()
    }

    pub fn new() -> (s: Self)
        ensures
            s.view_series().len() == 0,
            s.wf(),
    {
        KlineStore { series: Vec::new() }
    }

    fn find(&self, symbol: &str, timeframe: &str) -> (r: Option<usize>)
        ensures
            r matches Some(i) ==> i == series_index(self.view_series(), symbol@, timeframe@, 0) && i
                < self.series@.len(),
            r is None ==> series_index(self.view_series(), symbol@, timeframe@, 0) == -1,
    {
        let mut i: usize = 0;
        while i < self.series.len()
            invariant
                i <= self.series@.len(),
                series_index(self.view_series(), symbol@, timeframe@, 0) == series_index(
                    self.view_series(),
                    symbol@,
                    timeframe@,
                    i as int,
                ),
            decreases self.series.len() - i,
        {
            if str_eq(self.series[i].symbol.as_str(), symbol) && str_eq(
                self.series[i].timeframe.as_str(),
                timeframe,
            ) {
                return Some(i);
            }
            i = i + 1;
        }
        None
    }

    /// Index of the series for `symbol` and `timeframe`, created empty when
    /// missing.
    fn series_for(&mut self, symbol: &str, timeframe: &str) -> (i: usize)
        requires
            old(self).wf(),
        ensures
            final(self).wf(),
            i < final(self).series@.len(),
            final(self).view_series()[i as int].0 == symbol@,
            final(self).view_series()[i as int].1 == timeframe@,
            final(self).view_series()[i as int].2 == series_of(old(self).view_series(), symbol@, timeframe@),
            forall|x: Seq<char>, y: Seq<char>| !(x == symbol@ && y == timeframe@) ==> series_of(final(self).view_series(), x, y) == series_of(old(self).view_series(), x, y),
            final(self).view_series().len() >= old(self).view_series().len(),
            series_index(final(self).view_series(), symbol@, timeframe@, 0) == i,
            forall|j: int| 0 <= j < old(self).series@.len() && j != i ==> #[trigger] final(self).view_series()[j] == old(self).view_series()[j],
    {
        match self.find(symbol, timeframe) {
            Some(i) => {
                proof {
                    lemma_series_index_range(self.view_series(), symbol@, timeframe@, 0);
                }
                i
            },
            None => {
                let ghost before = self.view_series();
                self.series.push(
                    CacheSeries {
                        symbol: symbol.to_owned(),
                        timeframe: timeframe.to_owned(),
                        klines: TimeMap::new(),
                    },
                );
                let i = self.series.len() - 1;
                proof {
                    let after = self.view_series();
                    assert(after =~= before.push((symbol@, timeframe@, Seq::empty())));
                    lemma_series_index_push(before, symbol@, timeframe@, Seq::empty());
                    assert forall|x: Seq<char>, y: Seq<char>| !(x == symbol@ && y == timeframe@) implies series_of(after, x, y) == series_of(before, x, y) by {
                        lemma_series_index_push_other(before, symbol@, timeframe@, Seq::empty(), x, y);
                    }
                    assert(self.series@[i as int].klines.wf());
                }
                i
            },
        }
    }

    /// Stores a candle under its open time, replacing one stored there. The
    /// open time is passed beside the candle: the store reads nothing else
    /// of it, and the candle's prices and volume are floating point, which
    /// the library does not hold as fields.
    pub fn insert(&mut self, symbol: &str, timeframe: &str, open_time_us: u64, kline: V)
        requires
            old(self).wf(),
        ensures
            final(self).wf(),
            series_of(final(self).view_series(), symbol@, timeframe@) == seq_set(
                series_of(old(self).view_series(), symbol@, timeframe@),
                open_time_us,
                kline,
            ),
            forall|x: Seq<char>, y: Seq<char>| !(x == symbol@ && y == timeframe@) ==> series_of(final(self).view_series(), x, y) == series_of(old(self).view_series(), x, y),
    {
        let i = self.series_for(symbol, timeframe);
        let ghost mid = self.view_series();
        proof {
            assert(self.series@[i as int].klines.wf());
        }
        self.series[i].klines.insert(open_time_us, kline);
        proof {
            let after = self.view_series();
            assert forall|j: int| 0 <= j < after.len() && j != i implies #[trigger] after[j] == mid[j] by {}
            lemma_series_index_same(mid, after, symbol@, timeframe@, 0);
            assert forall|x: Seq<char>, y: Seq<char>| true implies series_index(after, x, y, 0) == series_index(mid, x, y, 0) by {
                lemma_series_index_same(mid, after, x, y, 0);
            }
            assert forall|x: Seq<char>, y: Seq<char>| !(x == symbol@ && y == timeframe@) implies series_of(after, x, y) == series_of(mid, x, y) by {
                lemma_series_index_same(mid, after, x, y, 0);
                lemma_series_index_range(mid, x, y, 0);
            }
            assert forall|k: int| 0 <= k < self.series@.len() implies #[trigger] self.series@[k].klines.wf() by {
                if k != i {
                    assert(self.view_series()[k] == mid[k]);
                }
            }
        }
    }

    /// Stores candles one after the other, each under its open time.
    pub fn insert_many(&mut self, symbol: &str, timeframe: &str, klines: &Vec<(u64, V)>)
        requires
            old(self).wf(),
        ensures
            final(self).wf(),
            series_of(final(self).view_series(), symbol@, timeframe@) == set_all(
                series_of(old(self).view_series(), symbol@, timeframe@),
                klines@,
            ),
            forall|x: Seq<char>, y: Seq<char>| !(x == symbol@ && y == timeframe@) ==> series_of(final(self).view_series(), x, y) == series_of(old(self).view_series(), x, y),
    {
        let mut k: usize = 0;
        while k < klines.len()
            invariant
                self.wf(),
                k <= klines@.len(),
                series_of(self.view_series(), symbol@, timeframe@) == set_all(
                    series_of(old(self).view_series(), symbol@, timeframe@),
                    klines@.take(k as int),
                ),
                forall|x: Seq<char>, y: Seq<char>| !(x == symbol@ && y == timeframe@) ==> series_of(self.view_series(), x, y) == series_of(old(self).view_series(), x, y),
            decreases klines.len() - k,
        {
            let (t, v) = klines[k];
            proof {
                assert(klines@.take(k as int + 1).drop_last() =~= klines@.take(k as int));
            }
            self.insert(symbol, timeframe, t, v);
            k = k + 1;
        }
        proof {
            assert(klines@.take(klines@.len() as int) =~= klines@);
        }
    }

    /// The candles of `symbol` and `timeframe` opened from `start_us` up to
    /// `end_us` (excluded), in open-time order.
    pub fn get_range(&self, symbol: &str, timeframe: &str, start_us: u64, end_us: u64) -> (r: Vec<V>)
        requires
            self.wf(),
            series_index(self.view_series(), symbol@, timeframe@, 0) >= 0 ==> start_us <= end_us,
        ensures
            ({
                let s = series_of(self.view_series(), symbol@, timeframe@);
                r@ == s.subrange(lower_bound(s, start_us) as int, lower_bound(s, end_us) as int).map_values(|e: (u64, V)| e.1)
            }),
    {
        match self.find(symbol, timeframe) {
            None => {
                let r: Vec<V> = Vec::new();
                proof {
                    let s = series_of(self.view_series(), symbol@, timeframe@);
                    assert(s.len() == 0);
                    assert(r@ =~= s.subrange(lower_bound(s, start_us) as int, lower_bound(s, end_us) as int).map_values(|e: (u64, V)| e.1));
                }
                r
            },
            Some(i) => {
                let m = &self.series[i].klines;
                assert(self.series@[i as int].klines.wf());
                proof {
                    lemma_series_index_range(self.view_series(), symbol@, timeframe@, 0);
                    lemma_lower_bound(m.entries@, start_us);
                    lemma_lower_bound(m.entries@, end_us);
                }
                let lo = m.lower_bound(start_us);
                let hi = m.lower_bound(end_us);
                proof {
                    if hi < lo {
                        assert(m.entries@[hi as int].0 >= end_us);
                        assert(m.entries@[hi as int].0 < start_us);
                    }
                }
                let mut out: Vec<V> = Vec::new();
                let mut j = lo;
                while j < hi
                    invariant
                        lo <= j <= hi,
                        hi <= m.entries@.len(),
                        out@ == m.entries@.subrange(lo as int, j as int).map_values(|e: (u64, V)| e.1),
                    decreases hi - j,
                {
                    out.push(m.entries[j].1);
                    proof {
                        assert(m.entries@.subrange(lo as int, j as int + 1).map_values(|e: (u64, V)| e.1) =~= m.entries@.subrange(lo as int, j as int).map_values(|e: (u64, V)| e.1).push(m.entries@[j as int].1));
                    }
                    j = j + 1;
                }
                out
            },
        }
    }

    /// Drops the series of `symbol` and `timeframe`.
    pub fn clear(&mut self, symbol: &str, timeframe: &str)
        requires
            old(self).wf(),
        ensures
            final(self).wf(),
            series_of(final(self).view_series(), symbol@, timeframe@).len() == 0,
            forall|x: Seq<char>, y: Seq<char>| !(x == symbol@ && y == timeframe@) ==> series_of(final(self).view_series(), x, y) == series_of(old(self).view_series(), x, y),
    {
        match self.find(symbol, timeframe) {
            None => {},
            Some(i) => {
                let ghost mid = self.view_series();
                proof {
                    lemma_series_index_range(mid, symbol@, timeframe@, 0);
                    assert(self.series@[i as int].klines.wf());
                }
                self.series[i].klines = TimeMap::new();
                proof {
                    let after = self.view_series();
                    assert forall|x: Seq<char>, y: Seq<char>| true implies series_index(after, x, y, 0) == series_index(mid, x, y, 0) by {
                        lemma_series_index_same(mid, after, x, y, 0);
                    }
                    assert forall|x: Seq<char>, y: Seq<char>| !(x == symbol@ && y == timeframe@) implies series_of(after, x, y) == series_of(mid, x, y) by {
                        lemma_series_index_range(mid, x, y, 0);
                    }
                    assert forall|k: int| 0 <= k < self.series@.len() implies #[trigger] self.series@[k].klines.wf() by {
                        if k != i {
                            assert(self.view_series()[k] == mid[k]);
                        }
                    }
                }
            },
        }
    }

    /// Drops every series.
    pub fn clear_all(&mut self)
        ensures
            final(self).view_series().len() == 0,
            final(self).wf(),
    {
        self.series = Vec::new();
    }

    /// Number of candles of `symbol` and `timeframe`.
    pub fn len(&self, symbol: &str, timeframe: &str) -> (n: usize)
        ensures
            n == series_of(self.view_series(), symbol@, timeframe@).len(),
    {
        match self.find(symbol, timeframe) {
            None => 0,
            Some(i) => self.series[i].klines.len(),
        }
    }

    /// Open times of the first and last candle of `symbol` and `timeframe`;
    /// `None` when it has none.
    pub fn time_range(&self, symbol: &str, timeframe: &str) -> (r: Option<(u64, u64)>)
        ensures
            ({
                let s = series_of(self.view_series(), symbol@, timeframe@);
                r == if s.len() == 0 {
                    None::<(u64, u64)>
                } else {
                    Some((s[0].0, s.last().0))
                }
            }),
    {
        match self.find(symbol, timeframe) {
            None => None,
            Some(i) => {
                let first = self.series[i].klines.first_key();
                let last = self.series[i].klines.last_key();
                match (first, last) {
                    (Some(a), Some(b)) => Some((a, b)),
                    _ => None,
                }
            },
        }
    }
}

/// A candle stored under open time `t` is what a read of `[t, t + 1)` gives
/// back: after `insert`, `get_range(symbol, timeframe, t, t + 1)` returns
/// exactly that candle.
pub proof fn law_read_after_insert<V: Copy>(
    before: &KlineStore<V>,
    after: &KlineStore<V>,
    symbol: Seq<char>,
    tf: Seq<char>,
    t: u64,
    v: V,
)
    requires
        before.wf(),
        t < u64::MAX,
        series_of(after.view_series(), symbol, tf) == seq_set(
            series_of(before.view_series(), symbol, tf),
            t,
            v,
        ),
    ensures
        ({
            let s = series_of(after.view_series(), symbol, tf);
            s.subrange(lower_bound(s, t) as int, lower_bound(s, (t + 1) as u64) as int).map_values(
                |e: (u64, V)| e.1,
            ) == seq![v]
        }),
{
    let old_s = series_of(before.view_series(), symbol, tf);
    lemma_series_index_range(before.view_series(), symbol, tf, 0);
    let i = series_index(before.view_series(), symbol, tf, 0);
    if i >= 0 {
        assert(before.series@[i].klines.wf());
    }
    assert(sorted_keys(old_s));
    lemma_seq_set_sorted(old_s, t, v);
    let s = seq_set(old_s, t, v);
    let lo = lower_bound(s, t) as int;
    lemma_lower_bound(s, t);
    assert(lo < s.len()) by {
        lemma_lower_bound(old_s, t);
        lemma_key_at_lower_bound(old_s, t);
    }
    assert forall|j: int| 0 <= j < lo + 1 implies #[trigger] s[j].0 < (t + 1) as u64 by {
        if j < lo {
            assert(s[j].0 < t);
        }
    }
    assert forall|j: int| lo + 1 <= j < s.len() implies #[trigger] s[j].0 >= (t + 1) as u64 by {
        assert(s[lo].0 < s[j].0);
    }
    lemma_lower_bound_unique(s, (t + 1) as u64, lo + 1);
    assert(s.subrange(lo, lo + 1).map_values(|e: (u64, V)| e.1) =~= seq![v]);
}

proof fn lemma_series_index_range<V>(s: Seq<SeriesV<V>>, symbol: Seq<char>, tf: Seq<char>, i: int)
    requires
        0 <= i,
    ensures
        series_index(s, symbol, tf, i) == -1 || (i <= series_index(s, symbol, tf, i) < s.len()
            && s[series_index(s, symbol, tf, i)].0 == symbol && s[series_index(s, symbol, tf, i)].1 == tf),
    decreases s.len() - i,
{
    if i < s.len() && !(s[i].0 == symbol && s[i].1 == tf) {
        lemma_series_index_range(s, symbol, tf, i + 1);
    }
}

/// Series lists that agree on every symbol and timeframe find the same
/// series.
proof fn lemma_series_index_same<V>(
    s: Seq<SeriesV<V>>,
    t: Seq<SeriesV<V>>,
    symbol: Seq<char>,
    tf: Seq<char>,
    i: int,
)
    requires
        0 <= i,
        s.len() == t.len(),
        forall|j: int| 0 <= j < s.len() ==> (#[trigger] s[j]).0 == t[j].0 && s[j].1 == t[j].1,
    ensures
        series_index(s, symbol, tf, i) == series_index(t, symbol, tf, i),
    decreases s.len() - i,
{
    if i < s.len() {
        assert(s[i].0 == t[i].0 && s[i].1 == t[i].1);
        lemma_series_index_same(s, t, symbol, tf, i + 1);
    }
}

proof fn lemma_series_index_push<V>(s: Seq<SeriesV<V>>, symbol: Seq<char>, tf: Seq<char>, v: Seq<(u64, V)>)
    requires
        series_index(s, symbol, tf, 0) == -1,
    ensures
        series_index(s.push((symbol, tf, v)), symbol, tf, 0) == s.len(),
{
    lemma_series_index_none(s, symbol, tf, 0);
    lemma_series_index_walk(s.push((symbol, tf, v)), symbol, tf, 0, s.len() as int);
}

proof fn lemma_series_index_push_other<V>(
    s: Seq<SeriesV<V>>,
    symbol: Seq<char>,
    tf: Seq<char>,
    v: Seq<(u64, V)>,
    x: Seq<char>,
    y: Seq<char>,
)
    requires
        !(x == symbol && y == tf),
    ensures
        series_of(s.push((symbol, tf, v)), x, y) == series_of(s, x, y),
{
    let t = s.push((symbol, tf, v));
    lemma_series_index_prefix(s, t, x, y, 0);
    lemma_series_index_range(s, x, y, 0);
}

proof fn lemma_series_index_prefix<V>(s: Seq<SeriesV<V>>, t: Seq<SeriesV<V>>, x: Seq<char>, y: Seq<char>, i: int)
    requires
        0 <= i,
        t.len() == s.len() + 1,
        forall|j: int| 0 <= j < s.len() ==> t[j] == s[j],
        !(t[s.len() as int].0 == x && t[s.len() as int].1 == y),
    ensures
        series_index(t, x, y, i) == series_index(s, x, y, i),
    decreases t.len() - i,
{
    if i < t.len() {
        lemma_series_index_prefix(s, t, x, y, i + 1);
    }
}

proof fn lemma_series_index_none<V>(s: Seq<SeriesV<V>>, symbol: Seq<char>, tf: Seq<char>, i: int)
    requires
        0 <= i,
        series_index(s, symbol, tf, i) == -1,
    ensures
        forall|j: int| i <= j < s.len() ==> !(#[trigger] s[j].0 == symbol && s[j].1 == tf),
    decreases s.len() - i,
{
    if i < s.len() {
        lemma_series_index_none(s, symbol, tf, i + 1);
    }
}

proof fn lemma_series_index_walk<V>(s: Seq<SeriesV<V>>, symbol: Seq<char>, tf: Seq<char>, i: int, r: int)
    requires
        0 <= i <= r < s.len(),
        forall|j: int| i <= j < r ==> !(#[trigger] s[j].0 == symbol && s[j].1 == tf),
        s[r].0 == symbol && s[r].1 == tf,
    ensures
        series_index(s, symbol, tf, i) == r,
    decreases r - i,
{
    if i < r {
        assert(!(s[i].0 == symbol && s[i].1 == tf));
        lemma_series_index_walk(s, symbol, tf, i + 1, r);
    }
}

} // verus!
