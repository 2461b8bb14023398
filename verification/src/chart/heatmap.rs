//! Heatmap data points: traded quantity per price level and side, without a
//! candle.

use vstd::prelude::*;

use crate::aggr::time::DataPoint;
use crate::chart::kline::spec_round_to_step;
use crate::exchange::{Kline, Price, PriceStep, Trade};

verus! {

/// Quantity traded at one price level on one side.
#[derive(Debug, Clone, Copy, PartialEq, Eq, Structural)]
pub struct GroupedTrade {
    pub is_sell: bool,
    pub price: Price,
    pub qty: u64,
}

/// Index of the first group at or after `i` for price `p` and side `sell`,
/// or -1.
pub open spec fn group_index_from(s: Seq<GroupedTrade>, p: Price, sell: bool, i: int) -> int
    decreases s.len() - i,
{
    if i < 0 || i >= s.len() {
        -1
    } else if s[i].price == p && s[i].is_sell == sell {
        i
    } else {
        group_index_from(s, p, sell, i + 1)
    }
}

/// Groups after adding `qty` on side `sell` at price `p`: the matching group
/// grows (saturating), or a new group is appended.
pub open spec fn groups_with(s: Seq<GroupedTrade>, p: Price, sell: bool, qty: u64) -> Seq<
    GroupedTrade,
> {
    let i = group_index_from(s, p, sell, 0);
    if i >= 0 {
        s.update(i, GroupedTrade { qty: s[i].qty.saturating_add(qty), ..s[i] })
    } else {
        s.push(GroupedTrade { is_sell: sell, price: p, qty })
    }
}

/// Groups of `s` with every group of `o` added, in order.
pub open spec fn groups_merged(s: Seq<GroupedTrade>, o: Seq<GroupedTrade>) -> Seq<GroupedTrade>
    decreases o.len(),
{
    if o.len() == 0 {
        s
    } else {
        let g = o.last();
        groups_with(groups_merged(s, o.drop_last()), g.price, g.is_sell, g.qty)
    }
}

/// Highest price over the groups, price 0 without groups.
pub open spec fn groups_high(s: Seq<GroupedTrade>) -> Price
    decreases s.len(),
{
    if s.len() == 0 {
        Price { units: 0 }
    } else if s.len() == 1 {
        s[0].price
    } else {
        let m = groups_high(s.drop_last());
        if s.last().price.units > m.units {
            s.last().price
        } else {
            m
        }
    }
}

/// Lowest price over the groups, price 0 without groups.
pub open spec fn groups_low(s: Seq<GroupedTrade>) -> Price
    decreases s.len(),
{
    if s.len() == 0 {
        Price { units: 0 }
    } else if s.len() == 1 {
        s[0].price
    } else {
        let m = groups_low(s.drop_last());
        if s.last().price.units < m.units {
            s.last().price
        } else {
            m
        }
    }
}

/// Largest quantity of a group, 0 without groups.
pub open spec fn groups_max_qty(s: Seq<GroupedTrade>) -> u64
    decreases s.len(),
{
    if s.len() == 0 {
        0
    } else {
        let m = groups_max_qty(s.drop_last());
        if s.last().qty > m {
            s.last().qty
        } else {
            m
        }
    }
}

/// Total quantity over the groups, bought and sold, saturating at the
/// largest `u64`.
pub open spec fn groups_qty_sum(s: Seq<GroupedTrade>) -> u64
    decreases s.len(),
{
    if s.len() == 0 {
        0
    } else {
        groups_qty_sum(s.drop_last()).saturating_add(s.last().qty)
    }
}

/// Trades of one heatmap bucket grouped by price level and side, with the
/// bucket's bought and sold quantity.
#[derive(Debug)]
pub struct HeatmapDataPoint {
    pub grouped_trades: Vec<GroupedTrade>,
    pub buy_volume: u64,
    pub sell_volume: u64,
}

/// Value of a heatmap data point.
pub struct HeatmapDataPointV {
    pub groups: Seq<GroupedTrade>,
    pub buy_volume: u64,
    pub sell_volume: u64,
}

impl View for HeatmapDataPoint {
    type V = HeatmapDataPointV;

    open spec fn view(&self) -> HeatmapDataPointV {
        HeatmapDataPointV {
            groups: self.grouped_trades@,
            buy_volume: self.buy_volume,
            sell_volume: self.sell_volume,
        }
    }
}

proof fn lemma_group_index_skip(s: Seq<GroupedTrade>, p: Price, sell: bool, i: int)
    requires
        0 <= i < s.len(),
        !(s[i].price == p && s[i].is_sell == sell),
    ensures
        group_index_from(s, p, sell, i) == group_index_from(s, p, sell, i + 1),
{
}

/// Index of the group for price `p` and side `sell`.
fn find_group(v: &Vec<GroupedTrade>, p: Price, sell: bool) -> (r: Option<usize>)
    ensures
        r matches Some(i) ==> i as int == group_index_from(v@, p, sell, 0) && i < v@.len(),
        r is None ==> group_index_from(v@, p, sell, 0) == -1,
{
    let mut i: usize = 0;
    while i < v.len()
        invariant
            i <= v@.len(),
            group_index_from(v@, p, sell, 0) == group_index_from(v@, p, sell, i as int),
        decreases v.len() - i,
    {
        if v[i].price == p && v[i].is_sell == sell {
            return Some(i);
        }
        proof {
            lemma_group_index_skip(v@, p, sell, i as int);
        }
        i = i + 1;
    }
    None
}

impl HeatmapDataPoint {
    /// Largest group quantity and total quantity of the bucket's groups.
    pub fn max_qty_and_volume(&self) -> (r: (u64, u64))
        ensures
            r == (groups_max_qty(self@.groups), groups_qty_sum(self@.groups)),
    {
        let g = &self.grouped_trades;
        let mut max_qty: u64 = 0;
        let mut sum: u64 = 0;
        let mut i: usize = 0;
        while i < g.len()
            invariant
                i <= g@.len(),
                max_qty == groups_max_qty(g@.take(i as int)),
                sum == groups_qty_sum(g@.take(i as int)),
            decreases g.len() - i,
        {
            proof {
                assert(g@.take(i as int + 1).drop_last() =~= g@.take(i as int));
            }
            let q = g[i].qty;
            if q > max_qty {
                max_qty = q;
            }
            sum = sum.saturating_add(q);
            i = i + 1;
        }
        proof {
            assert(g@.take(g@.len() as int) =~= g@);
        }
        (max_qty, sum)
    }

    /// A bucket without trades.
    pub fn new() -> (dp: HeatmapDataPoint)
        ensures
            dp@.groups == Seq::<GroupedTrade>::empty(),
            dp@.buy_volume == 0,
            dp@.sell_volume == 0,
    {
        HeatmapDataPoint { grouped_trades: Vec::new(), buy_volume: 0, sell_volume: 0 }
    }

    /// Adds `qty` on side `sell` at price `p`.
    fn add_group(&mut self, p: Price, sell: bool, qty: u64)
        ensures
            final(self)@.groups == groups_with(old(self)@.groups, p, sell, qty),
            final(self)@.buy_volume == old(self)@.buy_volume,
            final(self)@.sell_volume == old(self)@.sell_volume,
    {
        match find_group(&self.grouped_trades, p, sell) {
            Some(i) => {
                let g = self.grouped_trades[i];
                self.grouped_trades.set(i, GroupedTrade { qty: g.qty.saturating_add(qty), ..g });
            },
            None => {
                self.grouped_trades.push(GroupedTrade { is_sell: sell, price: p, qty });
            },
        }
    }
}

impl DataPoint for HeatmapDataPoint {
    open spec fn v_last_price(v: HeatmapDataPointV) -> Price {
        if v.groups.len() == 0 {
            Price { units: 0 }
        } else {
            v.groups.last().price
        }
    }

    open spec fn v_value_high(v: HeatmapDataPointV) -> Price {
        groups_high(v.groups)
    }

    open spec fn v_value_low(v: HeatmapDataPointV) -> Price {
        groups_low(v.groups)
    }

    open spec fn v_kline(v: HeatmapDataPointV) -> Option<Kline> {
        None
    }

    open spec fn v_first_trade_time(v: HeatmapDataPointV) -> Option<u64> {
        None
    }

    open spec fn v_last_trade_time(v: HeatmapDataPointV) -> Option<u64> {
        None
    }

    open spec fn v_cleared(v: HeatmapDataPointV) -> HeatmapDataPointV {
        HeatmapDataPointV { groups: Seq::empty(), buy_volume: 0, sell_volume: 0 }
    }

    open spec fn v_with_trade(v: HeatmapDataPointV, trade: Trade, step: PriceStep) -> HeatmapDataPointV {
        HeatmapDataPointV {
            groups: groups_with(
                v.groups,
                spec_round_to_step(trade.price, step),
                trade.is_sell,
                trade.qty,
            ),
            buy_volume: if trade.is_sell {
                v.buy_volume
            } else {
                v.buy_volume.saturating_add(trade.qty)
            },
            sell_volume: if trade.is_sell {
                v.sell_volume.saturating_add(trade.qty)
            } else {
                v.sell_volume
            },
        }
    }

    open spec fn v_merged(a: HeatmapDataPointV, b: HeatmapDataPointV) -> HeatmapDataPointV {
        HeatmapDataPointV {
            groups: groups_merged(a.groups, b.groups),
            buy_volume: a.buy_volume.saturating_add(b.buy_volume),
            sell_volume: a.sell_volume.saturating_add(b.sell_volume),
        }
    }

    fn add_trade(&mut self, trade: &Trade, step: PriceStep) {
        let p = trade.price.round_to_step(step);
        self.add_group(p, trade.is_sell, trade.qty);
        if trade.is_sell {
            self.sell_volume = self.sell_volume.saturating_add(trade.qty);
        } else {
            self.buy_volume = self.buy_volume.saturating_add(trade.qty);
        }
    }

    fn clear_trades(&mut self) {
        self.grouped_trades = Vec::new();
        self.buy_volume = 0;
        self.sell_volume = 0;
    }

    fn merge(&mut self, other: &Self) {
        let mut i: usize = 0;
        while i < other.grouped_trades.len()
            invariant
                i <= other.grouped_trades@.len(),
                self@.groups == groups_merged(
                    old(self)@.groups,
                    other.grouped_trades@.take(i as int),
                ),
                self@.buy_volume == old(self)@.buy_volume,
                self@.sell_volume == old(self)@.sell_volume,
            decreases other.grouped_trades.len() - i,
        {
            let g = other.grouped_trades[i];
            self.add_group(g.price, g.is_sell, g.qty);
            proof {
                let o = other.grouped_trades@.take(i as int + 1);
                assert(o.drop_last() == other.grouped_trades@.take(i as int));
            }
            i = i + 1;
        }
        proof {
            assert(other.grouped_trades@.take(other.grouped_trades@.len() as int)
                == other.grouped_trades@);
        }
        self.buy_volume = self.buy_volume.saturating_add(other.buy_volume);
        self.sell_volume = self.sell_volume.saturating_add(other.sell_volume);
    }

    fn last_trade_time(&self) -> (r: Option<u64>) {
        None
    }

    fn first_trade_time(&self) -> (r: Option<u64>) {
        None
    }

    fn last_price(&self) -> (p: Price) {
        let n = self.grouped_trades.len();
        if n == 0 {
            Price { units: 0 }
        } else {
            self.grouped_trades[n - 1].price
        }
    }

    fn kline(&self) -> (r: Option<&Kline>) {
        None
    }

    fn value_high(&self) -> (p: Price) {
        let n = self.grouped_trades.len();
        if n == 0 {
            return Price { units: 0 };
        }
        let mut m = self.grouped_trades[0].price;
        let mut i: usize = 1;
        while i < n
            invariant
                n == self.grouped_trades@.len(),
                1 <= i <= n,
                m == groups_high(self.grouped_trades@.take(i as int)),
            decreases n - i,
        {
            let p = self.grouped_trades[i].price;
            proof {
                let o = self.grouped_trades@.take(i as int + 1);
                assert(o.drop_last() == self.grouped_trades@.take(i as int));
            }
            if p.units > m.units {
                m = p;
            }
            i = i + 1;
        }
        proof {
            assert(self.grouped_trades@.take(n as int) == self.grouped_trades@);
        }
        m
    }

    fn value_low(&self) -> (p: Price) {
        let n = self.grouped_trades.len();
        if n == 0 {
            return Price { units: 0 };
        }
        let mut m = self.grouped_trades[0].price;
        let mut i: usize = 1;
        while i < n
            invariant
                n == self.grouped_trades@.len(),
                1 <= i <= n,
                m == groups_low(self.grouped_trades@.take(i as int)),
            decreases n - i,
        {
            let p = self.grouped_trades[i].price;
            proof {
                let o = self.grouped_trades@.take(i as int + 1);
                assert(o.drop_last() == self.grouped_trades@.take(i as int));
            }
            if p.units < m.units {
                m = p;
            }
            i = i + 1;
        }
        proof {
            assert(self.grouped_trades@.take(n as int) == self.grouped_trades@);
        }
        m
    }

    fn duplicate(&self) -> (r: Self) {
        let mut v: Vec<GroupedTrade> = Vec::new();
        let mut i: usize = 0;
        while i < self.grouped_trades.len()
            invariant
                i <= self.grouped_trades@.len(),
                v@ == self.grouped_trades@.take(i as int),
            decreases self.grouped_trades.len() - i,
        {
            v.push(self.grouped_trades[i]);
            proof {
                assert(self.grouped_trades@.take(i as int + 1) == self.grouped_trades@.take(
                    i as int,
                ).push(self.grouped_trades@[i as int]));
            }
            i = i + 1;
        }
        proof {
            assert(self.grouped_trades@.take(self.grouped_trades@.len() as int)
                == self.grouped_trades@);
        }
        HeatmapDataPoint {
            grouped_trades: v,
            buy_volume: self.buy_volume,
            sell_volume: self.sell_volume,
        }
    }
}

} // verus!
