//! Candle data points with their footprint: traded quantity per price level.

pub mod hvn;

use vstd::prelude::*;

use crate::aggr::time::DataPoint;
use crate::exchange::{
    Kline, MAX_PRICE_UNITS, Price, PriceStep, Trade, nearest_to_step, price_units_in_range,
};

verus! {

/// Trades aggregated at one price level.
#[derive(Debug, Clone, Copy, PartialEq, Eq, Structural)]
pub struct GroupedTrades {
    pub buy_qty: u64,
    pub sell_qty: u64,
    pub first_time: u64,
    pub last_time: u64,
    pub buy_count: u64,
    pub sell_count: u64,
}

/// The group holding exactly one trade.
pub open spec fn group_of(t: Trade) -> GroupedTrades {
    GroupedTrades {
        buy_qty: if t.is_sell { 0 } else { t.qty },
        sell_qty: if t.is_sell { t.qty } else { 0 },
        first_time: t.time,
        last_time: t.time,
        buy_count: if t.is_sell { 0 } else { 1 },
        sell_count: if t.is_sell { 1 } else { 0 },
    }
}

/// A group with one more trade: the trade's side gains its quantity and one
/// trade (saturating), and the last time becomes the trade's time.
pub open spec fn group_add(g: GroupedTrades, t: Trade) -> GroupedTrades {
    GroupedTrades {
        buy_qty: if t.is_sell { g.buy_qty } else { g.buy_qty.saturating_add(t.qty) },
        sell_qty: if t.is_sell { g.sell_qty.saturating_add(t.qty) } else { g.sell_qty },
        first_time: g.first_time,
        last_time: t.time,
        buy_count: if t.is_sell { g.buy_count } else { g.buy_count.saturating_add(1) },
        sell_count: if t.is_sell { g.sell_count.saturating_add(1) } else { g.sell_count },
    }
}

/// Two groups of one price level combined: quantities and counts add
/// (saturating), times span both.
pub open spec fn group_merge(a: GroupedTrades, b: GroupedTrades) -> GroupedTrades {
    GroupedTrades {
        buy_qty: a.buy_qty.saturating_add(b.buy_qty),
        sell_qty: a.sell_qty.saturating_add(b.sell_qty),
        first_time: if b.first_time < a.first_time { b.first_time } else { a.first_time },
        last_time: if b.last_time > a.last_time { b.last_time } else { a.last_time },
        buy_count: a.buy_count.saturating_add(b.buy_count),
        sell_count: a.sell_count.saturating_add(b.sell_count),
    }
}

/// Total traded quantity of a group (saturating).
pub open spec fn group_total(g: GroupedTrades) -> u64 {
    g.buy_qty.saturating_add(g.sell_qty)
}

impl GroupedTrades {
    pub fn new(trade: &Trade) -> (g: GroupedTrades)
        ensures
            g == group_of(*trade),
    {
        if trade.is_sell {
            GroupedTrades {
                buy_qty: 0,
                sell_qty: trade.qty,
                first_time: trade.time,
                last_time: trade.time,
                buy_count: 0,
                sell_count: 1,
            }
        } else {
            GroupedTrades {
                buy_qty: trade.qty,
                sell_qty: 0,
                first_time: trade.time,
                last_time: trade.time,
                buy_count: 1,
                sell_count: 0,
            }
        }
    }

    pub fn add_trade(&mut self, trade: &Trade)
        ensures
            *final(self) == group_add(*old(self), *trade),
    {
        if trade.is_sell {
            self.sell_qty = self.sell_qty.saturating_add(trade.qty);
            self.sell_count = self.sell_count.saturating_add(1);
        } else {
            self.buy_qty = self.buy_qty.saturating_add(trade.qty);
            self.buy_count = self.buy_count.saturating_add(1);
        }
        self.last_time = trade.time;
    }

    pub fn merge(&mut self, other: &GroupedTrades)
        ensures
            *final(self) == group_merge(*old(self), *other),
    {
        self.buy_qty = self.buy_qty.saturating_add(other.buy_qty);
        self.sell_qty = self.sell_qty.saturating_add(other.sell_qty);
        if other.first_time < self.first_time {
            self.first_time = other.first_time;
        }
        if other.last_time > self.last_time {
            self.last_time = other.last_time;
        }
        self.buy_count = self.buy_count.saturating_add(other.buy_count);
        self.sell_count = self.sell_count.saturating_add(other.sell_count);
    }

    pub fn total_qty(&self) -> (q: u64)
        ensures
            q == group_total(*self),
    {
        self.buy_qty.saturating_add(self.sell_qty)
    }
}

/// Whether a point of control was revisited by a later candle.
#[derive(Debug, Clone, Copy, PartialEq, Eq, Structural)]
pub enum NPoc {
    Unset,
    Naked,
    Filled { at: u64 },
}

impl NPoc {
    pub fn filled(&mut self, at: u64)
        ensures
            *final(self) == (NPoc::Filled { at }),
    {
        *self = NPoc::Filled { at };
    }

    pub fn unfilled(&mut self)
        ensures
            *final(self) == NPoc::Naked,
    {
        *self = NPoc::Naked;
    }
}

impl Default for NPoc {
    fn default() -> (n: Self)
        ensures
            n == NPoc::Unset,
    {
        NPoc::Unset
    }
}

/// The price level with the largest traded quantity of a candle.
#[derive(Debug, Clone, Copy, PartialEq, Eq, Structural)]
pub struct PointOfControl {
    pub price: Price,
    pub volume: u64,
    pub status: NPoc,
}

/// Index of the first level at or after `i` with price `p`, or -1.
pub open spec fn index_from(s: Seq<(Price, GroupedTrades)>, p: Price, i: int) -> int
    decreases s.len() - i,
{
    if i < 0 || i >= s.len() {
        -1
    } else if s[i].0 == p {
        i
    } else {
        index_from(s, p, i + 1)
    }
}

/// Index of the first level with price `p`, or -1.
pub open spec fn level_index(s: Seq<(Price, GroupedTrades)>, p: Price) -> int {
    index_from(s, p, 0)
}

/// Levels after recording `t` at price `p`: the level of `p` gains the trade,
/// or a new level for `p` is appended.
pub open spec fn levels_with_trade(s: Seq<(Price, GroupedTrades)>, p: Price, t: Trade) -> Seq<
    (Price, GroupedTrades),
> {
    let i = level_index(s, p);
    if i >= 0 {
        s.update(i, (p, group_add(s[i].1, t)))
    } else {
        s.push((p, group_of(t)))
    }
}

/// Levels after adding group `g` at price `p`.
pub open spec fn levels_with_group(
    s: Seq<(Price, GroupedTrades)>,
    p: Price,
    g: GroupedTrades,
) -> Seq<(Price, GroupedTrades)> {
    let i = level_index(s, p);
    if i >= 0 {
        s.update(i, (p, group_merge(s[i].1, g)))
    } else {
        s.push((p, g))
    }
}

/// Levels of `s` with every level of `o` added, in order.
pub open spec fn levels_merged(s: Seq<(Price, GroupedTrades)>, o: Seq<(Price, GroupedTrades)>) -> Seq<
    (Price, GroupedTrades),
>
    decreases o.len(),
{
    if o.len() == 0 {
        s
    } else {
        levels_with_group(levels_merged(s, o.drop_last()), o.last().0, o.last().1)
    }
}

/// Earliest first-trade time over the levels.
pub open spec fn levels_first_time(s: Seq<(Price, GroupedTrades)>) -> Option<u64>
    decreases s.len(),
{
    if s.len() == 0 {
        None
    } else {
        let t = s.last().1.first_time;
        match levels_first_time(s.drop_last()) {
            None => Some(t),
            Some(m) => Some(if t < m { t } else { m }),
        }
    }
}

/// Latest last-trade time over the levels.
pub open spec fn levels_last_time(s: Seq<(Price, GroupedTrades)>) -> Option<u64>
    decreases s.len(),
{
    if s.len() == 0 {
        None
    } else {
        let t = s.last().1.last_time;
        match levels_last_time(s.drop_last()) {
            None => Some(t),
            Some(m) => Some(if t > m { t } else { m }),
        }
    }
}

/// The (quantity, price) of the first level whose total quantity is the
/// largest and above zero, scanning in order; (0, price 0) if none is.
pub open spec fn poc_scan(s: Seq<(Price, GroupedTrades)>) -> (u64, Price)
    decreases s.len(),
{
    if s.len() == 0 {
        (0, Price { units: 0 })
    } else {
        let prev = poc_scan(s.drop_last());
        let t = group_total(s.last().1);
        if t > prev.0 {
            (t, s.last().0)
        } else {
            prev
        }
    }
}

/// `p` rounded to the nearest multiple of `step`, as `Price::round_to_step` does.
pub open spec fn spec_round_to_step(p: Price, step: PriceStep) -> Price {
    Price {
        units: if step.units <= 1 {
            p.units
        } else {
            nearest_to_step(p.units as int, step.units as int) as i64
        },
    }
}

/// Trades of a candle grouped by price level, with its point of control.
#[derive(Debug)]
pub struct KlineTrades {
    pub trades: Vec<(Price, GroupedTrades)>,
    pub poc: Option<PointOfControl>,
}

/// Value of a footprint: its levels in order and its point of control.
pub struct KlineTradesV {
    pub trades: Seq<(Price, GroupedTrades)>,
    pub poc: Option<PointOfControl>,
}

impl View for KlineTrades {
    type V = KlineTradesV;

    open spec fn view(&self) -> KlineTradesV {
        KlineTradesV { trades: self.trades@, poc: self.poc }
    }
}

/// Point of control computed from the levels: none without levels.
pub open spec fn levels_poc(s: Seq<(Price, GroupedTrades)>, prev: Option<PointOfControl>) -> Option<
    PointOfControl,
> {
    if s.len() == 0 {
        prev
    } else {
        Some(PointOfControl { price: poc_scan(s).1, volume: poc_scan(s).0, status: NPoc::Unset })
    }
}

/// The point of control with its status replaced, when there is one.
pub open spec fn poc_with_status(poc: Option<PointOfControl>, status: NPoc) -> Option<
    PointOfControl,
> {
    match poc {
        Some(p) => Some(PointOfControl { status, ..p }),
        None => None,
    }
}

proof fn lemma_index_from_skip(s: Seq<(Price, GroupedTrades)>, p: Price, i: int)
    requires
        0 <= i < s.len(),
        s[i].0 != p,
    ensures
        index_from(s, p, i) == index_from(s, p, i + 1),
{
}

proof fn lemma_index_from_range(s: Seq<(Price, GroupedTrades)>, p: Price, i: int)
    requires
        0 <= i,
    ensures
        index_from(s, p, i) == -1 || (i <= index_from(s, p, i) < s.len() && s[index_from(
            s,
            p,
            i,
        )].0 == p),
    decreases s.len() - i,
{
    if i < s.len() && s[i].0 != p {
        lemma_index_from_range(s, p, i + 1);
    }
}

/// Index of the first level with price `p`, searched from the front.
fn find_level(v: &Vec<(Price, GroupedTrades)>, p: Price) -> (r: Option<usize>)
    ensures
        r matches Some(i) ==> i as int == level_index(v@, p) && i < v@.len(),
        r is None ==> level_index(v@, p) == -1,
{
    let mut i: usize = 0;
    while i < v.len()
        invariant
            i <= v@.len(),
            index_from(v@, p, 0) == index_from(v@, p, i as int),
        decreases v.len() - i,
    {
        if v[i].0 == p {
            return Some(i);
        }
        proof {
            lemma_index_from_skip(v@, p, i as int);
        }
        i = i + 1;
    }
    None
}

impl KlineTrades {
    pub fn new() -> (f: KlineTrades)
        ensures
            f@.trades == Seq::<(Price, GroupedTrades)>::empty(),
            f@.poc is None,
    {
        KlineTrades { trades: Vec::new(), poc: None }
    }

    /// Records a trade at its price rounded to `step`.
    pub fn add_trade_at_price_level(&mut self, trade: &Trade, step: PriceStep)
        requires
            price_units_in_range(trade.price.units as int),
            step.units <= MAX_PRICE_UNITS,
        ensures
            final(self)@.trades == levels_with_trade(
                old(self)@.trades,
                spec_round_to_step(trade.price, step),
                *trade,
            ),
            final(self)@.poc == old(self)@.poc,
    {
        let price = trade.price.round_to_step(step);
        match find_level(&self.trades, price) {
            Some(i) => {
                let mut g = self.trades[i].1;
                g.add_trade(trade);
                self.trades.set(i, (price, g));
            },
            None => {
                self.trades.push((price, GroupedTrades::new(trade)));
            },
        }
    }

    /// Adds a group of trades at price `p`.
    pub fn add_group(&mut self, p: Price, g: &GroupedTrades)
        ensures
            final(self)@.trades == levels_with_group(old(self)@.trades, p, *g),
            final(self)@.poc == old(self)@.poc,
    {
        match find_level(&self.trades, p) {
            Some(i) => {
                let mut cur = self.trades[i].1;
                cur.merge(g);
                self.trades.set(i, (p, cur));
            },
            None => {
                self.trades.push((p, *g));
            },
        }
    }

    /// Adds every level of `other`, in order.
    pub fn merge_from(&mut self, other: &KlineTrades)
        ensures
            final(self)@.trades == levels_merged(old(self)@.trades, other@.trades),
            final(self)@.poc == old(self)@.poc,
    {
        let mut i: usize = 0;
        while i < other.trades.len()
            invariant
                i <= other.trades@.len(),
                self@.trades == levels_merged(old(self)@.trades, other.trades@.take(i as int)),
                self@.poc == old(self)@.poc,
            decreases other.trades.len() - i,
        {
            let (p, g) = other.trades[i];
            self.add_group(p, &g);
            proof {
                let o = other.trades@.take(i as int + 1);
                assert(o.drop_last() == other.trades@.take(i as int));
            }
            i = i + 1;
        }
        proof {
            assert(other.trades@.take(other.trades@.len() as int) == other.trades@);
        }
    }

    /// Recomputes the point of control: the first level with the largest
    /// total quantity, status reset. Without levels nothing changes.
    pub fn calculate_poc(&mut self)
        ensures
            final(self)@.trades == old(self)@.trades,
            final(self)@.poc == levels_poc(old(self)@.trades, old(self)@.poc),
    {
        if self.trades.len() == 0 {
            return;
        }
        let mut max_volume: u64 = 0;
        let mut poc_price = Price { units: 0 };
        let mut i: usize = 0;
        while i < self.trades.len()
            invariant
                i <= self.trades@.len(),
                (max_volume, poc_price) == poc_scan(self.trades@.take(i as int)),
            decreases self.trades.len() - i,
        {
            let total = self.trades[i].1.total_qty();
            if total > max_volume {
                max_volume = total;
                poc_price = self.trades[i].0;
            }
            proof {
                let o = self.trades@.take(i as int + 1);
                assert(o.drop_last() == self.trades@.take(i as int));
            }
            i = i + 1;
        }
        proof {
            assert(self.trades@.take(self.trades@.len() as int) == self.trades@);
        }
        self.poc = Some(PointOfControl { price: poc_price, volume: max_volume, status: NPoc::Unset });
    }

    pub fn set_poc_status(&mut self, status: NPoc)
        ensures
            final(self)@.trades == old(self)@.trades,
            final(self)@.poc == poc_with_status(old(self)@.poc, status),
    {
        match self.poc {
            Some(p) => {
                self.poc = Some(PointOfControl { status, ..p });
            },
            None => {},
        }
    }

    pub fn poc_price(&self) -> (r: Option<Price>)
        ensures
            r == match self@.poc {
                Some(p) => Some(p.price),
                None => None::<Price>,
            },
    {
        match self.poc {
            Some(p) => Some(p.price),
            None => None,
        }
    }

    /// Drops every level and the point of control.
    pub fn clear(&mut self)
        ensures
            final(self)@.trades == Seq::<(Price, GroupedTrades)>::empty(),
            final(self)@.poc is None,
    {
        self.trades = Vec::new();
        self.poc = None;
    }

    pub fn first_trade_t(&self) -> (r: Option<u64>)
        ensures
            r == levels_first_time(self@.trades),
    {
        let mut acc: Option<u64> = None;
        let mut i: usize = 0;
        while i < self.trades.len()
            invariant
                i <= self.trades@.len(),
                acc == levels_first_time(self.trades@.take(i as int)),
            decreases self.trades.len() - i,
        {
            let t = self.trades[i].1.first_time;
            acc = match acc {
                None => Some(t),
                Some(m) => Some(if t < m { t } else { m }),
            };
            proof {
                let o = self.trades@.take(i as int + 1);
                assert(o.drop_last() == self.trades@.take(i as int));
            }
            i = i + 1;
        }
        proof {
            assert(self.trades@.take(self.trades@.len() as int) == self.trades@);
        }
        acc
    }

    pub fn last_trade_t(&self) -> (r: Option<u64>)
        ensures
            r == levels_last_time(self@.trades),
    {
        let mut acc: Option<u64> = None;
        let mut i: usize = 0;
        while i < self.trades.len()
            invariant
                i <= self.trades@.len(),
                acc == levels_last_time(self.trades@.take(i as int)),
            decreases self.trades.len() - i,
        {
            let t = self.trades[i].1.last_time;
            acc = match acc {
                None => Some(t),
                Some(m) => Some(if t > m { t } else { m }),
            };
            proof {
                let o = self.trades@.take(i as int + 1);
                assert(o.drop_last() == self.trades@.take(i as int));
            }
            i = i + 1;
        }
        proof {
            assert(self.trades@.take(self.trades@.len() as int) == self.trades@);
        }
        acc
    }

    /// An owned copy with the same levels and point of control.
    pub fn duplicate(&self) -> (r: KlineTrades)
        ensures
            r@ == self@,
    {
        let mut v: Vec<(Price, GroupedTrades)> = Vec::new();
        let mut i: usize = 0;
        while i < self.trades.len()
            invariant
                i <= self.trades@.len(),
                v@ == self.trades@.take(i as int),
            decreases self.trades.len() - i,
        {
            v.push(self.trades[i]);
            proof {
                assert(self.trades@.take(i as int + 1) == self.trades@.take(i as int).push(
                    self.trades@[i as int],
                ));
            }
            i = i + 1;
        }
        proof {
            assert(self.trades@.take(self.trades@.len() as int) == self.trades@);
        }
        KlineTrades { trades: v, poc: self.poc }
    }
}

/// A candle with its footprint.
#[derive(Debug)]
pub struct KlineDataPoint {
    pub kline: Kline,
    pub footprint: KlineTrades,
}

/// Value of a candle data point.
pub struct KlineDataPointV {
    pub kline: Kline,
    pub footprint: KlineTradesV,
}

impl View for KlineDataPoint {
    type V = KlineDataPointV;

    open spec fn view(&self) -> KlineDataPointV {
        KlineDataPointV { kline: self.kline, footprint: self.footprint@ }
    }
}

/// A candle combined with a later one of the same bucket span: open and time
/// kept, high and low widened, close taken from the later one, volumes added
/// (saturating).
pub open spec fn kline_merged(a: Kline, b: Kline) -> Kline {
    Kline {
        time: a.time,
        open: a.open,
        high: if b.high.units > a.high.units { b.high } else { a.high },
        low: if b.low.units < a.low.units { b.low } else { a.low },
        close: b.close,
        buy_volume: a.buy_volume.saturating_add(b.buy_volume),
        sell_volume: a.sell_volume.saturating_add(b.sell_volume),
    }
}

impl KlineDataPoint {
    /// A data point for `kline` without recorded trades.
    pub fn new(kline: Kline) -> (dp: KlineDataPoint)
        ensures
            dp@.kline == kline,
            dp@.footprint.trades == Seq::<(Price, GroupedTrades)>::empty(),
            dp@.footprint.poc is None,
    {
        KlineDataPoint { kline, footprint: KlineTrades::new() }
    }

    pub fn calculate_poc(&mut self)
        ensures
            final(self)@.kline == old(self)@.kline,
            final(self)@.footprint.trades == old(self)@.footprint.trades,
            final(self)@.footprint.poc == levels_poc(
                old(self)@.footprint.trades,
                old(self)@.footprint.poc,
            ),
    {
        self.footprint.calculate_poc();
    }

    pub fn poc_price(&self) -> (r: Option<Price>)
        ensures
            r == match self@.footprint.poc {
                Some(p) => Some(p.price),
                None => None::<Price>,
            },
    {
        self.footprint.poc_price()
    }

    pub fn set_poc_status(&mut self, status: NPoc)
        ensures
            final(self)@.kline == old(self)@.kline,
            final(self)@.footprint.trades == old(self)@.footprint.trades,
            final(self)@.footprint.poc == poc_with_status(old(self)@.footprint.poc, status),
    {
        self.footprint.set_poc_status(status);
    }
}

impl DataPoint for KlineDataPoint {
    open spec fn v_last_price(v: KlineDataPointV) -> Price {
        v.kline.close
    }

    open spec fn v_value_high(v: KlineDataPointV) -> Price {
        v.kline.high
    }

    open spec fn v_value_low(v: KlineDataPointV) -> Price {
        v.kline.low
    }

    open spec fn v_kline(v: KlineDataPointV) -> Option<Kline> {
        Some(v.kline)
    }

    open spec fn v_first_trade_time(v: KlineDataPointV) -> Option<u64> {
        levels_first_time(v.footprint.trades)
    }

    open spec fn v_last_trade_time(v: KlineDataPointV) -> Option<u64> {
        levels_last_time(v.footprint.trades)
    }

    open spec fn v_cleared(v: KlineDataPointV) -> KlineDataPointV {
        KlineDataPointV {
            kline: v.kline,
            footprint: KlineTradesV { trades: Seq::empty(), poc: None },
        }
    }

    open spec fn v_with_trade(v: KlineDataPointV, trade: Trade, step: PriceStep) -> KlineDataPointV {
        KlineDataPointV {
            kline: v.kline,
            footprint: KlineTradesV {
                trades: levels_with_trade(
                    v.footprint.trades,
                    spec_round_to_step(trade.price, step),
                    trade,
                ),
                poc: v.footprint.poc,
            },
        }
    }

    open spec fn v_merged(a: KlineDataPointV, b: KlineDataPointV) -> KlineDataPointV {
        KlineDataPointV {
            kline: kline_merged(a.kline, b.kline),
            footprint: KlineTradesV {
                trades: levels_merged(a.footprint.trades, b.footprint.trades),
                poc: a.footprint.poc,
            },
        }
    }

    fn add_trade(&mut self, trade: &Trade, step: PriceStep) {
        self.footprint.add_trade_at_price_level(trade, step);
    }

    fn clear_trades(&mut self) {
        self.footprint.clear();
    }

    fn merge(&mut self, other: &Self) {
        let a = self.kline;
        let b = other.kline;
        self.kline = Kline {
            time: a.time,
            open: a.open,
            high: if b.high.units > a.high.units {
                b.high
            } else {
                a.high
            },
            low: if b.low.units < a.low.units {
                b.low
            } else {
                a.low
            },
            close: b.close,
            buy_volume: a.buy_volume.saturating_add(b.buy_volume),
            sell_volume: a.sell_volume.saturating_add(b.sell_volume),
        };
        self.footprint.merge_from(&other.footprint);
    }

    fn last_trade_time(&self) -> (r: Option<u64>) {
        self.footprint.last_trade_t()
    }

    fn first_trade_time(&self) -> (r: Option<u64>) {
        self.footprint.first_trade_t()
    }

    fn last_price(&self) -> (p: Price) {
        self.kline.close
    }

    fn kline(&self) -> (r: Option<&Kline>) {
        Some(&self.kline)
    }

    fn value_high(&self) -> (p: Price) {
        self.kline.high
    }

    fn value_low(&self) -> (p: Price) {
        self.kline.low
    }

    fn duplicate(&self) -> (r: Self) {
        KlineDataPoint { kline: self.kline, footprint: self.footprint.duplicate() }
    }
}

} // verus!
