//! High-volume nodes: the volume profile over many candles' footprints,
//! each level's traded quantity gathered at the price step of the
//! calculator.

use vstd::prelude::*;

use crate::chart::kline::{GroupedTrades, KlineTrades, group_total, spec_round_to_step};
use crate::exchange::{MAX_PRICE_UNITS, Price, PriceStep, price_units_in_range};
use crate::timemap::{TimeMap, seq_get, seq_set};

verus! {

/// Key of a price in a map ordered by price: the units shifted into the
/// unsigned range, keeping their order.
pub open spec fn price_key(p: Price) -> u64 {
    (p.units + 0x8000_0000_0000_0000) as u64
}

/// The price of a key.
pub open spec fn key_price(k: u64) -> Price {
    Price { units: (k - 0x8000_0000_0000_0000) as i64 }
}

/// The profile with quantity `q` added at key `k` (saturating).
pub open spec fn add_volume(s: Seq<(u64, u64)>, k: u64, q: u64) -> Seq<(u64, u64)> {
    let prev: u64 = match seq_get(s, k) {
        Some(v) => v,
        None => 0,
    };
    seq_set(s, k, prev.saturating_add(q))
}

/// The profile after adding each level's total quantity at its price
/// rounded to `step`.
pub open spec fn bucket_levels(
    s: Seq<(u64, u64)>,
    levels: Seq<(Price, GroupedTrades)>,
    step: PriceStep,
) -> Seq<(u64, u64)>
    decreases levels.len(),
{
    if levels.len() == 0 {
        s
    } else {
        let l = levels.last();
        add_volume(
            bucket_levels(s, levels.drop_last(), step),
            price_key(spec_round_to_step(l.0, step)),
            group_total(l.1),
        )
    }
}

/// The profile of a list of footprints, taken in order.
pub open spec fn bucket_all(lists: Seq<Seq<(Price, GroupedTrades)>>, step: PriceStep) -> Seq<
    (u64, u64),
>
    decreases lists.len(),
{
    if lists.len() == 0 {
        Seq::empty()
    } else {
        bucket_levels(bucket_all(lists.drop_last(), step), lists.last(), step)
    }
}

/// The footprints' levels, one sequence per footprint.
pub open spec fn levels_of(trades_list: Seq<&KlineTrades>) -> Seq<Seq<(Price, GroupedTrades)>> {
    trades_list.map_values(|k: &KlineTrades| k.trades@)
}

/// Whether every level of every footprint has a price where rounding is
/// safe.
pub open spec fn levels_in_range(lists: Seq<Seq<(Price, GroupedTrades)>>) -> bool {
    forall|i: int, j: int|
        0 <= i < lists.len() && 0 <= j < lists[i].len() ==> price_units_in_range(
            (#[trigger] lists[i][j]).0.units as int,
        )
}

/// Computes high-volume nodes at a price step.
#[derive(Debug, Clone, Copy, PartialEq, Eq, Structural)]
pub struct HVNCalculator {
    pub tick_size: PriceStep,
}

impl HVNCalculator {
    pub fn new(tick_size: PriceStep) -> (c: Self)
        ensures
            c.tick_size == tick_size,
    {
        HVNCalculator { tick_size }
    }

    /// The volume profile of the footprints: each level's total quantity
    /// (saturating) added at its price rounded to the step, by ascending
    /// price.
    pub fn bucket_trades(&self, trades_list: &[&KlineTrades]) -> (r: Vec<(Price, u64)>)
        requires
            self.tick_size.units <= MAX_PRICE_UNITS,
            levels_in_range(levels_of(trades_list@)),
        ensures
            r@ == bucket_all(levels_of(trades_list@), self.tick_size).map_values(
                |e: (u64, u64)| (key_price(e.0), e.1),
            ),
    {
        let ghost lists = levels_of(trades_list@);
        let step = self.tick_size;
        let mut m: TimeMap<u64> = TimeMap::new();
        let mut i: usize = 0;
        while i < trades_list.len()
            invariant
                lists == levels_of(trades_list@),
                levels_in_range(lists),
                step.units <= MAX_PRICE_UNITS,
                i <= trades_list@.len(),
                m.wf(),
                m.entries@ == bucket_all(lists.take(i as int), step),
            decreases trades_list.len() - i,
        {
            let levels = &trades_list[i].trades;
            proof {
                assert(lists.take(i as int + 1).drop_last() =~= lists.take(i as int));
                assert(lists[i as int] == levels@);
            }
            let ghost before = m.entries@;
            let mut j: usize = 0;
            while j < levels.len()
                invariant
                    lists == levels_of(trades_list@),
                    levels_in_range(lists),
                    step.units <= MAX_PRICE_UNITS,
                    i < trades_list@.len(),
                    lists[i as int] == levels@,
                    j <= levels@.len(),
                    m.wf(),
                    m.entries@ == bucket_levels(before, levels@.take(j as int), step),
                decreases levels.len() - j,
            {
                proof {
                    assert(levels@.take(j as int + 1).drop_last() =~= levels@.take(j as int));
                    assert(levels@.take(j as int + 1).last() == levels@[j as int]);
                    assert(price_units_in_range(lists[i as int][j as int].0.units as int));
                }
                let (p, g) = levels[j];
                let rounded = p.round_to_step(step);
                let k: u64 = (rounded.units as i128 + 0x8000_0000_0000_0000i128) as u64;
                let prev: u64 = match m.get(k) {
                    Some(v) => *v,
                    None => 0,
                };
                m.insert(k, prev.saturating_add(g.total_qty()));
                j = j + 1;
            }
            proof {
                assert(levels@.take(levels@.len() as int) =~= levels@);
            }
            i = i + 1;
        }
        proof {
            assert(lists.take(trades_list@.len() as int) =~= lists);
        }
        let mut out: Vec<(Price, u64)> = Vec::new();
        let mut k: usize = 0;
        while k < m.entries.len()
            invariant
                k <= m.entries@.len(),
                out@ == m.entries@.take(k as int).map_values(|e: (u64, u64)| (key_price(e.0), e.1)),
            decreases m.entries.len() - k,
        {
            let (key, v) = m.entries[k];
            let units: i64 = (key as i128 - 0x8000_0000_0000_0000i128) as i64;
            out.push((Price { units }, v));
            proof {
                assert(m.entries@.take(k as int + 1).map_values(|e: (u64, u64)| (key_price(e.0), e.1))
                    =~= m.entries@.take(k as int).map_values(|e: (u64, u64)| (key_price(e.0), e.1)).push(
                    (key_price(key), v),
                ));
            }
            k = k + 1;
        }
        proof {
            assert(m.entries@.take(m.entries@.len() as int) =~= m.entries@);
        }
        out
    }
}

} // verus!
