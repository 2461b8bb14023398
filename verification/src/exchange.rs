//! Exchange-side model types: fixed-point prices, timeframes, tickers,
//! klines and trades.

pub mod adapter;

use vstd::prelude::*;

use crate::exchange::adapter::Exchange;

verus! {

/// Largest magnitude, in units, that a price or a price step may hold so that
/// rounding to a step never leaves the `i64` range. Rounding a price `u` up
/// to a step `s` can reach `u + s - 1`, and rounding it down `u - s + 1`, so
/// a bound `B` on both that holds for every step needs `2B <= i64::MAX`:
/// 2^62 - 1 is the largest such `B`. Stored prices are rounded again when
/// the tick size changes, to any step, so the bound cannot depend on one
/// step. It leaves out only prices within a factor of two of `i64::MAX`.
pub const MAX_PRICE_UNITS: i64 = 0x3fff_ffff_ffff_ffff;

/// A price in fixed-point units.
#[derive(Debug, Clone, Copy, PartialEq, Eq, Structural, Hash, PartialOrd, Ord)]
pub struct Price {
    pub units: i64,
}

/// A price increment in fixed-point units.
#[derive(Debug, Clone, Copy, PartialEq, Eq, Structural, Hash)]
pub struct PriceStep {
    pub units: i64,
}

/// `u` rounded down to a multiple of `s` (for `s > 0`).
pub open spec fn floor_to_step(u: int, s: int) -> int {
    (u / s) * s
}

/// `u` rounded up to a multiple of `s` (for `s > 0`).
pub open spec fn ceil_to_step(u: int, s: int) -> int {
    if u % s == 0 {
        u
    } else {
        (u / s) * s + s
    }
}

/// `u` rounded to the nearest multiple of `s`, halves rounding up.
pub open spec fn nearest_to_step(u: int, s: int) -> int {
    ((u + s / 2) / s) * s
}

/// Units within the range where step rounding cannot overflow.
pub open spec fn price_units_in_range(u: int) -> bool {
    -MAX_PRICE_UNITS <= u <= MAX_PRICE_UNITS
}

impl Price {
    pub fn from_units(units: i64) -> (p: Price)
        ensures
            p.units == units,
    {
        Price { units }
    }

    /// Rounds to the nearest multiple of `step` (halves round up); a step of
    /// one unit or less leaves the price unchanged.
    pub fn round_to_step(self, step: PriceStep) -> (r: Price)
        requires
            price_units_in_range(self.units as int),
            step.units <= MAX_PRICE_UNITS,
        ensures
            r.units == if step.units <= 1 {
                self.units as int
            } else {
                nearest_to_step(self.units as int, step.units as int)
            },
    {
        let unit = step.units;
        if unit <= 1 {
            return self;
        }
        let shifted = self.units + unit / 2;
        proof {
            lemma_floor_bounds(shifted as int, unit as int);
        }
        let q = shifted.checked_div_euclid(unit).unwrap();
        Price { units: q * unit }
    }

    /// Rounds down (`round_down == true`) or up to a multiple of `step`;
    /// a step of one unit or less leaves the price unchanged.
    pub fn round_to_side_step(self, round_down: bool, step: PriceStep) -> (r: Price)
        requires
            price_units_in_range(self.units as int),
            step.units <= MAX_PRICE_UNITS,
        ensures
            r.units == if step.units <= 1 {
                self.units as int
            } else if round_down {
                floor_to_step(self.units as int, step.units as int)
            } else {
                ceil_to_step(self.units as int, step.units as int)
            },
    {
        let unit = step.units;
        if unit <= 1 {
            return self;
        }
        let u = self.units;
        proof {
            lemma_floor_bounds(u as int, unit as int);
        }
        let q = u.checked_div_euclid(unit).unwrap();
        let rem = u.checked_rem_euclid(unit).unwrap();
        let floored = q * unit;
        if round_down || rem == 0 {
            Price { units: floored }
        } else {
            Price { units: floored + unit }
        }
    }
}

/// For a positive divisor, the rounded-down multiple stays within one step
/// below the value, and the quotient lies between the value minus the step
/// and the value.
pub proof fn lemma_floor_bounds(u: int, s: int)
    requires
        s > 0,
    ensures
        (u / s) * s <= u < (u / s) * s + s,
        u % s == u - (u / s) * s,
        u / s >= 0 ==> u / s <= (u / s) * s,
        u / s < 0 ==> (u / s) * s <= u / s,
{
    vstd::arithmetic::div_mod::lemma_fundamental_div_mod(u, s);
    assert(u == s * (u / s) + u % s);
    assert((u / s) * s == s * (u / s)) by (nonlinear_arith);
    let q = u / s;
    assert(q >= 0 ==> q <= q * s) by (nonlinear_arith)
        requires
            s > 0,
    ;
    assert(q < 0 ==> q * s <= q) by (nonlinear_arith)
        requires
            s > 0,
    ;
}

/// Candle and heatmap intervals.
#[derive(Debug, Clone, Copy, PartialEq, Eq, Structural, Hash)]
pub enum Timeframe {
    MS100,
    MS200,
    MS300,
    MS500,
    MS1000,
    M1,
    M3,
    M5,
    M15,
    M30,
    H1,
    H2,
    H4,
    H6,
    H12,
    D1,
}

/// Length of a timeframe in milliseconds.
pub open spec fn timeframe_ms(tf: Timeframe) -> u64 {
    match tf {
        Timeframe::MS100 => 100,
        Timeframe::MS200 => 200,
        Timeframe::MS300 => 300,
        Timeframe::MS500 => 500,
        Timeframe::MS1000 => 1_000,
        Timeframe::M1 => 60_000,
        Timeframe::M3 => 180_000,
        Timeframe::M5 => 300_000,
        Timeframe::M15 => 900_000,
        Timeframe::M30 => 1_800_000,
        Timeframe::H1 => 3_600_000,
        Timeframe::H2 => 7_200_000,
        Timeframe::H4 => 14_400_000,
        Timeframe::H6 => 21_600_000,
        Timeframe::H12 => 43_200_000,
        Timeframe::D1 => 86_400_000,
    }
}

/// A timeframe is known by its length: two timeframes of the same length in
/// milliseconds are the same, so reading a length back gives the timeframe
/// it was taken from.
pub proof fn law_timeframe_ms_determines(a: Timeframe, b: Timeframe)
    ensures
        timeframe_ms(a) == timeframe_ms(b) ==> a == b,
{
}

impl Timeframe {
    pub fn to_milliseconds(self) -> (ms: u64)
        ensures
            ms == timeframe_ms(self),
            ms >= 100,
            ms <= 86_400_000,
    {
        match self {
            Timeframe::MS100 => 100,
            Timeframe::MS200 => 200,
            Timeframe::MS300 => 300,
            Timeframe::MS500 => 500,
            Timeframe::MS1000 => 1_000,
            Timeframe::M1 => 60_000,
            Timeframe::M3 => 180_000,
            Timeframe::M5 => 300_000,
            Timeframe::M15 => 900_000,
            Timeframe::M30 => 1_800_000,
            Timeframe::H1 => 3_600_000,
            Timeframe::H2 => 7_200_000,
            Timeframe::H4 => 14_400_000,
            Timeframe::H6 => 21_600_000,
            Timeframe::H12 => 43_200_000,
            Timeframe::D1 => 86_400_000,
        }
    }

    /// The timeframe whose length is exactly `ms` milliseconds, if any.
    pub fn from_milliseconds(ms: u64) -> (r: Option<Timeframe>)
        ensures
            r matches Some(tf) ==> timeframe_ms(tf) == ms,
            r is None ==> forall|tf: Timeframe| timeframe_ms(tf) != ms,
    {
        if ms == 100 {
            Some(Timeframe::MS100)
        } else if ms == 200 {
            Some(Timeframe::MS200)
        } else if ms == 300 {
            Some(Timeframe::MS300)
        } else if ms == 500 {
            Some(Timeframe::MS500)
        } else if ms == 1_000 {
            Some(Timeframe::MS1000)
        } else if ms == 60_000 {
            Some(Timeframe::M1)
        } else if ms == 180_000 {
            Some(Timeframe::M3)
        } else if ms == 300_000 {
            Some(Timeframe::M5)
        } else if ms == 900_000 {
            Some(Timeframe::M15)
        } else if ms == 1_800_000 {
            Some(Timeframe::M30)
        } else if ms == 3_600_000 {
            Some(Timeframe::H1)
        } else if ms == 7_200_000 {
            Some(Timeframe::H2)
        } else if ms == 14_400_000 {
            Some(Timeframe::H4)
        } else if ms == 21_600_000 {
            Some(Timeframe::H6)
        } else if ms == 43_200_000 {
            Some(Timeframe::H12)
        } else if ms == 86_400_000 {
            Some(Timeframe::D1)
        } else {
            None
        }
    }

    /// The heatmap intervals, finest first.
    pub fn heatmap() -> (v: Vec<Timeframe>)
        ensures
            v@ == heatmap_timeframes(),
    {
        let v = vec![
            Timeframe::MS100,
            Timeframe::MS200,
            Timeframe::MS300,
            Timeframe::MS500,
            Timeframe::MS1000,
        ];
        assert(v@ == heatmap_timeframes());
        v
    }
}

/// The heatmap intervals, finest first.
pub open spec fn heatmap_timeframes() -> Seq<Timeframe> {
    seq![
        Timeframe::MS100,
        Timeframe::MS200,
        Timeframe::MS300,
        Timeframe::MS500,
        Timeframe::MS1000,
    ]
}

/// How often a depth stream pushes updates.
#[derive(Debug, Clone, Copy, PartialEq, Eq, Structural, Hash)]
pub enum PushFrequency {
    ServerDefault,
    Custom(Timeframe),
}

/// Multiplier applied to the minimum tick when the server aggregates depth.
#[derive(Debug, Clone, Copy, PartialEq, Eq, Structural, Hash)]
pub struct TickMultiplier(pub u16);

/// A market symbol on one exchange.
#[derive(Debug, Clone)]
pub struct Ticker {
    pub symbol: String,
    pub exchange: Exchange,
}

/// Trading rules of a ticker, in fixed-point units.
#[derive(Debug, Clone)]
pub struct TickerInfo {
    pub ticker: Ticker,
    pub min_ticksize: PriceStep,
    pub min_qty: u64,
    pub contract_size: Option<u64>,
}

impl View for Ticker {
    type V = (Seq<char>, Exchange);

    open spec fn view(&self) -> (Seq<char>, Exchange) {
        (self.symbol@, self.exchange)
    }
}

impl View for TickerInfo {
    type V = ((Seq<char>, Exchange), PriceStep, u64, Option<u64>);

    open spec fn view(&self) -> ((Seq<char>, Exchange), PriceStep, u64, Option<u64>) {
        (self.ticker@, self.min_ticksize, self.min_qty, self.contract_size)
    }
}

impl Ticker {
    pub fn new(symbol: &str, exchange: Exchange) -> (t: Ticker)
        ensures
            t.symbol@ == symbol@,
            t.exchange == exchange,
    {
        Ticker { symbol: symbol.to_owned(), exchange }
    }

    /// Whether two tickers name the same symbol on the same exchange.
    pub fn same_as(&self, other: &Ticker) -> (b: bool)
        ensures
            b == (self@ == other@),
    {
        self.exchange == other.exchange && self.symbol == other.symbol
    }
}

impl TickerInfo {
    pub fn new(
        ticker: Ticker,
        min_ticksize: PriceStep,
        min_qty: u64,
        contract_size: Option<u64>,
    ) -> (t: TickerInfo)
        ensures
            t.ticker == ticker,
            t.min_ticksize == min_ticksize,
            t.min_qty == min_qty,
            t.contract_size == contract_size,
    {
        TickerInfo { ticker, min_ticksize, min_qty, contract_size }
    }

    pub fn exchange(&self) -> (e: Exchange)
        ensures
            e == self.ticker.exchange,
    {
        self.ticker.exchange
    }

    /// Whether two ticker infos agree on every field.
    pub fn same_as(&self, other: &TickerInfo) -> (b: bool)
        ensures
            b == (self@ == other@),
    {
        self.ticker.same_as(&other.ticker) && self.min_ticksize == other.min_ticksize
            && self.min_qty == other.min_qty && self.contract_size == other.contract_size
    }
}

/// A candle: open time in milliseconds, prices in fixed-point units and the
/// buy and sell volume in quantity units.
#[derive(Debug, Clone, Copy, PartialEq, Eq, Structural)]
pub struct Kline {
    pub time: u64,
    pub open: Price,
    pub high: Price,
    pub low: Price,
    pub close: Price,
    pub buy_volume: u64,
    pub sell_volume: u64,
}

/// An executed trade: time, side, price and quantity in quantity units.
#[derive(Debug, Clone, Copy, PartialEq, Eq, Structural)]
pub struct Trade {
    pub time: u64,
    pub is_sell: bool,
    pub price: Price,
    pub qty: u64,
}

} // verus!
