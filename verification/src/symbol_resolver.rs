//! One place for symbol normalisation, exchange inference and the keys under
//! which cached and downloaded data is filed.

use vstd::prelude::*;

use crate::exchange::adapter::Exchange;
use crate::realtime_ingester::{
    lit_dash, lit_underscore, normalize_binance_symbol, spec_normalize_binance,
};
use crate::text::{
    append_str, chars_of, remove_all, remove_all_chars, spec_to_uppercase, string_of, to_uppercase,
};

verus! {

/// Resolves symbols to their normalised form and builds cache and download
/// keys.
#[derive(Debug, Clone, Copy)]
pub struct SymbolResolver;

impl Default for SymbolResolver {
    fn default() -> (r: Self)
        ensures
            r == SymbolResolver,
    {
        SymbolResolver
    }
}

/// The symbol for an exchange (Binance spot when none is given): Binance and
/// Bybit use the Binance spelling; Hyperliquid and OKX take the upper-cased
/// symbol without '-' and '_'.
pub open spec fn spec_normalize(symbol: Seq<char>, exchange: Option<Exchange>) -> Seq<char> {
    let ex = match exchange {
        Some(e) => e,
        None => Exchange::BinanceSpot,
    };
    match ex {
        Exchange::HyperliquidLinear | Exchange::HyperliquidSpot | Exchange::OkexSpot
        | Exchange::OkexLinear | Exchange::OkexInverse => remove_all(
            remove_all(spec_to_uppercase(symbol), lit_dash()),
            lit_underscore(),
        ),
        _ => spec_normalize_binance(symbol),
    }
}

impl SymbolResolver {
    pub fn new() -> (r: Self)
        ensures
            r == SymbolResolver,
    {
        SymbolResolver
    }

    /// Normalises a symbol for an exchange, Binance spot when none is given:
    /// "BTC" becomes "BTCUSDT", "ETH-USDT-SWAP" becomes "ETHUSDT".
    pub fn normalize(&self, symbol: &str, exchange: Option<Exchange>) -> (r: String)
        ensures
            r@ == spec_normalize(symbol@, exchange),
    {
        let ex = match exchange {
            Some(e) => e,
            None => Exchange::BinanceSpot,
        };
        match ex {
            Exchange::BinanceSpot | Exchange::BinanceLinear | Exchange::BinanceInverse => {
                self.normalize_binance_symbol(symbol)
            },
            Exchange::BybitSpot | Exchange::BybitLinear | Exchange::BybitInverse => {
                self.normalize_binance_symbol(symbol)
            },
            Exchange::HyperliquidLinear | Exchange::HyperliquidSpot | Exchange::OkexSpot
            | Exchange::OkexLinear | Exchange::OkexInverse => {
                let up_s = to_uppercase(symbol);
                let up = chars_of(up_s.as_str());
                let dash = chars_of("-");
                let underscore = chars_of("_");
                proof {
                    reveal_strlit("-");
                    reveal_strlit("_");
                    assert(dash@ == lit_dash());
                    assert(underscore@ == lit_underscore());
                }
                let a = remove_all_chars(&up, &dash);
                let b = remove_all_chars(&a, &underscore);
                string_of(&b)
            },
        }
    }

    /// The exchange a symbol belongs to; every symbol is taken as Binance
    /// spot.
    pub fn infer_exchange(&self, symbol: &str) -> (e: Exchange)
        ensures
            e == Exchange::BinanceSpot,
    {
        Exchange::BinanceSpot
    }

    /// Cache file name for a day of trades: "{symbol}_{date}_ticks.parquet".
    pub fn tick_cache_key(&self, symbol: &str, date: &str) -> (r: String)
        ensures
            r@ == symbol@ + "_"@ + date@ + "_ticks.parquet"@,
    {
        let mut s = String::new();
        append_str(&mut s, symbol);
        append_str(&mut s, "_");
        append_str(&mut s, date);
        append_str(&mut s, "_ticks.parquet");
        s
    }

    /// Cache file name for a day of candles: "{symbol}_{date}_{timeframe}.parquet".
    pub fn kline_cache_key(&self, symbol: &str, date: &str, timeframe: &str) -> (r: String)
        ensures
            r@ == symbol@ + "_"@ + date@ + "_"@ + timeframe@ + ".parquet"@,
    {
        let mut s = String::new();
        append_str(&mut s, symbol);
        append_str(&mut s, "_");
        append_str(&mut s, date);
        append_str(&mut s, "_");
        append_str(&mut s, timeframe);
        append_str(&mut s, ".parquet");
        s
    }

    /// Key that tracks one download: "{data_type}:{symbol}_{date}", with
    /// "_{timeframe}" appended when a timeframe is given.
    pub fn download_key(
        &self,
        data_type: &str,
        symbol: &str,
        date: &str,
        timeframe: Option<&str>,
    ) -> (r: String)
        ensures
            r@ == data_type@ + ":"@ + symbol@ + "_"@ + date@ + match timeframe {
                Some(tf) => "_"@ + tf@,
                None => Seq::<char>::empty(),
            },
    {
        let mut s = String::new();
        append_str(&mut s, data_type);
        append_str(&mut s, ":");
        append_str(&mut s, symbol);
        append_str(&mut s, "_");
        append_str(&mut s, date);
        match timeframe {
            Some(tf) => {
                append_str(&mut s, "_");
                append_str(&mut s, tf);
            },
            None => {
                assert(s@ + Seq::<char>::empty() =~= s@);
            },
        }
        s
    }

    fn normalize_binance_symbol(&self, ticker: &str) -> (r: String)
        ensures
            r@ == spec_normalize_binance(ticker@),
    {
        normalize_binance_symbol(ticker)
    }
}

} // verus!
