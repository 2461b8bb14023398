use data::exchange::adapter::unique_streams::UniqueStreams;
use data::exchange::adapter::{Exchange, StreamKind, StreamTicksize};
use data::exchange::{PriceStep, PushFrequency, Ticker, TickerInfo, Timeframe};

fn info(symbol: &str, exchange: Exchange) -> TickerInfo {
    TickerInfo::new(Ticker::new(symbol, exchange), PriceStep { units: 1 }, 1, None)
}

fn kline(symbol: &str, exchange: Exchange, timeframe: Timeframe) -> StreamKind {
    StreamKind::Kline { ticker_info: info(symbol, exchange), timeframe }
}

fn depth(symbol: &str, exchange: Exchange) -> StreamKind {
    StreamKind::DepthAndTrades {
        ticker_info: info(symbol, exchange),
        depth_aggr: StreamTicksize::Client,
        push_freq: PushFrequency::ServerDefault,
    }
}

#[test]
fn streams_are_kept_once() {
    let mut u = UniqueStreams::new();
    u.add(kline("BTCUSDT", Exchange::BinanceLinear, Timeframe::M1));
    u.add(kline("BTCUSDT", Exchange::BinanceLinear, Timeframe::M1));
    u.add(kline("BTCUSDT", Exchange::BinanceLinear, Timeframe::M5));
    u.extend(&vec![depth("BTCUSDT", Exchange::BinanceLinear), depth("BTCUSDT", Exchange::BinanceLinear)]);
    assert_eq!(u.streams.len(), 3);
}

#[test]
fn streams_by_exchange() {
    let mut u = UniqueStreams::new();
    u.extend(&vec![
        kline("ETHUSDT", Exchange::BybitLinear, Timeframe::M1),
        depth("BTCUSDT", Exchange::BinanceSpot),
        kline("BTCUSDT", Exchange::BinanceSpot, Timeframe::H1),
        depth("ETHUSDT", Exchange::BybitLinear),
    ]);
    let spot_klines = u.kline_streams(Some(Exchange::BinanceSpot));
    assert_eq!(spot_klines.len(), 1);
    assert_eq!(spot_klines[0].1, Timeframe::H1);
    // Every exchange in turn: Binance before Bybit.
    let all_depth: Vec<String> = u.depth_streams(None).iter().map(|d| d.0.ticker.symbol.clone()).collect();
    assert_eq!(all_depth, vec!["BTCUSDT", "ETHUSDT"]);
    let used: Vec<(Exchange, usize, usize)> =
        u.combined_used().iter().map(|(e, s)| (*e, s.depth.len(), s.kline.len())).collect();
    assert_eq!(used, vec![(Exchange::BinanceSpot, 1, 1), (Exchange::BybitLinear, 1, 1)]);
    assert!(u.depth_streams(Some(Exchange::OkexSpot)).is_empty());
}
