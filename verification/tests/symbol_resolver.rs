use data::exchange::adapter::Exchange;
use data::realtime_ingester::normalize_binance_symbol;
use data::symbol_resolver::SymbolResolver;

#[test]
fn test_normalize_binance_symbol() {
    let resolver = SymbolResolver::new();

    assert_eq!(resolver.normalize("BTC", None), "BTCUSDT");
    assert_eq!(resolver.normalize("SOL", None), "SOLUSDT");
    assert_eq!(resolver.normalize("BTCUSDT", None), "BTCUSDT");
    assert_eq!(resolver.normalize("ETH-USDT-SWAP", None), "ETHUSDT");
    assert_eq!(resolver.normalize("ETH_USDT", None), "ETHUSDT");
}

#[test]
fn test_cache_keys() {
    let resolver = SymbolResolver::new();

    assert_eq!(
        resolver.tick_cache_key("BTCUSDT", "2025-11-24"),
        "BTCUSDT_2025-11-24_ticks.parquet"
    );

    assert_eq!(
        resolver.kline_cache_key("BTCUSDT", "2025-11-24", "1m"),
        "BTCUSDT_2025-11-24_1m.parquet"
    );
}

#[test]
fn test_download_keys() {
    let resolver = SymbolResolver::new();

    assert_eq!(
        resolver.download_key("ticks", "BTCUSDT", "2025-11-24", None),
        "ticks:BTCUSDT_2025-11-24"
    );

    assert_eq!(
        resolver.download_key("kline", "BTCUSDT", "2025-11-24", Some("1m")),
        "kline:BTCUSDT_2025-11-24_1m"
    );
}

#[test]
fn normalize_lower_case_and_suffixes() {
    assert_eq!(normalize_binance_symbol("eth"), "ETHUSDT");
    assert_eq!(normalize_binance_symbol("btc-usd"), "BTCUSD");
    assert_eq!(normalize_binance_symbol("SOL_PERP"), "SOLUSDT");
    assert_eq!(normalize_binance_symbol("ABCDEFGHIJK"), "ABCDEFGHIJK");
    assert_eq!(normalize_binance_symbol("1INCH"), "1INCH");
    assert_eq!(normalize_binance_symbol(""), "USDT");
}

#[test]
fn normalize_per_exchange() {
    let r = SymbolResolver::new();
    assert_eq!(r.normalize("eth-usdt", Some(Exchange::OkexSpot)), "ETHUSDT");
    assert_eq!(r.normalize("btc_perp", Some(Exchange::HyperliquidLinear)), "BTCPERP");
    assert_eq!(r.normalize("btc", Some(Exchange::BybitLinear)), "BTCUSDT");
    assert_eq!(r.infer_exchange("ANY"), Exchange::BinanceSpot);
}

#[test]
fn normalising_twice_changes_nothing() {
    for s in ["eth-usdt", "btc", "ETH-USDT-SWAP", "sol_perp", "1inch-usd", "x_y-busd", "abcdefghijklm"] {
        let r = normalize_binance_symbol(s);
        assert_eq!(normalize_binance_symbol(&r), r);
        assert!(!r.contains('-') && !r.contains('_'));
        assert_eq!(r.to_uppercase(), r);
    }
    assert_eq!(normalize_binance_symbol("eth-usdt"), "ETHUSDT");
}
