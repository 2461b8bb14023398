use data::exchange::adapter::binance::{MarketAction, MarketEvent, MarketSync};
use data::exchange::adapter::{PersistStreamKind, StreamKind};
use data::exchange::{Ticker, TickerInfo};
use data::exchange::adapter::AdapterError;
use data::exchange::adapter::binance::{find_stream_timeframe, kline_interval, kline_stream_url};
use data::exchange::adapter::binance::{
    ArchiveReply, DepthAction, DepthEventIds, StreamWrapper, archive_interval, archive_kline_url,
    archive_reply, archive_trades_url, contract_size, depth_sync_action, exchange_from_market_type,
    market_stream_url, ws_domain_from_market_type,
};
use data::exchange::adapter::{Exchange, MarketKind, StreamTicksize};
use data::exchange::{Price, PriceStep, TickMultiplier, Timeframe};

#[test]
fn rounding_to_the_nearest_step() {
    let step = PriceStep { units: 10 };
    assert_eq!(Price::from_units(104).round_to_step(step), Price { units: 100 });
    assert_eq!(Price::from_units(105).round_to_step(step), Price { units: 110 });
    assert_eq!(Price::from_units(-104).round_to_step(step), Price { units: -100 });
    assert_eq!(Price::from_units(-105).round_to_step(step), Price { units: -100 });
    assert_eq!(Price::from_units(123).round_to_step(PriceStep { units: 1 }), Price { units: 123 });
}

#[test]
fn rounding_to_a_side() {
    let step = PriceStep { units: 25 };
    assert_eq!(Price::from_units(60).round_to_side_step(true, step), Price { units: 50 });
    assert_eq!(Price::from_units(60).round_to_side_step(false, step), Price { units: 75 });
    assert_eq!(Price::from_units(75).round_to_side_step(false, step), Price { units: 75 });
    assert_eq!(Price::from_units(-60).round_to_side_step(true, step), Price { units: -75 });
    assert_eq!(Price::from_units(-60).round_to_side_step(false, step), Price { units: -50 });
}

#[test]
fn timeframe_lengths_round_trip() {
    let all = [
        Timeframe::MS100,
        Timeframe::MS200,
        Timeframe::MS300,
        Timeframe::MS500,
        Timeframe::MS1000,
        Timeframe::M1,
        Timeframe::M3,
        Timeframe::M5,
        Timeframe::M15,
        Timeframe::M30,
        Timeframe::H1,
        Timeframe::H2,
        Timeframe::H4,
        Timeframe::H6,
        Timeframe::H12,
        Timeframe::D1,
    ];
    for tf in all {
        assert_eq!(Timeframe::from_milliseconds(tf.to_milliseconds()), Some(tf));
    }
    assert_eq!(Timeframe::M5.to_milliseconds(), 300_000);
    assert_eq!(Timeframe::from_milliseconds(123), None);
}

#[test]
fn heatmap_timeframes_are_the_sub_second_ones() {
    assert_eq!(
        Timeframe::heatmap(),
        vec![Timeframe::MS100, Timeframe::MS200, Timeframe::MS300, Timeframe::MS500, Timeframe::MS1000]
    );
}

#[test]
fn exchange_names_parse_back() {
    for e in Exchange::all() {
        assert_eq!(Exchange::parse(e.name()), Ok(e));
    }
    assert_eq!(Exchange::parse("Kraken"), Err("Invalid exchange: Kraken".to_string()));
}

#[test]
fn exchange_properties() {
    assert_eq!(Exchange::BinanceInverse.market_type(), MarketKind::InversePerps);
    assert_eq!(Exchange::OkexSpot.market_type(), MarketKind::Spot);
    assert!(Exchange::BybitLinear.is_perps());
    assert!(!Exchange::HyperliquidSpot.is_perps());
    assert!(!Exchange::BybitSpot.supports_heatmap_timeframe(Timeframe::MS100));
    assert!(Exchange::BybitSpot.supports_heatmap_timeframe(Timeframe::MS200));
    assert_eq!(
        Exchange::HyperliquidLinear.stream_ticksize(None, TickMultiplier(5)),
        StreamTicksize::ServerSide(TickMultiplier(5))
    );
    assert_eq!(Exchange::BinanceSpot.stream_ticksize(Some(TickMultiplier(2)), TickMultiplier(5)), StreamTicksize::Client);
}

#[test]
fn binance_markets() {
    assert_eq!(exchange_from_market_type(MarketKind::Spot), Exchange::BinanceSpot);
    assert_eq!(exchange_from_market_type(MarketKind::LinearPerps), Exchange::BinanceLinear);
    assert_eq!(ws_domain_from_market_type(MarketKind::InversePerps), "dstream.binance.com");
    assert_eq!(
        market_stream_url("BTCUSDT", MarketKind::LinearPerps),
        "wss://fstream.binance.com/stream?streams=btcusdt@aggTrade/btcusdt@depth@100ms"
    );
    assert_eq!(contract_size("BTCUSD_PERP", MarketKind::InversePerps), Some(100));
    assert_eq!(contract_size("ETHUSD_PERP", MarketKind::InversePerps), Some(10));
    assert_eq!(contract_size("BTCUSDT", MarketKind::Spot), None);
}

#[test]
fn stream_names_tell_the_message_kind() {
    assert_eq!(StreamWrapper::from_stream_type("btcusdt@depth@100ms"), Some(StreamWrapper::Depth));
    assert_eq!(StreamWrapper::from_stream_type("btcusdt@aggTrade"), Some(StreamWrapper::Trade));
    assert_eq!(StreamWrapper::from_stream_type("btcusdt@kline_1m"), Some(StreamWrapper::Kline));
    assert_eq!(StreamWrapper::from_stream_type("btcusdt@ticker"), None);
    assert_eq!(StreamWrapper::from_stream_type("btcusdt"), None);
}

#[test]
fn depth_messages_against_the_book() {
    let spot = |first_id, final_id| DepthEventIds::Spot { first_id, final_id };
    // Skipped while a snapshot is fetched, before a snapshot, or when old.
    assert_eq!(depth_sync_action(true, 100, 0, spot(101, 110)), DepthAction::Skip);
    assert_eq!(depth_sync_action(false, 0, 0, spot(101, 110)), DepthAction::Skip);
    assert_eq!(depth_sync_action(false, 100, 0, spot(90, 100)), DepthAction::Skip);
    // First message after the snapshot.
    assert_eq!(depth_sync_action(false, 100, 0, spot(95, 110)), DepthAction::Process { resync: false, apply: true });
    assert_eq!(depth_sync_action(false, 100, 0, spot(105, 110)), DepthAction::Process { resync: true, apply: true });
    // Later messages must follow on.
    assert_eq!(depth_sync_action(false, 100, 110, spot(111, 120)), DepthAction::Process { resync: false, apply: true });
    assert_eq!(depth_sync_action(false, 100, 110, spot(115, 120)), DepthAction::Process { resync: false, apply: false });
    let perp = DepthEventIds::Perp { first_id: 111, final_id: 120, prev_final_id: 110 };
    assert_eq!(depth_sync_action(false, 100, 110, perp), DepthAction::Process { resync: false, apply: true });
}

#[test]
fn archive_addresses() {
    assert_eq!(archive_interval("1h"), "1h");
    assert_eq!(archive_interval("1M"), "1mo");
    assert_eq!(archive_interval("7m"), "1m");
    assert_eq!(
        archive_kline_url("BTCUSDT", "2025-11-24", "1m"),
        "https://data.binance.vision/data/spot/daily/klines/BTCUSDT/1m/BTCUSDT-1m-2025-11-24.zip"
    );
    assert_eq!(
        archive_trades_url("BTCUSDT", "2025-11-24"),
        "https://data.binance.vision/data/spot/daily/aggTrades/BTCUSDT/BTCUSDT-aggTrades-2025-11-24.zip"
    );
    assert_eq!(archive_reply(200), ArchiveReply::Read);
    assert_eq!(archive_reply(404), ArchiveReply::NotPublished);
    assert_eq!(archive_reply(500), ArchiveReply::Failed);
}

#[test]
fn adapter_errors_have_user_messages() {
    assert_eq!(
        AdapterError::InvalidRequest("bad".to_string()).to_user_message(),
        "Invalid request made to the exchange. Check logs for details."
    );
    assert_eq!(
        AdapterError::FetchError("timeout".to_string()).to_user_message(),
        "Network error while contacting the exchange."
    );
    assert_eq!(
        AdapterError::ParseError("json".to_string()).to_user_message(),
        "Unexpected response from the exchange. Check logs for details."
    );
    assert_eq!(
        AdapterError::WebsocketError("closed".to_string()).to_user_message(),
        "Realtime connection error. Trying to reconnect..."
    );
    assert_eq!(
        AdapterError::IoError(std::io::Error::new(std::io::ErrorKind::Other, "disk")).to_user_message(),
        "IO error occurred. Check logs for details."
    );
    assert_eq!(
        AdapterError::ZipError(zip::result::ZipError::FileNotFound).to_user_message(),
        "Error processing ZIP archive. Check logs for details."
    );
}

#[test]
fn persisted_streams_resolve_back() {
    let info = TickerInfo::new(Ticker::new("BTCUSDT", Exchange::BinanceLinear), PriceStep { units: 10 }, 1, None);
    let streams = vec![
        StreamKind::Kline { ticker_info: info.clone(), timeframe: Timeframe::M5 },
        StreamKind::DepthAndTrades {
            ticker_info: info.clone(),
            depth_aggr: StreamTicksize::Client,
            push_freq: data::exchange::PushFrequency::ServerDefault,
        },
    ];
    for s in streams {
        let ti = s.ticker_info();
        let back = PersistStreamKind::from_stream(&s)
            .into_stream_kind(|t: &Ticker| if t.symbol == ti.ticker.symbol && t.exchange == ti.ticker.exchange { Some(ti.clone()) } else { None })
            .unwrap();
        assert_eq!(format!("{:?}", back), format!("{:?}", s));
    }
}

#[test]
fn candle_stream_addresses_and_intervals() {
    let streams = vec![("BTCUSDT".to_string(), Timeframe::M1), ("ETHUSDT".to_string(), Timeframe::H4)];
    assert_eq!(
        kline_stream_url(&streams, MarketKind::LinearPerps),
        "wss://fstream.binance.com/stream?streams=btcusdt@kline_1m/ethusdt@kline_4h"
    );
    assert_eq!(kline_stream_url(&vec![], MarketKind::Spot), "wss://stream.binance.com/stream?streams=");
    assert_eq!(kline_interval(Timeframe::H12), "12h");
    let tfs = vec![Timeframe::M5, Timeframe::D1];
    assert_eq!(find_stream_timeframe(&tfs, "1d"), Some(Timeframe::D1));
    assert_eq!(find_stream_timeframe(&tfs, "1m"), None);
}

#[test]
fn market_stream_steps() {
    let mut s = MarketSync::new();
    assert_eq!(s.step(MarketEvent::ConnectFailed), MarketAction::PauseAndReportConnectFailed);
    assert_eq!(s.step(MarketEvent::Opened), MarketAction::ReportConnected);
    assert_eq!(s, MarketSync { connected: true, prev_id: 0 });
    let skip = MarketEvent::Depth { already_fetching: true, last_update_id: 10, ids: DepthEventIds::Spot { first_id: 11, final_id: 12 } };
    assert_eq!(s.step(skip), MarketAction::Ignore);
    let first = MarketEvent::Depth { already_fetching: false, last_update_id: 10, ids: DepthEventIds::Spot { first_id: 11, final_id: 12 } };
    assert_eq!(s.step(first), MarketAction::Apply { resync: false });
    assert_eq!(s.prev_id, 12);
    let next = MarketEvent::Depth { already_fetching: false, last_update_id: 10, ids: DepthEventIds::Spot { first_id: 13, final_id: 15 } };
    assert_eq!(s.step(next), MarketAction::Apply { resync: false });
    let gap = MarketEvent::Depth {
        already_fetching: false,
        last_update_id: 10,
        ids: DepthEventIds::Perp { first_id: 20, final_id: 25, prev_final_id: 19 },
    };
    assert_eq!(s.step(gap), MarketAction::OutOfSync { resync: false, expected: 19, got: 15 });
    assert!(!s.connected);
    assert_eq!(s.step(MarketEvent::Opened), MarketAction::ReportConnected);
    let late = MarketEvent::Depth { already_fetching: false, last_update_id: 10, ids: DepthEventIds::Spot { first_id: 30, final_id: 31 } };
    assert_eq!(s.step(late), MarketAction::Apply { resync: true });
    assert_eq!(s.step(MarketEvent::Closed), MarketAction::ReportClosed);
    assert_eq!(s.step(MarketEvent::ReadFailed), MarketAction::ReportReadError);
    assert_eq!(s.step(MarketEvent::SnapshotFailed), MarketAction::ReportSnapshotFailed);
}
