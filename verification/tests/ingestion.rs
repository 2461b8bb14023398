use data::event_bus::{DataAvailability, DataType, DownloadPriority};
use data::historical_data_service::{effective_range, in_range, missing_dates};
use data::ingester::{IngestCommand as TradeCommand, IngestionAction, IngestionState};
use data::log::log_file_name;
use data::realtime_data_service::TimeRange;
use data::realtime_ingester::{
    ChunkSpan, FetchEvent, FetchStep, HistoryFetch, IngestAction, IngestCommand, IngestState,
    live_flush_key, live_trade_stream_url, ms_to_us, plan_history_chunks, resume_start_ms,
};
use data::realtime_ingester::{ms_to_ns, plan_chunks, plan_history_chunks_ns, resume_start_ms_ns_store};

const MIN_US: u64 = 60_000_000;

#[test]
fn live_ingestion_follows_one_symbol() {
    let mut s = IngestState::new();
    assert_eq!(
        s.handle(IngestCommand::Subscribe("BTCUSDT".to_string(), Some("1m".to_string()))),
        IngestAction::Switch("BTCUSDT".to_string(), Some("1m".to_string()))
    );
    assert_eq!(s.handle(IngestCommand::Subscribe("BTCUSDT".to_string(), None)), IngestAction::Keep);
    assert_eq!(s.handle(IngestCommand::Unsubscribe("ETHUSDT".to_string())), IngestAction::Keep);
    assert_eq!(
        s.handle(IngestCommand::Subscribe("ETHUSDT".to_string(), None)),
        IngestAction::Switch("ETHUSDT".to_string(), None)
    );
    assert_eq!(s.handle(IngestCommand::Unsubscribe("ETHUSDT".to_string())), IngestAction::Stop);
    assert!(s.active_symbol.is_none());
    assert_eq!(s.handle(IngestCommand::Shutdown), IngestAction::Exit);
}

#[test]
fn trade_ingestion_follows_one_symbol() {
    let mut s = IngestionState::new();
    assert_eq!(s.handle(TradeCommand::Subscribe("BTCUSDT".to_string())), IngestionAction::Switch("BTCUSDT".to_string()));
    assert_eq!(s.handle(TradeCommand::Subscribe("BTCUSDT".to_string())), IngestionAction::Keep);
    assert_eq!(s.handle(TradeCommand::Unsubscribe("BTCUSDT".to_string())), IngestionAction::Stop);
    assert_eq!(s.handle(TradeCommand::Unsubscribe("BTCUSDT".to_string())), IngestionAction::Keep);
    assert_eq!(s.handle(TradeCommand::Shutdown), IngestionAction::Exit);
}

#[test]
fn resuming_and_time_units() {
    assert_eq!(resume_start_ms(Some(1_000), 5_000_000_000), 1_001);
    assert_eq!(resume_start_ms(None, 100_000_000), 100_000_000 - 86_400_000);
    assert_eq!(ms_to_us(1_234), Some(1_234_000));
    assert_eq!(ms_to_us(u64::MAX / 10), None);
    assert_eq!(live_trade_stream_url("BTCUSDT"), "wss://stream.binance.com:9443/ws/btcusdt@aggTrade");
}

#[test]
fn history_is_appended_in_minute_chunks() {
    let times = vec![MIN_US + 5, MIN_US + 10, 2 * MIN_US, 5 * MIN_US + 1];
    assert_eq!(
        plan_history_chunks(&times),
        vec![
            ChunkSpan { chunk_start: MIN_US, first: 0, end: 2 },
            ChunkSpan { chunk_start: 2 * MIN_US, first: 2, end: 3 },
            ChunkSpan { chunk_start: 5 * MIN_US, first: 3, end: 4 },
        ]
    );
    assert!(plan_history_chunks(&vec![]).is_empty());
}

#[test]
fn history_reads_stop_at_the_boundary() {
    let r = TimeRange { start_us: 10, end_us: 500 };
    assert_eq!(effective_range(r, 100), TimeRange { start_us: 10, end_us: 100 });
    assert_eq!(effective_range(r, 1_000), r);
    assert!(in_range(10, r));
    assert!(!in_range(500, r));
}

#[test]
fn days_needing_a_download() {
    let results = vec![
        ("2025-11-23".to_string(), DataAvailability::Available),
        ("2025-11-24".to_string(), DataAvailability::Unknown),
        ("2025-11-25".to_string(), DataAvailability::Downloading),
        ("2025-11-26".to_string(), DataAvailability::Unavailable),
    ];
    assert_eq!(missing_dates(&results), vec!["2025-11-24", "2025-11-26"]);
}

#[test]
fn event_vocabulary() {
    assert_eq!(DataType::Tick.as_str(), "tick");
    assert_eq!(DataType::Kline { timeframe: None }.as_str(), "kline");
    assert_eq!(DownloadPriority::UserRequest.rank(), 0);
    assert_eq!(DownloadPriority::Background.rank(), 2);
    assert!(log_file_name().ends_with(".log"));
}

#[test]
fn history_pages_move_the_start_past_the_last_trade() {
    let mut f = HistoryFetch::new(1_000, 5_000);
    assert!(f.wants_more());
    assert_eq!(f.step(FetchEvent::Page(vec![1_000, 2_000, 6_000])), FetchStep::Keep(vec![0, 1]));
    assert_eq!(f.current_start, 6_001);
    assert!(!f.wants_more());

    let mut g = HistoryFetch::new(1_000, 5_000);
    // A page that does not move past the start still advances by one.
    assert_eq!(g.step(FetchEvent::Page(vec![900])), FetchStep::Keep(vec![0]));
    assert_eq!(g.current_start, 1_001);
    assert_eq!(g.step(FetchEvent::Page(vec![])), FetchStep::Done);
}

#[test]
fn history_fetch_gives_up_after_three_failures_in_a_row() {
    let mut f = HistoryFetch::new(0, 10);
    assert_eq!(f.step(FetchEvent::HttpError), FetchStep::Retry);
    assert_eq!(f.step(FetchEvent::ConnError), FetchStep::Retry);
    assert_eq!(f.step(FetchEvent::Page(vec![3])), FetchStep::Keep(vec![0]));
    assert_eq!(f.consecutive_failures, 0);
    assert_eq!(f.step(FetchEvent::JsonError), FetchStep::Retry);
    assert_eq!(f.step(FetchEvent::JsonError), FetchStep::Retry);
    assert_eq!(f.step(FetchEvent::HttpError), FetchStep::Done);
}

#[test]
fn live_trades_are_flushed_each_second_under_the_first_time() {
    assert_eq!(live_flush_key(&vec![7, 9], 1), Some(7));
    assert_eq!(live_flush_key(&vec![7, 9], 0), None);
    assert_eq!(live_flush_key(&vec![], 3), None);
}

#[test]
fn nanosecond_store_uses_minute_chunks_and_two_hours() {
    const MIN_NS: u64 = 60_000_000_000;
    let times = vec![MIN_NS + 5, 2 * MIN_NS - 1, 2 * MIN_NS, 7 * MIN_NS];
    assert_eq!(
        plan_history_chunks_ns(&times),
        vec![
            ChunkSpan { chunk_start: MIN_NS, first: 0, end: 2 },
            ChunkSpan { chunk_start: 2 * MIN_NS, first: 2, end: 3 },
            ChunkSpan { chunk_start: 7 * MIN_NS, first: 3, end: 4 },
        ]
    );
    assert_eq!(plan_chunks(&vec![3, 4, 10, 25], 10), vec![
        ChunkSpan { chunk_start: 0, first: 0, end: 2 },
        ChunkSpan { chunk_start: 10, first: 2, end: 3 },
        ChunkSpan { chunk_start: 20, first: 3, end: 4 },
    ]);
    assert_eq!(resume_start_ms_ns_store(None, 10_000_000), 10_000_000 - 7_200_000);
    assert_eq!(resume_start_ms_ns_store(Some(42), 10_000_000), 43);
    assert_eq!(ms_to_ns(3), Some(3_000_000));
    assert_eq!(ms_to_ns(u64::MAX / 1000), None);
}
