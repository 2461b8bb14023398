use data::event_bus::{DataAvailability, DataType, DownloadPriority};
use data::historical_download_coordinator::{
    DownloadTask, RetryDecision, Scheduler, SubmitOutcome, TaskQueue, calculate_retry_delay,
    retry_decision,
};

fn task(date: &str, priority: DownloadPriority, created_at: u64) -> DownloadTask {
    DownloadTask::new_at("BTCUSDT".to_string(), date.to_string(), DataType::Tick, None, priority, created_at)
}

#[test]
fn task_keys() {
    assert_eq!(task("2025-11-24", DownloadPriority::Preload, 0).key(), "ticks:BTCUSDT_2025-11-24");
    let kline = DownloadTask::new_at(
        "BTCUSDT".to_string(),
        "2025-11-24".to_string(),
        DataType::Kline { timeframe: Some("5m".to_string()) },
        None,
        DownloadPriority::Background,
        0,
    );
    assert_eq!(kline.key(), "kline:BTCUSDT_2025-11-24_5m");
    let default_tf = DownloadTask::new_at(
        "ETHUSDT".to_string(),
        "2025-11-25".to_string(),
        DataType::Kline { timeframe: None },
        None,
        DownloadPriority::Background,
        0,
    );
    assert_eq!(default_tf.key(), "kline:ETHUSDT_2025-11-25_1m");
}

#[test]
fn a_new_task_is_fresh() {
    let t = DownloadTask::new("BTCUSDT".to_string(), "2025-11-24".to_string(), DataType::Tick, None, DownloadPriority::UserRequest);
    assert_eq!(t.retry_count, 0);
    assert_eq!(t.priority, DownloadPriority::UserRequest);
}

#[test]
fn queue_takes_the_most_urgent_then_the_oldest() {
    let mut q = TaskQueue::new();
    q.push(task("a", DownloadPriority::Background, 1));
    q.push(task("b", DownloadPriority::UserRequest, 5));
    q.push(task("c", DownloadPriority::Preload, 2));
    q.push(task("d", DownloadPriority::UserRequest, 3));
    let order: Vec<String> = (0..4).map(|_| q.pop().unwrap().date).collect();
    assert_eq!(order, vec!["d", "b", "c", "a"]);
    assert!(q.pop().is_none());
    assert_eq!(q.len(), 0);
}

#[test]
fn scheduler_runs_at_most_the_limit() {
    let mut s = Scheduler::new();
    assert_eq!(s.submit(task("2025-11-24", DownloadPriority::Preload, 1), DataAvailability::Unknown), SubmitOutcome::Queued);
    assert_eq!(s.submit(task("2025-11-23", DownloadPriority::Preload, 2), DataAvailability::Unknown), SubmitOutcome::Queued);
    assert_eq!(s.submit(task("2025-11-22", DownloadPriority::Preload, 3), DataAvailability::Available), SubmitOutcome::AlreadyAvailable);

    let first = s.next_download().unwrap();
    assert_eq!(first.date, "2025-11-24");
    assert!(s.is_running("ticks:BTCUSDT_2025-11-24"));
    // One download at a time by default.
    assert!(s.next_download().is_none());
    // A running key is not queued again.
    assert_eq!(s.submit(task("2025-11-24", DownloadPriority::UserRequest, 9), DataAvailability::Unknown), SubmitOutcome::AlreadyRunning);

    s.finish("ticks:BTCUSDT_2025-11-24");
    assert!(!s.is_running("ticks:BTCUSDT_2025-11-24"));
    assert_eq!(s.next_download().unwrap().date, "2025-11-23");

    s.set_max_concurrent_downloads(3);
    assert!(s.next_download().is_none());
    assert_eq!(s.running.len(), 1);
}

#[test]
fn retry_delays() {
    assert_eq!(calculate_retry_delay("HTTP 404 Not Found", 1), 3600);
    assert_eq!(calculate_retry_delay("file NOT FOUND", 3), 4 * 3600);
    assert_eq!(calculate_retry_delay("403 Forbidden", 2), 1);
    assert_eq!(calculate_retry_delay("connection reset", 1), 1);
    assert_eq!(calculate_retry_delay("connection reset", 3), 4);
    assert_eq!(calculate_retry_delay("timeout", 0), 1);
    assert_eq!(calculate_retry_delay("timeout", 64), 1u64 << 63);
}

#[test]
fn retries_stop_after_three() {
    assert_eq!(retry_decision(0, "timeout"), RetryDecision::RetryAfter(1));
    assert_eq!(retry_decision(2, "404"), RetryDecision::RetryAfter(4 * 3600));
    assert_eq!(retry_decision(3, "timeout"), RetryDecision::GiveUp);
}
