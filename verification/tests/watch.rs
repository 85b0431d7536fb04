use fubako::model::AppConfig;
use fubako::watch::{settle, watch_roots};
use std::sync::mpsc;
use std::time::{Duration, Instant};

const QUIET_T: Duration = Duration::from_millis(50);
const MAX_T: Duration = Duration::from_millis(300);

#[test]
fn settle_returns_once_the_events_stop() {
    let (tx, rx) = mpsc::channel::<()>();
    tx.send(()).unwrap();
    let start = Instant::now();
    settle(&rx, QUIET_T, MAX_T);
    // the events stopped, so it does not wait until the limit
    assert!(start.elapsed() < MAX_T, "returned too late: {:?}", start.elapsed());
    drop(tx);
}

#[test]
fn settle_returns_when_the_watcher_is_replaced() {
    let (tx, rx) = mpsc::channel::<()>();
    drop(tx);
    let start = Instant::now();
    settle(&rx, QUIET_T, MAX_T);
    // once the sender is gone there is nothing to wait for
    assert!(start.elapsed() < MAX_T, "waited on a closed channel: {:?}", start.elapsed());
}

#[test]
fn only_roots_that_exist_are_watched() {
    let config = AppConfig {
        work_root: Some("/w".to_string()),
        archive_root: Some("/a".to_string()),
        ..Default::default()
    };
    assert_eq!(watch_roots(&config, true, true), vec!["/w".to_string(), "/a".to_string()]);
    assert_eq!(watch_roots(&config, false, true), vec!["/a".to_string()]);
    assert!(watch_roots(&AppConfig::default(), true, true).is_empty());
}
