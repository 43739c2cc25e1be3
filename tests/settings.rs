use std::time::Duration;
use telegramfs::backoff::ExponentialBackoff;
use telegramfs::sync::{ReplicationRole, SyncConfig};

#[test]
fn test_exponential_backoff() {
    let mut backoff = ExponentialBackoff::new(100, 3);

    let d1 = Duration::from_millis(backoff.next_delay().unwrap());
    let d2 = Duration::from_millis(backoff.next_delay().unwrap());
    let d3 = Duration::from_millis(backoff.next_delay().unwrap());
    let d4 = backoff.next_delay();

    assert_eq!(d1, Duration::from_millis(100));
    assert_eq!(d2, Duration::from_millis(200));
    assert_eq!(d3, Duration::from_millis(400));
    assert!(d4.is_none());
}

#[test]
fn test_backoff_reset() {
    let mut backoff = ExponentialBackoff::new(100, 2);

    backoff.next_delay();
    backoff.next_delay();
    assert!(backoff.next_delay().is_none());

    backoff.reset();
    assert!(backoff.next_delay().is_some());
}

#[test]
fn backoff_delay_is_capped_at_a_minute() {
    let mut backoff = ExponentialBackoff::new(1000, 10);
    let delays: Vec<u64> = (0..10).map(|_| backoff.next_delay().unwrap()).collect();
    assert_eq!(delays, vec![1000, 2000, 4000, 8000, 16000, 32000, 60000, 60000, 60000, 60000]);
    assert!(!backoff.has_attempts());
    let mut huge = ExponentialBackoff::new(u64::MAX, 2);
    assert_eq!(huge.next_delay(), Some(60000));
    assert!(huge.has_attempts());
}

#[test]
fn test_sync_config_master() {
    let config = SyncConfig::master(60, 10);
    assert_eq!(config.role, ReplicationRole::Master);
    assert_eq!(config.sync_interval_secs, 60);
    assert_eq!(config.snapshot_retention, 10);
    assert!(config.auto_sync_enabled);
}

#[test]
fn test_sync_config_replica() {
    let config = SyncConfig::replica(30);
    assert_eq!(config.role, ReplicationRole::Replica);
    assert_eq!(config.sync_interval_secs, 30);
    assert_eq!(config.snapshot_retention, 0);
    assert!(config.auto_sync_enabled);
}
