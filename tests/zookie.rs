use sentinel::cache::{Cache, MemoryCache};
use sentinel::errors::SentinelError;
use sentinel::zookie::{Zookie, ZookieManager, ZookieMetadata};

#[test]
fn test_zookie_serialization() {
    let zookie = Zookie::new();
    let encoded = zookie.to_string().unwrap();
    let decoded = Zookie::from_string(&encoded).unwrap();
    assert_eq!(zookie.timestamp_micros, decoded.timestamp_micros);
}

#[test]
fn test_zookie_comparison() {
    let zookie1 = Zookie::from_timestamp(1000);
    let zookie2 = Zookie::from_timestamp(2000);

    assert_eq!(zookie1.compare_timestamp(&zookie2), -1);
    assert_eq!(zookie2.compare_timestamp(&zookie1), 1);
    assert_eq!(zookie1.compare_timestamp(&zookie1), 0);

    assert!(!zookie1.is_newer_than(&zookie2));
    assert!(zookie2.is_newer_than(&zookie1));
    assert!(zookie2.is_at_least(&zookie1));
}

#[test]
fn test_zookie_manager() {
    let mut cache = MemoryCache::new();
    let mut manager = ZookieManager::new("test-node".to_string());

    let zookie1 = manager.generate_zookie(&mut cache).unwrap();
    let zookie2 = manager.generate_zookie(&mut cache).unwrap();

    assert!(zookie2.is_newer_than(&zookie1));

    let cached = manager.get_latest_cached_zookie(&cache).unwrap();
    assert!(cached.is_some());
    assert_eq!(cached.unwrap().timestamp_micros, zookie2.timestamp_micros);
}

#[test]
fn test_consistency_check() {
    let manager = ZookieManager::new("sentinel-test".to_string());

    let write_zookie = Zookie::from_timestamp(1000);
    let read_zookie_old = Zookie::from_timestamp(500);
    let read_zookie_new = Zookie::from_timestamp(1500);

    let result = manager.ensure_consistency_after_write(&write_zookie, Some(&read_zookie_old)).unwrap();
    assert!(!result);

    let result = manager.ensure_consistency_after_write(&write_zookie, Some(&read_zookie_new)).unwrap();
    assert!(result);
}

#[test]
fn consistency_without_read_token_uses_clock() {
    let manager = ZookieManager::new("n".to_string());
    assert!(manager.ensure_consistency_after_write(&Zookie::from_timestamp(1), None).unwrap());
    assert!(!manager
        .ensure_consistency_after_write(&Zookie::from_timestamp(i64::MAX), None)
        .unwrap());
}

#[test]
fn token_round_trip_keeps_every_field() {
    let z = Zookie {
        timestamp_micros: -42,
        metadata: Some(ZookieMetadata {
            node_id: Some("node \"a\"\\b\n\u{1}é".to_string()),
            transaction_id: None,
        }),
    };
    let token = z.to_string().unwrap();
    let back = Zookie::from_string(&token).unwrap();
    assert_eq!(back.timestamp_micros, -42);
    let m = back.metadata.unwrap();
    assert_eq!(m.node_id.as_deref(), Some("node \"a\"\\b\n\u{1}é"));
    assert_eq!(m.transaction_id, None);
}

#[test]
fn token_is_base64_of_json() {
    let z = Zookie::from_timestamp(1234567890);
    let token = z.to_string().unwrap();
    // {"timestamp_micros":1234567890,"metadata":null}
    assert_eq!(token, "eyJ0aW1lc3RhbXBfbWljcm9zIjoxMjM0NTY3ODkwLCJtZXRhZGF0YSI6bnVsbH0=");
    assert_eq!(Zookie::from_string(&token).unwrap().timestamp_micros, 1234567890);
}

#[test]
fn extreme_timestamps_round_trip() {
    for ts in [i64::MIN, i64::MAX, 0, -1, 9] {
        let token = Zookie::from_timestamp(ts).to_string().unwrap();
        assert_eq!(Zookie::from_string(&token).unwrap().timestamp_micros, ts);
    }
}

#[test]
fn malformed_tokens_are_validation_errors() {
    // not base64
    assert!(matches!(Zookie::from_string("%%%"), Err(SentinelError::ValidationError { .. })));
    // base64 of "hello"
    assert!(matches!(Zookie::from_string("aGVsbG8="), Err(SentinelError::ValidationError { .. })));
    // base64 of {"timestamp_micros":99999999999999999999,"metadata":null}
    let too_big = "eyJ0aW1lc3RhbXBfbWljcm9zIjo5OTk5OTk5OTk5OTk5OTk5OTk5OSwibWV0YWRhdGEiOm51bGx9";
    assert!(matches!(Zookie::from_string(too_big), Err(SentinelError::ValidationError { .. })));
}

#[test]
fn generate_is_strictly_increasing_within_a_microsecond() {
    let mut cache = MemoryCache::new();
    let mut m = ZookieManager::starting_at("n".to_string(), i64::MAX - 2);
    let a = m.generate_zookie(&mut cache).unwrap();
    let b = m.generate_zookie(&mut cache).unwrap();
    assert_eq!(a.timestamp_micros, i64::MAX - 1);
    assert_eq!(b.timestamp_micros, i64::MAX);
    assert!(matches!(m.generate_zookie(&mut cache), Err(SentinelError::InternalError { .. })));
}

#[test]
fn next_timestamp_takes_the_clock_when_ahead() {
    let mut m = ZookieManager::starting_at("n".to_string(), 100);
    assert_eq!(m.next_timestamp(500).unwrap(), 500);
    assert_eq!(m.next_timestamp(400).unwrap(), 501);
    assert_eq!(m.next_timestamp(501).unwrap(), 502);
}

#[test]
fn generated_zookie_carries_node_and_transaction() {
    let mut cache = MemoryCache::new();
    let mut m = ZookieManager::new("node-7".to_string());
    let z = m.generate_zookie(&mut cache).unwrap();
    let meta = z.metadata.unwrap();
    assert_eq!(meta.node_id.as_deref(), Some("node-7"));
    assert_eq!(meta.transaction_id.unwrap().len(), 36);
    assert!(cache.get("zookie:latest").unwrap().is_some());
}

#[test]
fn snapshot_rejects_future_and_stale() {
    let now = 10_000_000_000;
    assert!(ZookieManager::check_snapshot(Zookie::from_timestamp(now), now).is_ok());
    assert!(matches!(
        ZookieManager::check_snapshot(Zookie::from_timestamp(now + 1), now),
        Err(SentinelError::ValidationError { .. })
    ));
    assert!(ZookieManager::check_snapshot(Zookie::from_timestamp(now - 3_600_000_000), now).is_ok());
    assert!(matches!(
        ZookieManager::check_snapshot(Zookie::from_timestamp(now - 3_600_000_001), now),
        Err(SentinelError::ValidationError { .. })
    ));
    assert!(ZookieManager::check_snapshot(Zookie::from_timestamp(i64::MIN), i64::MAX).is_err());
}

#[test]
fn validate_uses_client_token_or_generates() {
    let mut cache = MemoryCache::new();
    let mut m = ZookieManager::new("n".to_string());
    let fresh = m.validate_and_get_snapshot_time(&mut cache, None).unwrap();
    let token = fresh.to_string().unwrap();
    let again = m.validate_and_get_snapshot_time(&mut cache, Some(&token)).unwrap();
    assert_eq!(again.timestamp_micros, fresh.timestamp_micros);
    let stale = Zookie::from_timestamp(1).to_string().unwrap();
    assert!(m.validate_and_get_snapshot_time(&mut cache, Some(&stale)).is_err());
    let future = Zookie::from_timestamp(i64::MAX).to_string().unwrap();
    assert!(m.validate_and_get_snapshot_time(&mut cache, Some(&future)).is_err());
    assert!(m.validate_and_get_snapshot_time(&mut cache, Some("garbage")).is_err());
}

#[test]
fn snapshot_zookie_has_given_time() {
    let m = ZookieManager::new("n".to_string());
    let z = m.create_snapshot_zookie(77);
    assert_eq!(z.timestamp_micros, 77);
    assert!(z.metadata.is_none());
}

#[test]
fn consistency_at_a_clock_reading() {
    assert!(ZookieManager::consistent_at(10, Some(10), 0));
    assert!(!ZookieManager::consistent_at(10, Some(9), 100));
    assert!(ZookieManager::consistent_at(10, None, 10));
    assert!(!ZookieManager::consistent_at(10, None, 9));
}
