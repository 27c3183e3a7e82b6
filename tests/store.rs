use tracing_store::{DailyTracingKey, DailyTracingKeyStore, FetchError, InvalidDailyTracingKey, InvalidRpi, InvalidTracingKey, Rpi, TracingKey};

fn key(b: u8) -> DailyTracingKey {
    DailyTracingKey::from_bytes(&[b; 16]).unwrap()
}

#[test]
fn codec_round_trip() {
    let bytes: Vec<u8> = (0u8..16).collect();
    assert_eq!(DailyTracingKey::from_bytes(&bytes).unwrap().as_bytes(), &bytes[..]);
    assert_eq!(Rpi::from_bytes(&bytes).unwrap().as_bytes(), &bytes[..]);
    let long: Vec<u8> = (0u8..32).collect();
    assert_eq!(TracingKey::from_bytes(&long).unwrap().as_bytes(), &long[..]);
}

#[test]
fn codec_wrong_length() {
    assert_eq!(DailyTracingKey::from_bytes(&[0u8; 15]).unwrap_err(), InvalidDailyTracingKey);
    assert_eq!(DailyTracingKey::from_bytes(&[0u8; 17]).unwrap_err(), InvalidDailyTracingKey);
    assert_eq!(Rpi::from_bytes(&[]).unwrap_err(), InvalidRpi);
    assert_eq!(TracingKey::from_bytes(&[0u8; 16]).unwrap_err(), InvalidTracingKey);
}

#[test]
fn dedup_within_window() {
    let mut s = DailyTracingKeyStore::new();
    assert!(s.add_daily_tracing_key(95, key(1), 100));
    assert!(!s.add_daily_tracing_key(96, key(1), 100));
    assert!(!s.add_daily_tracing_key(95, key(1), 100));
    assert_eq!(s.len(), 1);
}

#[test]
fn dedup_expires_after_window() {
    let mut s = DailyTracingKeyStore::new();
    assert!(s.add_daily_tracing_key(50, key(1), 60));
    assert!(s.has_daily_tracing_key(&key(1), 60));
    assert!(!s.has_daily_tracing_key(&key(1), 72));
    assert!(s.add_daily_tracing_key(72, key(1), 72));
}

#[test]
fn today_is_not_in_dedup_window() {
    let mut s = DailyTracingKeyStore::new();
    assert!(s.add_daily_tracing_key(100, key(2), 100));
    assert!(!s.has_daily_tracing_key(&key(2), 100));
}

#[test]
fn fetch_range_bound() {
    let s = DailyTracingKeyStore::new();
    assert_eq!(s.fetch_buckets(0, 505).unwrap_err(), FetchError::RangeTooFar);
    assert!(s.fetch_buckets(1, 505).unwrap().is_empty());
    assert!(s.fetch_buckets(101, 100).unwrap().is_empty());
}

#[test]
fn end_to_end_example() {
    let mut s = DailyTracingKeyStore::new();
    assert!(s.add_daily_tracing_key(95, key(7), 100));
    assert!(!s.add_daily_tracing_key(96, key(7), 100));
    let got = s.fetch_buckets(95, 100).unwrap();
    assert_eq!(got.len(), 1);
    assert_eq!(got[0].as_bytes(), &[7u8; 16][..]);
}

#[test]
fn fetch_keeps_duplicates_across_days() {
    let mut s = DailyTracingKeyStore::new();
    s.load_key(10, key(3));
    s.load_key(11, key(3));
    s.load_key(30, key(4));
    let got = s.fetch_buckets(10, 20).unwrap();
    assert_eq!(got.len(), 2);
}

#[test]
fn same_day_insert_is_held_once() {
    let mut s = DailyTracingKeyStore::new();
    assert!(s.add_daily_tracing_key(100, key(8), 100));
    assert!(s.add_daily_tracing_key(100, key(8), 100));
    assert_eq!(s.len(), 1);
    assert_eq!(s.fetch_buckets(100, 100).unwrap().len(), 1);
}
