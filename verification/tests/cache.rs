use hotpocket::cache::{is_expired, ResponseCache, Timestamp};

fn at(secs: i64, nanos: u32) -> Timestamp {
    Timestamp { secs, nanos }
}

#[test]
fn new_cache_is_empty() {
    let cache = ResponseCache::new();
    assert_eq!(cache.len(), 0);
    assert_eq!(cache.get(b"k"), None);
    assert_eq!(cache.created_at(b"k"), None);
}

#[test]
fn put_then_get_gives_the_response() {
    let mut cache = ResponseCache::new();
    cache.put(b"k1".to_vec(), b"first".to_vec(), at(10, 0));
    cache.put(b"k2".to_vec(), b"second".to_vec(), at(11, 5));
    assert_eq!(cache.len(), 2);
    assert_eq!(cache.get(b"k1"), Some(&b"first".to_vec()));
    assert_eq!(cache.get(b"k2"), Some(&b"second".to_vec()));
    assert_eq!(cache.created_at(b"k2"), Some(at(11, 5)));
    assert_eq!(cache.get(b"k"), None);
    assert_eq!(cache.get(b"k12"), None);
}

#[test]
fn put_overwrites_the_entry_of_the_same_fingerprint() {
    let mut cache = ResponseCache::new();
    cache.put(b"k".to_vec(), b"old".to_vec(), at(10, 0));
    cache.put(b"k".to_vec(), b"new".to_vec(), at(20, 0));
    assert_eq!(cache.len(), 1);
    assert_eq!(cache.get(b"k"), Some(&b"new".to_vec()));
    assert_eq!(cache.created_at(b"k"), Some(at(20, 0)));
}

#[test]
fn expiry_is_age_beyond_the_retention_window() {
    assert!(!is_expired(at(100, 0), at(100, 0), 60));
    assert!(!is_expired(at(100, 0), at(159, 999_999_999), 60));
    assert!(!is_expired(at(100, 0), at(160, 0), 60));
    assert!(is_expired(at(100, 0), at(160, 1), 60));
    assert!(is_expired(at(100, 500), at(161, 0), 60));
    assert!(!is_expired(at(100, 500), at(160, 500), 60));
    assert!(is_expired(at(100, 500), at(160, 501), 60));
    assert!(!is_expired(at(100, 0), at(50, 0), 60));
    assert!(is_expired(at(0, 0), at(0, 1), 0));
    assert!(!is_expired(at(0, 0), at(0, 0), 0));
    assert!(is_expired(at(-10, 0), at(51, 0), 60));
}

#[test]
fn expiry_at_the_limits_of_the_types() {
    assert!(!is_expired(at(i64::MIN, 0), at(i64::MAX, 0), u64::MAX));
    assert!(is_expired(at(i64::MIN, 0), at(i64::MAX, 1), u64::MAX));
    assert!(is_expired(at(i64::MIN, 0), at(i64::MAX, u32::MAX), 0));
    assert!(!is_expired(at(i64::MAX, u32::MAX), at(i64::MIN, 0), 0));
}

#[test]
fn sweep_removes_the_aged_entries_only() {
    let mut cache = ResponseCache::new();
    cache.put(b"old".to_vec(), b"1".to_vec(), at(100, 0));
    cache.put(b"edge".to_vec(), b"2".to_vec(), at(140, 0));
    cache.put(b"young".to_vec(), b"3".to_vec(), at(190, 0));
    cache.put(b"older".to_vec(), b"4".to_vec(), at(139, 999_999_999));
    cache.sweep(at(200, 0), 60);
    assert_eq!(cache.len(), 2);
    assert_eq!(cache.get(b"old"), None);
    assert_eq!(cache.get(b"older"), None);
    assert_eq!(cache.get(b"edge"), Some(&b"2".to_vec()));
    assert_eq!(cache.created_at(b"edge"), Some(at(140, 0)));
    assert_eq!(cache.get(b"young"), Some(&b"3".to_vec()));
}

#[test]
fn sweep_of_an_empty_cache_leaves_it_empty() {
    let mut cache = ResponseCache::new();
    cache.sweep(at(1, 0), 0);
    assert_eq!(cache.len(), 0);
}

#[test]
fn sweep_by_the_clock_evicts_what_is_long_past() {
    let mut cache = ResponseCache::new();
    cache.put(b"ancient".to_vec(), b"1".to_vec(), at(0, 0));
    cache.put(b"future".to_vec(), b"2".to_vec(), at(i64::MAX, 0));
    cache.sweep_now(60);
    assert_eq!(cache.get(b"ancient"), None);
    assert_eq!(cache.get(b"future"), Some(&b"2".to_vec()));
}
