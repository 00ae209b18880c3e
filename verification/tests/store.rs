use redis_starter_rust::store::{Store, NANOS_PER_MILLI};

const MILLI: u64 = 1_000_000;

#[test]
fn nanos_per_milli_is_a_million() {
    assert_eq!(NANOS_PER_MILLI, 1_000_000);
}

#[test]
fn new_store_is_empty() {
    let mut store = Store::new();
    assert_eq!(store.get("k", 0), None);
    assert_eq!(store.get("", u64::MAX), None);
}

#[test]
fn value_without_ttl_stays() {
    let mut store = Store::new();
    store.set("k".to_string(), b"v".to_vec(), None, 5);
    assert_eq!(store.get("k", 5), Some(b"v".to_vec()));
    assert_eq!(store.get("k", u64::MAX), Some(b"v".to_vec()));
    assert_eq!(store.get("K", 5), None);
}

#[test]
fn value_with_ttl_is_there_until_the_deadline_and_gone_after() {
    let mut store = Store::new();
    let start = 1_000 * MILLI;
    store.set("k".to_string(), b"v".to_vec(), Some(10), start);
    assert_eq!(store.get("k", start), Some(b"v".to_vec()));
    assert_eq!(store.get("k", start + 10 * MILLI - 1), Some(b"v".to_vec()));
    assert_eq!(store.get("k", start + 10 * MILLI), None);
    assert_eq!(store.get("k", start + 10 * MILLI), None);
}

#[test]
fn expired_entry_is_removed_not_hidden() {
    let mut store = Store::new();
    store.set("k".to_string(), b"v".to_vec(), Some(10), 0);
    assert_eq!(store.get("k", 11 * MILLI), None);
    assert_eq!(store.get("k", 0), None);
    assert_eq!(store.get("k", 5 * MILLI), None);
}

#[test]
fn entry_not_asked_for_is_not_swept() {
    let mut store = Store::new();
    store.set("k".to_string(), b"v".to_vec(), Some(10), 0);
    store.set("other".to_string(), b"w".to_vec(), None, 0);
    assert_eq!(store.get("other", 20 * MILLI), Some(b"w".to_vec()));
    assert_eq!(store.get("k", 9 * MILLI), Some(b"v".to_vec()));
}

#[test]
fn zero_ttl_expires_at_once() {
    let mut store = Store::new();
    store.set("k".to_string(), b"v".to_vec(), Some(0), 7);
    assert_eq!(store.get("k", 7), None);
}

#[test]
fn overwrite_replaces_value_and_ttl() {
    let mut store = Store::new();
    store.set("k".to_string(), b"a".to_vec(), None, 0);
    store.set("k".to_string(), b"b".to_vec(), Some(10), 0);
    assert_eq!(store.get("k", 0), Some(b"b".to_vec()));
    assert_eq!(store.get("k", 10 * MILLI - 1), Some(b"b".to_vec()));
    assert_eq!(store.get("k", 10 * MILLI), None);
}

#[test]
fn overwrite_without_ttl_clears_the_deadline() {
    let mut store = Store::new();
    store.set("k".to_string(), b"a".to_vec(), Some(10), 0);
    store.set("k".to_string(), b"b".to_vec(), None, 1);
    assert_eq!(store.get("k", 100 * MILLI), Some(b"b".to_vec()));
}

#[test]
fn overwrite_counts_the_ttl_from_the_later_write() {
    let mut store = Store::new();
    store.set("k".to_string(), b"a".to_vec(), Some(10), 0);
    store.set("k".to_string(), b"b".to_vec(), Some(10), 5 * MILLI);
    assert_eq!(store.get("k", 12 * MILLI), Some(b"b".to_vec()));
    assert_eq!(store.get("k", 15 * MILLI), None);
}

#[test]
fn largest_ttl_at_the_latest_reading_does_not_overflow() {
    let mut store = Store::new();
    store.set("k".to_string(), b"v".to_vec(), Some(u64::MAX), u64::MAX);
    assert_eq!(store.get("k", u64::MAX), Some(b"v".to_vec()));
    store.set("z".to_string(), b"v".to_vec(), Some(0), u64::MAX);
    assert_eq!(store.get("z", u64::MAX), None);
}

#[test]
fn keys_are_kept_apart() {
    let mut store = Store::new();
    store.set("a".to_string(), b"1".to_vec(), None, 0);
    store.set("b".to_string(), b"2".to_vec(), Some(1), 0);
    store.set("".to_string(), b"3".to_vec(), None, 0);
    assert_eq!(store.get("b", MILLI), None);
    assert_eq!(store.get("a", MILLI), Some(b"1".to_vec()));
    assert_eq!(store.get("", MILLI), Some(b"3".to_vec()));
}

#[test]
fn values_are_binary_safe() {
    let mut store = Store::new();
    store.set("k".to_string(), vec![0, 13, 10, 255], None, 0);
    assert_eq!(store.get("k", 0), Some(vec![0, 13, 10, 255]));
    store.set("k".to_string(), vec![], None, 0);
    assert_eq!(store.get("k", 0), Some(vec![]));
}
