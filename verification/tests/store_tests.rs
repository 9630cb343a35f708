use mini_redis::keyorder::compare_keys;
use mini_redis::keyorder::KeyOrder;
use mini_redis::store::Entry;
use mini_redis::store::Store;
use std::time::SystemTime;
use std::time::UNIX_EPOCH;

const SEC: u128 = 1_000_000_000;

fn now_nanos() -> u128 {
    SystemTime::now().duration_since(UNIX_EPOCH).unwrap().as_nanos()
}

#[test]
fn test_entry_no_expiry() {
    let entry = Entry::new("value".to_string());
    assert!(!entry.is_expired());
    assert_eq!(entry.ttl(), -1);
}

#[test]
fn test_entry_with_expiry() {
    let future = now_nanos() + 10 * SEC;
    let entry = Entry::with_expiry("value".to_string(), future);
    assert!(!entry.is_expired());
    assert!(entry.ttl() > 0 && entry.ttl() <= 10);
}

#[test]
fn test_entry_expired() {
    let past = now_nanos() - SEC;
    let entry = Entry::with_expiry("value".to_string(), past);
    assert!(entry.is_expired());
    assert_eq!(entry.ttl(), -2);
}

#[test]
fn ttl_rounds_up_to_whole_seconds() {
    let e = Entry::with_expiry("v".to_string(), 100 * SEC);
    assert_eq!(e.ttl_at(90 * SEC), 10);
    assert_eq!(e.ttl_at(90 * SEC + 1), 10);
    assert_eq!(e.ttl_at(91 * SEC - 1), 10);
    assert_eq!(e.ttl_at(100 * SEC - 1), 1);
    assert_eq!(e.ttl_at(100 * SEC), -2);
    assert_eq!(e.ttl_at(200 * SEC), -2);
}

#[test]
fn ttl_saturates_at_i64_max() {
    let e = Entry::with_expiry("v".to_string(), u128::MAX);
    assert_eq!(e.ttl_at(0), i64::MAX);
}

#[test]
fn expiry_is_reached_at_the_deadline() {
    let e = Entry::with_expiry("v".to_string(), 5);
    assert!(!e.is_expired_at(4));
    assert!(e.is_expired_at(5));
    assert!(e.is_expired_at(6));
    let never = Entry::new("v".to_string());
    assert!(!never.is_expired_at(u128::MAX));
    assert_eq!(never.ttl_at(u128::MAX), -1);
}

#[test]
fn store_insert_get_remove() {
    let mut s = Store::new();
    assert!(s.get("a").is_none());
    s.insert("b".to_string(), Entry::new("2".to_string()));
    s.insert("a".to_string(), Entry::new("1".to_string()));
    s.insert("b".to_string(), Entry::new("3".to_string()));
    assert_eq!(s.get("a").unwrap().value, "1");
    assert_eq!(s.get("b").unwrap().value, "3");
    let removed = s.remove("a").unwrap();
    assert_eq!(removed.value, "1");
    assert!(s.get("a").is_none());
    assert!(s.remove("a").is_none());
}

#[test]
fn live_keys_are_sorted_by_bytes_and_skip_expired() {
    let mut s = Store::new();
    s.insert("zeta".to_string(), Entry::new("1".to_string()));
    s.insert("Alpha".to_string(), Entry::new("1".to_string()));
    s.insert("é".to_string(), Entry::new("1".to_string()));
    s.insert("ab".to_string(), Entry::new("1".to_string()));
    s.insert("a".to_string(), Entry::new("1".to_string()));
    s.insert("old".to_string(), Entry::with_expiry("1".to_string(), 10));
    let keys = s.live_keys(10);
    assert_eq!(keys, vec!["Alpha", "a", "ab", "zeta", "é"]);
    let keys = s.live_keys(9);
    assert_eq!(keys, vec!["Alpha", "a", "ab", "old", "zeta", "é"]);
}

#[test]
fn set_expiry_only_touches_existing_keys() {
    let mut s = Store::new();
    s.insert("k".to_string(), Entry::new("v".to_string()));
    assert!(s.set_expiry("k", 7));
    assert_eq!(s.get("k").unwrap().expires_at, Some(7));
    assert_eq!(s.get("k").unwrap().value, "v");
    assert!(!s.set_expiry("missing", 7));
    assert!(s.get("missing").is_none());
}

#[test]
fn remove_expired_keeps_live_entries() {
    let mut s = Store::new();
    s.insert("a".to_string(), Entry::with_expiry("1".to_string(), 5));
    s.insert("b".to_string(), Entry::new("2".to_string()));
    s.insert("c".to_string(), Entry::with_expiry("3".to_string(), 50));
    s.remove_expired(5);
    assert!(s.get("a").is_none());
    assert_eq!(s.get("b").unwrap().value, "2");
    assert_eq!(s.get("c").unwrap().value, "3");
    assert_eq!(s.live_keys(0), vec!["b", "c"]);
}

#[test]
fn purge_uses_the_clock() {
    let mut s = Store::new();
    s.insert("gone".to_string(), Entry::with_expiry("1".to_string(), now_nanos() - SEC));
    s.insert("kept".to_string(), Entry::with_expiry("1".to_string(), now_nanos() + 100 * SEC));
    mini_redis::expiry::purge_expired(&mut s);
    assert!(s.get("gone").is_none());
    assert!(s.get("kept").is_some());
}

#[test]
fn compare_keys_orders_by_utf8_bytes() {
    assert_eq!(compare_keys("a", "b"), KeyOrder::Less);
    assert_eq!(compare_keys("b", "a"), KeyOrder::Greater);
    assert_eq!(compare_keys("ab", "ab"), KeyOrder::Equal);
    assert_eq!(compare_keys("a", "ab"), KeyOrder::Less);
    assert_eq!(compare_keys("", ""), KeyOrder::Equal);
    assert_eq!(compare_keys("z", "é"), KeyOrder::Less);
    assert_eq!(compare_keys("Z", "a"), KeyOrder::Less);
}
