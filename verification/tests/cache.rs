use std::rc::Rc;

use monadb::cache::Cache;

#[test]
fn get_returns_what_put_stored() {
    let mut c: Cache<i32> = Cache::new(2);
    let v = c.put("select 1", 10);
    assert_eq!(*v, 10);
    assert_eq!(c.get("select 1").map(|r| *r), Some(10));
    assert!(c.get("select 2").is_none());
    assert!(c.is_cached("select 1"));
}

#[test]
fn put_replaces_a_key() {
    let mut c: Cache<&str> = Cache::new(4);
    c.put("k", "old");
    c.put("k", "new");
    assert_eq!(c.map.len(), 1);
    assert_eq!(c.get("k").map(|r| *r), Some("new"));
}

#[test]
fn overflow_evicts_the_least_recently_used() {
    let mut c: Cache<u8> = Cache::new(2);
    c.put("a", 1);
    c.put("b", 2);
    // Touching `a` makes `b` the least recently used.
    assert!(c.get("a").is_some());
    c.put("c", 3);
    assert_eq!(c.map.len(), 2);
    assert!(c.is_cached("a"));
    assert!(!c.is_cached("b"));
    assert!(c.is_cached("c"));
}

#[test]
fn zero_capacity_keeps_nothing() {
    let mut c: Cache<u8> = Cache::new(0);
    let v = c.put("a", 1);
    assert_eq!(*v, 1);
    assert!(!c.is_cached("a"));
}

#[test]
fn keys_are_byte_exact() {
    let mut c: Cache<u8> = Cache::new(4);
    c.put("select 1", 1);
    assert!(c.get("select  1").is_none());
}

#[test]
fn del_drops_only_its_key() {
    let mut c: Cache<u8> = Cache::new(4);
    c.put("a", 1);
    c.put("b", 2);
    c.del("a");
    assert!(!c.is_cached("a"));
    assert!(c.is_cached("b"));
    c.del("zzz");
    assert_eq!(c.map.len(), 1);
}

#[test]
fn values_are_shared() {
    let mut c: Cache<String> = Cache::new(1);
    let put = c.put("k", "plan".to_string());
    let got = c.get("k").unwrap();
    assert!(Rc::ptr_eq(&put, &got));
}
