//! The bounded LRU cache: capacity, eviction order, promotion.

use wess::cache::Cache;

#[test]
fn test_cache_never_exceeds_capacity() {
    let mut c: Cache<u32> = Cache::new(3);
    for i in 0..8u32 {
        c.put(format!("id-{}", i), i);
        assert!(c.len() <= 3);
    }
    assert_eq!(c.len(), 3);
    assert_eq!(c.capacity(), 3);
}

#[test]
fn test_least_recent_is_evicted() {
    let mut c: Cache<u32> = Cache::new(2);
    c.put("a".to_string(), 1);
    c.put("b".to_string(), 2);
    c.put("c".to_string(), 3);
    assert!(c.get("a").is_none());
    assert_eq!(c.get("b").copied(), Some(2));
    assert_eq!(c.get("c").copied(), Some(3));
}

#[test]
fn test_get_promotes_to_most_recent() {
    let mut c: Cache<u32> = Cache::new(2);
    c.put("a".to_string(), 1);
    c.put("b".to_string(), 2);
    assert_eq!(c.get("a").copied(), Some(1));
    c.put("c".to_string(), 3);
    assert_eq!(c.get("a").copied(), Some(1));
    assert!(c.get("b").is_none());
}

#[test]
fn test_put_existing_key_replaces_payload() {
    let mut c: Cache<u32> = Cache::new(2);
    c.put("a".to_string(), 1);
    c.put("a".to_string(), 9);
    assert_eq!(c.len(), 1);
    assert_eq!(c.get("a").copied(), Some(9));
}

#[test]
fn test_del_removes_entry() {
    let mut c: Cache<u32> = Cache::new(2);
    c.put("a".to_string(), 1);
    c.del("a");
    assert!(c.get("a").is_none());
    assert_eq!(c.len(), 0);
    c.del("a");
    assert_eq!(c.len(), 0);
}
