use flashield_lite::lru::{CacheValue, LruCache};

#[derive(Clone, Debug, PartialEq)]
struct TestValue(u64);

impl CacheValue for TestValue {
    fn byte_size(&self) -> u64 {
        self.0
    }

    fn size(&self) -> u64 {
        self.0
    }
}

#[test]
fn evicts_least_recently_used_entry() {
    let mut cache = LruCache::new(4);
    assert!(cache.insert("a".to_string(), TestValue(2)).is_empty());
    assert!(cache.insert("b".to_string(), TestValue(2)).is_empty());
    assert_eq!(cache.get("a"), Some(TestValue(2)));

    let evicted = cache.insert("c".to_string(), TestValue(2));

    assert_eq!(evicted, vec![("b".to_string(), TestValue(2))]);
    assert_eq!(cache.get("a"), Some(TestValue(2)));
    assert_eq!(cache.get("b"), None);
    assert_eq!(cache.get("c"), Some(TestValue(2)));
}

#[test]
fn insert_then_get_returns_the_value() {
    let mut cache = LruCache::new(10);
    cache.insert("k".to_string(), TestValue(3));
    cache.insert("k".to_string(), TestValue(7));
    assert_eq!(cache.get("k"), Some(TestValue(7)));
    assert_eq!(cache.len(), 1);
}

#[test]
fn oversized_value_is_not_stored_and_drops_old_copy() {
    let mut cache = LruCache::new(4);
    cache.insert("k".to_string(), TestValue(2));
    let evicted = cache.insert("k".to_string(), TestValue(5));
    assert!(evicted.is_empty());
    assert_eq!(cache.get("k"), None);
    assert_eq!(cache.len(), 0);
}

#[test]
fn remove_then_get_misses() {
    let mut cache = LruCache::new(10);
    cache.insert("a".to_string(), TestValue(1));
    cache.insert("b".to_string(), TestValue(1));
    assert_eq!(cache.remove("a"), Some(TestValue(1)));
    assert_eq!(cache.remove("a"), None);
    assert_eq!(cache.get("a"), None);
    assert_eq!(cache.get("b"), Some(TestValue(1)));
}

#[test]
fn eviction_takes_oldest_first_until_the_new_value_fits() {
    let mut cache = LruCache::new(6);
    cache.insert("a".to_string(), TestValue(2));
    cache.insert("b".to_string(), TestValue(2));
    cache.insert("c".to_string(), TestValue(2));
    let evicted = cache.insert("d".to_string(), TestValue(5));
    assert_eq!(
        evicted,
        vec![
            ("a".to_string(), TestValue(2)),
            ("b".to_string(), TestValue(2)),
            ("c".to_string(), TestValue(2)),
        ]
    );
    assert_eq!(cache.get("d"), Some(TestValue(5)));
}

#[test]
fn reinserting_a_key_makes_room_from_its_old_copy() {
    let mut cache = LruCache::new(4);
    cache.insert("a".to_string(), TestValue(2));
    cache.insert("b".to_string(), TestValue(2));
    let evicted = cache.insert("a".to_string(), TestValue(2));
    assert!(evicted.is_empty());
    assert_eq!(cache.len(), 2);
}
