use telegramfs::lru::LruCache;

#[test]
fn test_insert_and_pop() {
    let mut lru = LruCache::new();

    lru.insert("a");
    lru.insert("b");
    lru.insert("c");

    assert_eq!(lru.len(), 3);
    assert_eq!(lru.pop_oldest(), Some("a".to_string()));
    assert_eq!(lru.pop_oldest(), Some("b".to_string()));
    assert_eq!(lru.pop_oldest(), Some("c".to_string()));
    assert_eq!(lru.pop_oldest(), None);
}

#[test]
fn test_touch_updates_order() {
    let mut lru = LruCache::new();

    lru.insert("a");
    lru.insert("b");
    lru.insert("c");

    lru.touch(&"a");

    assert_eq!(lru.pop_oldest(), Some("b".to_string()));
    assert_eq!(lru.pop_oldest(), Some("c".to_string()));
    assert_eq!(lru.pop_oldest(), Some("a".to_string()));
}

#[test]
fn test_remove() {
    let mut lru = LruCache::new();

    lru.insert("a");
    lru.insert("b");
    lru.insert("c");

    lru.remove(&"b");

    assert_eq!(lru.len(), 2);
    assert_eq!(lru.pop_oldest(), Some("a".to_string()));
    assert_eq!(lru.pop_oldest(), Some("c".to_string()));
}

#[test]
fn test_clear() {
    let mut lru = LruCache::new();

    lru.insert("a");
    lru.insert("b");

    lru.clear();

    assert!(lru.is_empty());
    assert_eq!(lru.pop_oldest(), None);
}

#[test]
fn lru_reinsert_moves_key_to_newest_once() {
    let mut lru = LruCache::new();
    lru.insert("a");
    lru.insert("b");
    lru.insert("a");
    assert_eq!(lru.len(), 2);
    assert_eq!(lru.pop_oldest(), Some("b".to_string()));
    assert_eq!(lru.pop_oldest(), Some("a".to_string()));
    assert_eq!(lru.pop_oldest(), None);
}

#[test]
fn lru_touch_of_unknown_key_and_compact_change_nothing() {
    let mut lru = LruCache::new();
    lru.insert("a");
    lru.touch(&"zzz");
    lru.compact();
    assert_eq!(lru.len(), 1);
    assert_eq!(lru.pop_oldest(), Some("a".to_string()));
}

#[test]
fn lru_repeated_touch_evicts_each_key_once() {
    let mut lru = LruCache::new();
    lru.insert("a");
    lru.insert("b");
    for _ in 0..5 {
        lru.touch(&"a");
    }
    assert_eq!(lru.pop_oldest(), Some("b".to_string()));
    assert_eq!(lru.pop_oldest(), Some("a".to_string()));
    assert_eq!(lru.pop_oldest(), None);
}
