use telegramfs::cache::{ChunkCache, Fetch};
use telegramfs::config::EvictionPolicy;

#[test]
fn lru_cache_evicts_least_recently_read() {
    let mut c = ChunkCache::new(10, EvictionPolicy::Lru);
    assert!(c.insert("a".to_string(), vec![1; 4]));
    assert!(c.insert("b".to_string(), vec![2; 4]));
    assert_eq!(c.get("a"), Some(vec![1; 4]));
    assert!(c.insert("c".to_string(), vec![3; 4]));
    assert_eq!(c.resident_bytes(), 8);
    assert!(c.get("b").is_none());
    assert!(c.get("a").is_some());
    assert!(c.get("c").is_some());
}

#[test]
fn fifo_cache_evicts_oldest_insert() {
    let mut c = ChunkCache::new(10, EvictionPolicy::Fifo);
    c.insert("a".to_string(), vec![1; 4]);
    c.insert("b".to_string(), vec![2; 4]);
    c.get("a");
    c.insert("c".to_string(), vec![3; 4]);
    assert!(c.get("a").is_none());
    assert!(c.get("b").is_some());
}

#[test]
fn lfu_cache_evicts_least_read() {
    let mut c = ChunkCache::new(10, EvictionPolicy::Lfu);
    c.insert("a".to_string(), vec![1; 4]);
    c.insert("b".to_string(), vec![2; 4]);
    c.get("a");
    c.get("a");
    c.get("b");
    c.insert("c".to_string(), vec![3; 4]);
    assert!(c.get("b").is_none());
    assert!(c.get("a").is_some());
}

#[test]
fn cache_never_exceeds_its_bound() {
    let mut c = ChunkCache::new(100, EvictionPolicy::Lru);
    for i in 0..50u32 {
        c.insert(format!("k{}", i), vec![0; (i as usize * 7) % 40]);
        assert!(c.resident_bytes() <= 100);
    }
    assert!(!c.insert("huge".to_string(), vec![0; 101]));
    assert!(c.get("huge").is_none());
    assert!(c.resident_bytes() <= 100);
}

#[test]
fn replacing_a_chunk_counts_its_bytes_once() {
    let mut c = ChunkCache::new(10, EvictionPolicy::Lru);
    c.insert("a".to_string(), vec![1; 6]);
    c.insert("a".to_string(), vec![2; 6]);
    assert_eq!(c.len(), 1);
    assert_eq!(c.resident_bytes(), 6);
    assert_eq!(c.get("a"), Some(vec![2; 6]));
}

#[test]
fn one_fetch_per_chunk_at_a_time() {
    let mut c = ChunkCache::new(64, EvictionPolicy::Lru);
    assert_eq!(c.begin_fetch("x"), Fetch::Start);
    assert_eq!(c.begin_fetch("x"), Fetch::Wait);
    assert_eq!(c.begin_fetch("y"), Fetch::Start);
    assert!(c.complete_fetch("x".to_string(), vec![9; 3]));
    assert_eq!(c.begin_fetch("x"), Fetch::Cached(vec![9; 3]));
    assert_eq!(c.begin_fetch("y"), Fetch::Wait);
    assert!(!c.complete_fetch("y".to_string(), vec![0; 65]));
    assert_eq!(c.begin_fetch("y"), Fetch::Start);
}
