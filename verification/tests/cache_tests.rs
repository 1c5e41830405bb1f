use pog::cache::LineCache;

#[test]
fn test_chunk_start_calculation() {
    assert_eq!(LineCache::chunk_start_for_line(0), 0);
    assert_eq!(LineCache::chunk_start_for_line(499), 0);
    assert_eq!(LineCache::chunk_start_for_line(500), 500);
    assert_eq!(LineCache::chunk_start_for_line(501), 500);
    assert_eq!(LineCache::chunk_start_for_line(1000), 1000);
}

#[test]
fn test_cache_insert_and_get() {
    let mut cache = LineCache::new(5);
    let lines: Vec<String> = (0..500).map(|i| format!("line {}", i)).collect();
    cache.insert_chunk(0, lines);

    assert!(cache.contains_line(0));
    assert!(cache.contains_line(499));
    assert!(!cache.contains_line(500));

    assert_eq!(cache.get_line(0), Some("line 0".to_string()));
    assert_eq!(cache.get_line(499), Some("line 499".to_string()));
}

#[test]
fn test_lru_eviction() {
    let mut cache = LineCache::new(2);

    cache.insert_chunk(0, vec!["a".to_string()]);
    cache.insert_chunk(500, vec!["b".to_string()]);
    cache.insert_chunk(1000, vec!["c".to_string()]);

    assert!(!cache.contains_line(0));
    assert!(cache.contains_line(500));
    assert!(cache.contains_line(1000));
}

#[test]
fn test_lru_refresh_on_get() {
    let mut cache = LineCache::new(2);
    cache.insert_chunk(0, vec!["a".to_string()]);
    cache.insert_chunk(500, vec!["b".to_string()]);
    // Touch chunk 0 so chunk 500 becomes the oldest.
    assert_eq!(cache.get_line(0), Some("a".to_string()));
    cache.insert_chunk(1000, vec!["c".to_string()]);
    assert!(cache.contains_line(0));
    assert!(!cache.contains_line(500));
    assert!(cache.contains_line(1000));
}

#[test]
fn test_replace_existing_chunk_evicts_nothing() {
    let mut cache = LineCache::new(2);
    cache.insert_chunk(0, vec!["a".to_string()]);
    cache.insert_chunk(500, vec!["b".to_string()]);
    cache.insert_chunk(0, vec!["a2".to_string()]);
    assert!(cache.contains_line(500));
    assert_eq!(cache.get_line(0), Some("a2".to_string()));
}

#[test]
fn test_short_chunk_bounds() {
    let mut cache = LineCache::new(2);
    cache.insert_chunk(500, vec!["only".to_string()]);
    assert!(cache.contains_line(500));
    assert!(!cache.contains_line(501));
    assert_eq!(cache.get_line(501), None);
}
