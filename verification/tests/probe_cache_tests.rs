use folder_auto_banner::probe_cache::{CacheKey, ProbeCache, MAX_ENTRIES, PROBE_KIND_FILE};

fn key(p: &str, size: u64, nanos: i128) -> CacheKey {
    CacheKey { path: p.to_string(), size, mtime_nanos: Some(nanos), kind: PROBE_KIND_FILE }
}

#[test]
fn put_and_get() {
    let mut cache = ProbeCache::new();
    let k = key("/tmp/a.png", 100, 1);
    cache.put(k.clone(), "10x10".to_string());
    assert_eq!(cache.get(&k).as_deref(), Some("10x10"));
}

#[test]
fn missing_returns_none() {
    let cache = ProbeCache::new();
    let k = key("/tmp/missing.png", 0, 0);
    assert_eq!(cache.get(&k), None);
}

#[test]
fn different_size_same_path_is_distinct() {
    let mut cache = ProbeCache::new();
    let k1 = key("/tmp/x.png", 100, 1);
    let k2 = key("/tmp/x.png", 200, 1);
    cache.put(k1.clone(), "old".to_string());
    cache.put(k2.clone(), "new".to_string());
    assert_eq!(cache.get(&k1).as_deref(), Some("old"));
    assert_eq!(cache.get(&k2).as_deref(), Some("new"));
}

#[test]
fn different_kinds_for_same_path_are_distinct() {
    let mut cache = ProbeCache::new();
    let file_key = CacheKey::for_file("/tmp/x", 100, None);
    let dir_key = CacheKey::for_dir("/tmp/x", 100, None);
    cache.put(file_key.clone(), "1920x1080".to_string());
    cache.put(dir_key.clone(), "5".to_string());
    assert_eq!(cache.get(&file_key).as_deref(), Some("1920x1080"));
    assert_eq!(cache.get(&dir_key).as_deref(), Some("5"));
}

#[test]
fn evicts_oldest_when_full() {
    let mut cache = ProbeCache::new();
    for i in 0..(MAX_ENTRIES + 100) {
        let k = CacheKey {
            path: format!("/tmp/evict-{}.png", i),
            size: i as u64,
            mtime_nanos: Some(i as i128),
            kind: PROBE_KIND_FILE,
        };
        cache.put(k, format!("{}", i));
    }
    assert!(cache.len() <= MAX_ENTRIES);
    let first = key("/tmp/evict-0.png", 0, 0);
    assert_eq!(cache.get(&first), None);
    let last = MAX_ENTRIES + 99;
    let k = CacheKey {
        path: format!("/tmp/evict-{}.png", last),
        size: last as u64,
        mtime_nanos: Some(last as i128),
        kind: PROBE_KIND_FILE,
    };
    assert_eq!(cache.get(&k), Some(format!("{}", last)));
}

#[test]
fn put_replaces_value_of_same_key() {
    let mut cache = ProbeCache::new();
    let k = key("/tmp/r.png", 1, 1);
    cache.put(k.clone(), "a".to_string());
    cache.put(k.clone(), "b".to_string());
    assert_eq!(cache.get(&k).as_deref(), Some("b"));
    assert_eq!(cache.len(), 1);
}

#[test]
fn full_cache_evicts_only_the_oldest_entry() {
    let mut cache = ProbeCache::new();
    for i in 0..(MAX_ENTRIES + 1) {
        let k = CacheKey {
            path: format!("/tmp/full-{}.png", i),
            size: i as u64,
            mtime_nanos: Some(i as i128),
            kind: PROBE_KIND_FILE,
        };
        cache.put(k, format!("{}", i));
    }
    assert_eq!(cache.len(), MAX_ENTRIES);
    assert_eq!(cache.get(&key("/tmp/full-0.png", 0, 0)), None);
    assert_eq!(cache.get(&key("/tmp/full-1.png", 1, 1)).as_deref(), Some("1"));
}
