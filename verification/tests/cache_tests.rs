use folder_auto_banner::cache::{cache_key, is_entry_expired, is_entry_fresh, Cache};
use folder_auto_banner::datacache::{
    cache_file_path, fnv1a_64, fresh_entry, fresh_walk_may_enter, is_cache_fresh, is_content_probe_ext, FreshEntry, CACHE_TTL_SECS,
};
use std::time::Duration;

#[test]
fn test_cache_key_format() {
    let key = cache_key("/home/user/project", "build");
    assert_eq!(key, "/home/user/project:build");
}

#[test]
fn fnv1a_64_is_stable() {
    assert_eq!(fnv1a_64(b""), 0xcbf29ce484222325);
    assert_eq!(fnv1a_64(b"a"), 0xaf63dc4c8601ec8c);
    assert_eq!(fnv1a_64(b"foobar"), 0x85944171f73967e8);
}

#[test]
fn fnv1a_64_changes_with_input() {
    assert_ne!(fnv1a_64(b"a"), fnv1a_64(b"b"));
    assert_ne!(fnv1a_64(b"abc"), fnv1a_64(b"abd"));
}

#[test]
fn cache_file_path_is_deterministic() {
    let a = cache_file_path(Some("/data/fab"), "/tmp/some/path").unwrap();
    let b = cache_file_path(Some("/data/fab"), "/tmp/some/path").unwrap();
    assert_eq!(a, b);
}

#[test]
fn cache_file_path_differs_per_input() {
    let a = cache_file_path(Some("/data/fab"), "/tmp/a").unwrap();
    let b = cache_file_path(Some("/data/fab"), "/tmp/b").unwrap();
    assert_ne!(a, b);
}

#[test]
fn cache_file_path_uses_hex_hash() {
    let p = cache_file_path(Some("/data/fab"), "/tmp/test").unwrap();
    let fname = p.rsplit('/').next().unwrap();
    assert_eq!(fname.len(), 21);
    assert!(fname.ends_with(".json"));
    let hash = &fname[..16];
    assert!(hash.chars().all(|c| c.is_ascii_hexdigit()));
    assert_eq!(hash, format!("{:016x}", fnv1a_64(b"/tmp/test")));
    assert!(p.starts_with("/data/fab/banner_data/"));
}

#[test]
fn cache_file_path_needs_a_data_dir() {
    assert_eq!(cache_file_path(None, "/tmp/test"), None);
}

#[test]
fn nonexistent_cache_is_not_fresh() {
    assert!(!is_cache_fresh(None, 1_000_000_000_000, None, None));
}

#[test]
fn is_cache_fresh_false_for_missing_file() {
    assert!(!is_cache_fresh(None, 5, Some(1), Some(1)));
}

#[test]
fn cache_freshness_rules() {
    let sec: i128 = 1_000_000_000;
    let written = 1_000 * sec;
    let file = Some((false, Some(written)));
    assert!(is_cache_fresh(file, written + 10 * sec, Some(written - sec), None));
    assert!(!is_cache_fresh(file, written + 300 * sec, None, None));
    assert!(!is_cache_fresh(file, written - 1, None, None));
    assert!(!is_cache_fresh(file, written + sec, Some(written + 1), None));
    assert!(!is_cache_fresh(file, written + sec, None, Some(written + 1)));
    assert!(!is_cache_fresh(Some((false, None)), written + sec, None, None));
}

#[test]
fn is_cache_fresh_false_for_directory() {
    let sec: i128 = 1_000_000_000;
    let written = 1_000 * sec;
    assert!(!is_cache_fresh(Some((true, Some(written))), written + sec, None, None));
}

#[test]
fn is_cache_fresh_true_for_recent_file() {
    let sec: i128 = 1_000_000_000;
    let written = 1_000 * sec;
    assert!(is_cache_fresh(Some((false, Some(written))), written, Some(written), Some(written)));
}

#[test]
fn freshness_walk_takes_probed_files_and_enters_subdirectories() {
    assert_eq!(fresh_entry("notes.MD", true, false), FreshEntry::File);
    assert_eq!(fresh_entry("photo.png", true, false), FreshEntry::File);
    assert_eq!(fresh_entry("binary", true, false), FreshEntry::Ignore);
    assert_eq!(fresh_entry("docs.md", false, true), FreshEntry::Descend);
    assert_eq!(fresh_entry("src", false, true), FreshEntry::Descend);
    assert_eq!(fresh_entry("node_modules", false, true), FreshEntry::Ignore);
    assert_eq!(fresh_entry(".git", false, true), FreshEntry::Ignore);
    assert_eq!(fresh_entry("link", false, false), FreshEntry::Ignore);
    assert!(fresh_walk_may_enter(0, 0));
    assert!(fresh_walk_may_enter(8, 8191));
    assert!(!fresh_walk_may_enter(9, 0));
    assert!(!fresh_walk_may_enter(0, 8192));
}

#[test]
fn cache_ttl_is_5_minutes() {
    assert_eq!(Duration::from_secs(CACHE_TTL_SECS), Duration::from_secs(300));
}

#[test]
fn probe_extensions_are_recognised() {
    assert!(is_content_probe_ext("notes.md"));
    assert!(is_content_probe_ext("photo.jpeg"));
    assert!(!is_content_probe_ext("binary.exe"));
}

#[test]
fn entry_fresh_and_expired_never_both() {
    for (now, ts, limit) in [(100u64, 50u64, 60u64), (100, 10, 60), (5, 10, 1), (100, 40, 60)] {
        assert!(!(is_entry_fresh(now, ts, limit) && is_entry_expired(now, ts, limit)));
    }
    assert!(is_entry_fresh(100, 50, 60));
    assert!(is_entry_expired(100, 10, 60));
}

#[test]
fn cache_path_for_is_hex_json_in_dir() {
    let c = Cache { dir: "/cache".to_string() };
    let p = c.path_for("key");
    assert!(p.starts_with("/cache/"));
    assert!(p.ends_with(".json"));
    assert_eq!(p.len(), "/cache/".len() + 16 + 5);
    assert_eq!(p, c.path_for("key"));
}

#[test]
fn cleanup_removes_only_expired_stamped_files() {
    let cache = folder_auto_banner::cache::Cache { dir: "/tmp/c".to_string() };
    let stamps = vec![
        ("/tmp/c/a.json".to_string(), Some(1_000)),
        ("/tmp/c/b.json".to_string(), Some(9_500)),
        ("/tmp/c/c.json".to_string(), None),
        ("/tmp/c/d.json".to_string(), Some(20_000)),
        ("/tmp/c/e.json".to_string(), Some(4_999)),
    ];
    assert_eq!(cache.cleanup(10_000, 5_000, &stamps), vec!["/tmp/c/a.json".to_string(), "/tmp/c/e.json".to_string()]);
    assert!(cache.cleanup(10_000, 10_000, &stamps).is_empty());
}
