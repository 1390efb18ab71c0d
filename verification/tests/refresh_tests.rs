use folder_auto_banner::fs::DirEntry;
use folder_auto_banner::refresh::{
    apply_measured_sizes, clear_in_flight, enqueue_refresh, mark_in_flight, parse_du_size, should_replace,
    size_followup, size_refresh_jobs, split_nanos, take_refresh_round, PathMap, SizeCache,
};
use folder_auto_banner::watch::{
    is_active_root, keep_registration, retain_active_order, watch_visit, WatchVisit, ACTIVE_WATCH_DEPTH,
    MAX_ACTIVE_WATCH_DIRS,
};

fn entry(path: &str, is_dir: bool, size: u64) -> DirEntry {
    DirEntry {
        name: path.rsplit('/').next().unwrap().to_string(),
        path: path.to_string(),
        is_dir,
        is_file: !is_dir,
        is_symlink: false,
        is_exec: false,
        size,
        modified: None,
        perms: String::new(),
        owner: String::new(),
        group: String::new(),
        symlink_target: None,
        symlink_valid: true,
        content_probe: None,
    }
}

fn strings(v: &[&str]) -> Vec<String> {
    v.iter().map(|s| s.to_string()).collect()
}

#[test]
fn path_map_reads_what_was_written() {
    let mut m: PathMap<u64> = PathMap::new();
    m.insert("/a/b".to_string(), 1);
    m.insert("/a/c".to_string(), 2);
    m.insert("/a/b/".to_string(), 3);
    assert_eq!(m.get("/a/b"), Some(3));
    assert_eq!(m.get("/a/c"), Some(2));
    assert_eq!(m.get("/a"), None);
    assert_eq!(m.pairs().len(), 2);
    m.remove_under("/a/b");
    assert_eq!(m.get("/a/b"), None);
    assert_eq!(m.get("/a/c"), Some(2));
    let n = PathMap::from_pairs(vec![("/x".to_string(), 1u64), ("/x".to_string(), 5)]);
    assert_eq!(n.get("/x"), Some(5));
}

#[test]
fn size_cache_serves_finished_measurements() {
    let mut c = SizeCache::new();
    c.record_request("/p/big", 10_000, true, Some(42));
    assert_eq!(c.request_size("/p/big", Some(42)), Some(10_000));
    assert_eq!(c.request_size("/p/big", Some(43)), None);
    c.record_request("/p/slow", 4096, false, Some(42));
    assert_eq!(c.request_size("/p/slow", Some(42)), None);
    assert_eq!(c.request_size("/p/slow", None), Some(4096));
    c.prune_root("/p");
    assert_eq!(c.request_size("/p/big", Some(42)), None);
}

#[test]
fn size_cache_fresh_sizes_and_refresh_records() {
    let mut c = SizeCache::new();
    c.record_refresh("/d", 9000, true, Some(7));
    assert_eq!(c.fresh_size("/d", Some(7), Some((true, 4096))), Some(9000));
    assert_eq!(c.fresh_size("/d", Some(8), Some((true, 4096))), None);
    c.record_refresh("/d", 4096, true, None);
    assert_eq!(c.fresh_size("/d", Some(7), Some((true, 4096))), None);
    c.record_refresh("/e", 100, false, Some(1));
    assert_eq!(c.request_size("/e", None), Some(100));
    let saved = SizeCache::from_saved(c.sizes.pairs(), c.mtimes.pairs());
    assert_eq!(saved.request_size("/e", None), Some(100));
}

#[test]
fn refresh_rounds_take_five_distinct_folders() {
    let pending = strings(&["/a", "/b", "/a", "/c", "/d", "/e", "/f"]);
    let (round, rest) = take_refresh_round(&pending, &[]);
    assert_eq!(round, strings(&["/a", "/b", "/c", "/d", "/e"]));
    assert_eq!(rest, strings(&["/a", "/f"]));
    let order = strings(&["/1", "/2", "/3", "/4", "/5", "/6", "/7"]);
    let (round, rest) = take_refresh_round(&[], &order);
    assert_eq!(round, strings(&["/1", "/2", "/3", "/4", "/5"]));
    assert!(rest.is_empty());
}

#[test]
fn queue_and_in_flight() {
    let mut pending = Vec::new();
    enqueue_refresh(&mut pending, "/a");
    enqueue_refresh(&mut pending, "/a/");
    enqueue_refresh(&mut pending, "/b");
    assert_eq!(pending, strings(&["/a", "/b"]));
    let mut running = Vec::new();
    assert!(mark_in_flight(&mut running, "/a"));
    assert!(!mark_in_flight(&mut running, "/a"));
    clear_in_flight(&mut running, "/a");
    assert!(running.is_empty());
    assert!(should_replace(None, 5));
    assert!(should_replace(Some(5), 5));
    assert!(!should_replace(Some(6), 5));
    assert_eq!(size_followup(true, true), (true, true));
    assert_eq!(size_followup(true, false), (false, false));
    assert_eq!(size_followup(false, false), (false, true));
}

#[test]
fn measuring_displayed_directories() {
    let mut items = vec![entry("/p/src", true, 4096), entry("/p/a.txt", false, 3), entry("/p/target", true, 4096), entry("/p/docs", true, 4096)];
    let fresh = vec![None, None, None, Some(77)];
    let jobs = size_refresh_jobs(&items, &fresh);
    assert_eq!(jobs, vec![0]);
    apply_measured_sizes(&mut items, &jobs, &[123_456]);
    assert_eq!(items[0].size, 123_456);
    assert_eq!(items[1].size, 3);
    assert_eq!(items[3].size, 4096);
}

#[test]
fn du_output_and_saved_times() {
    assert_eq!(parse_du_size("12345\t/some/path\n"), Some(12345));
    assert_eq!(parse_du_size("  \n"), None);
    assert_eq!(parse_du_size("du: cannot read"), None);
    assert_eq!(split_nanos(1_500_000_000), Some((1, 500_000_000)));
    assert_eq!(split_nanos(u128::MAX), None);
}

#[test]
fn watch_targets_and_registrations() {
    assert_eq!(watch_visit("/p/src", 0, 0, Some((false, true))), WatchVisit::WatchAndDescend);
    assert_eq!(watch_visit("/p/a.rs", 1, 0, Some((false, false))), WatchVisit::Watch);
    assert_eq!(watch_visit("/p/target", 1, 0, Some((false, true))), WatchVisit::Ignore);
    assert_eq!(watch_visit("/p/link", 1, 0, Some((true, false))), WatchVisit::Ignore);
    assert_eq!(watch_visit("/p/src", ACTIVE_WATCH_DEPTH + 1, 0, Some((false, true))), WatchVisit::Ignore);
    assert_eq!(watch_visit("/p/src", 0, MAX_ACTIVE_WATCH_DIRS, Some((false, true))), WatchVisit::Ignore);
    assert_eq!(watch_visit("/p/gone", 0, 0, None), WatchVisit::Ignore);
    assert!(keep_registration(true, true, false, true));
    assert!(!keep_registration(true, true, false, false));
    assert!(!keep_registration(false, true, true, true));
    let roots = strings(&["/a", "/b"]);
    assert!(is_active_root(&roots, "/b/"));
    let mut order = strings(&["/c", "/b", "/a"]);
    retain_active_order(&mut order, &roots);
    assert_eq!(order, strings(&["/b", "/a"]));
}
