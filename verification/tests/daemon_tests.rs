use folder_auto_banner::daemon::{client_action, daemon_tick, ClientAction, DaemonTick, Request};
use folder_auto_banner::daemon::{
    apply_displayed_dir_sizes, banner_plan, cached_dir_size, cached_dir_size_is_fresh, total_size_of, warm_needed,
    BannerPlan,
};
use folder_auto_banner::fs::DirEntry;
use folder_auto_banner::watch::{frame_length, frame_message, may_invalidate, should_skip_dir, touch_active_root, watch_effect, WatchEffect};

fn dir(path: &str, size: u64) -> DirEntry {
    DirEntry {
        name: path.rsplit('/').next().unwrap().to_string(),
        path: path.to_string(),
        is_dir: true,
        is_file: false,
        is_symlink: false,
        is_exec: false,
        size,
        modified: None,
        perms: String::new(),
        owner: String::new(),
        group: String::new(),
        symlink_target: None,
        symlink_valid: true,
        content_probe: None,
    }
}

#[test]
fn test_should_skip_dir() {
    assert!(should_skip_dir("/home/user/project/.pi"));
    assert!(should_skip_dir("/home/user/project/.opencode"));
    assert!(should_skip_dir("/home/user/project/target"));
    assert!(should_skip_dir("/home/user/project/node_modules"));
    assert!(should_skip_dir("/home/user/project/dist"));
    assert!(should_skip_dir("/home/user/project/build"));
    assert!(should_skip_dir("/home/user/project/.git"));
    assert!(!should_skip_dir("/home/user/project/src"));
    assert!(!should_skip_dir("/home/user/project/tests"));
    assert!(!should_skip_dir("/home/user/project/docs"));
}

#[test]
fn banner_served_only_when_young_and_unchanged() {
    assert_eq!(banner_plan(Some(1_000), true), BannerPlan::Serve);
    assert_eq!(banner_plan(Some(1_000), false), BannerPlan::Compute);
    assert_eq!(banner_plan(Some(300_000), true), BannerPlan::Compute);
    assert_eq!(banner_plan(None, true), BannerPlan::Compute);
    assert!(!warm_needed(Some(299_999)));
    assert!(warm_needed(Some(300_000)));
    assert!(warm_needed(None));
}

#[test]
fn dir_size_reused_when_mtime_matches() {
    assert_eq!(cached_dir_size(Some(10), Some(Some(5)), Some(5)), Some(10));
    assert_eq!(cached_dir_size(Some(10), Some(Some(5)), Some(6)), None);
    assert_eq!(cached_dir_size(Some(10), None, None), Some(10));
    assert_eq!(cached_dir_size(None, Some(Some(5)), Some(5)), None);
}

#[test]
fn placeholder_sizes_are_not_fresh() {
    assert!(!cached_dir_size_is_fresh(4096, Some(1), Some(1), Some((true, 4096))));
    assert!(cached_dir_size_is_fresh(8192, Some(1), Some(1), Some((true, 4096))));
    assert!(!cached_dir_size_is_fresh(8192, Some(1), Some(2), Some((true, 4096))));
    assert!(!cached_dir_size_is_fresh(8192, Some(1), Some(1), None));
}

#[test]
fn displayed_sizes_applied_to_tracked_dirs() {
    let mut items = vec![dir("/p/src", 4096), dir("/p/target", 4096), dir("/p/docs", 4096)];
    let needs = apply_displayed_dir_sizes(&mut items, &[Some(1000), Some(9), None]);
    assert!(needs);
    assert_eq!(items[0].size, 1000);
    assert_eq!(items[1].size, 4096);
    assert_eq!(items[2].size, 4096);
    assert_eq!(total_size_of(&items), 1000 + 4096 + 4096);
    let mut items = vec![dir("/p/src", 1)];
    assert!(!apply_displayed_dir_sizes(&mut items, &[Some(2)]));
    assert_eq!(total_size_of(&[dir("/a", u64::MAX), dir("/b", 1)]), u64::MAX);
}

#[test]
fn framed_length_reads_back() {
    let payload = vec![7u8; 300];
    let framed = frame_message(&payload);
    assert_eq!(framed.len(), 304);
    let header = [framed[0], framed[1], framed[2], framed[3]];
    assert_eq!(frame_length(&header), 300);
    assert_eq!(&framed[4..], &payload[..]);
}

#[test]
fn touching_a_root_moves_it_to_the_front() {
    let mut roots: Vec<String> = Vec::new();
    let mut order: Vec<String> = Vec::new();
    touch_active_root(&mut roots, &mut order, "/a".to_string());
    touch_active_root(&mut roots, &mut order, "/b".to_string());
    touch_active_root(&mut roots, &mut order, "/a".to_string());
    assert_eq!(roots.len(), 2);
    assert_eq!(order.len(), 2);
    assert_eq!(order, vec!["/a".to_string(), "/b".to_string()]);
}

#[test]
fn change_events_invalidate_or_prune() {
    assert_eq!(watch_effect(true, false, false, None), WatchEffect::InvalidateBanner);
    assert_eq!(watch_effect(false, true, false, Some("NOTES.MD")), WatchEffect::InvalidateBanner);
    assert_eq!(watch_effect(false, true, true, Some("x.md")), WatchEffect::PruneSizes);
    assert_eq!(watch_effect(false, false, false, Some("x.md")), WatchEffect::PruneSizes);
    assert_eq!(watch_effect(false, true, false, Some("x.bin")), WatchEffect::PruneSizes);
    assert!(may_invalidate(None));
    assert!(!may_invalidate(Some(9_999)));
    assert!(may_invalidate(Some(10_000)));
}

#[test]
fn watcher_and_data_cache_agree_on_probed_files() {
    for name in ["notes.md", "NOTES.MD", "a.rs", "b.PNG", "c.bin", "Makefile", "clip.webm", "x.tar.gz"] {
        let probed = folder_auto_banner::datacache::is_content_probe_ext(&name.to_ascii_lowercase());
        let expected = if probed { WatchEffect::InvalidateBanner } else { WatchEffect::PruneSizes };
        assert_eq!(watch_effect(false, true, false, Some(name)), expected);
    }
}

#[test]
fn requests_map_to_their_actions() {
    assert!(matches!(client_action(&Request::Ping), ClientAction::AnswerPong));
    assert!(matches!(client_action(&Request::Shutdown), ClientAction::SaveAndExit));
    match client_action(&Request::Warm { path: "/p".to_string() }) {
        ClientAction::WarmWithoutReply { path } => assert_eq!(path, "/p"),
        other => panic!("unexpected {:?}", other),
    }
    match client_action(&Request::Banner { path: "/b".to_string() }) {
        ClientAction::AnswerBanner { path } => assert_eq!(path, "/b"),
        other => panic!("unexpected {:?}", other),
    }
    match client_action(&Request::DirSize { path: "/d".to_string() }) {
        ClientAction::AnswerDirSize { path } => assert_eq!(path, "/d"),
        other => panic!("unexpected {:?}", other),
    }
}

#[test]
fn daemon_stops_when_idle_and_saves_periodically() {
    assert_eq!(daemon_tick(600_001, 0, false), DaemonTick::Stop);
    assert_eq!(daemon_tick(600_000, 0, false), DaemonTick::Wait);
    assert_eq!(daemon_tick(5, 0, true), DaemonTick::Stop);
    assert_eq!(daemon_tick(5, 300_001, false), DaemonTick::Save);
    assert_eq!(daemon_tick(5, 300_000, false), DaemonTick::Wait);
}
