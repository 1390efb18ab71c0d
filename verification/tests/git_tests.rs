use folder_auto_banner::fs::DirEntry;
use folder_auto_banner::git::{
    get_git_info, git_status_args, is_displayed_git_status_path, parse_ahead_behind, parse_diff_numstat,
    parse_porcelain_status, status_filter_paths_for_items, FileStatus, GitOutputs,
};

fn entry(name: &str, is_dir: bool) -> DirEntry {
    DirEntry {
        name: name.to_string(),
        path: name.to_string(),
        is_dir,
        is_file: !is_dir,
        is_symlink: false,
        is_exec: false,
        size: 0,
        modified: None,
        perms: String::new(),
        owner: String::new(),
        group: String::new(),
        symlink_target: None,
        symlink_valid: true,
        content_probe: None,
    }
}

#[test]
fn test_non_git_dir() {
    let info = get_git_info(None);
    assert!(!info.is_repo);
    assert!(info.branch.is_none());
}

#[test]
fn test_status_filter_paths_for_items() {
    let items = vec![entry("src", true), entry("Cargo.toml", false)];
    let paths = status_filter_paths_for_items(&items);
    assert_eq!(paths, vec![":(glob)src/*".to_string(), "Cargo.toml".to_string()]);
}

#[test]
fn test_is_displayed_git_status_path() {
    let keep: Vec<String> = ["src", "Cargo.toml"].into_iter().map(str::to_string).collect();
    assert!(is_displayed_git_status_path("src/lib.rs", &keep));
    assert!(is_displayed_git_status_path("Cargo.toml", &keep));
    assert!(!is_displayed_git_status_path("src/deep/lib.rs", &keep));
    assert!(!is_displayed_git_status_path("tests/lib.rs", &keep));
}

#[test]
fn status_args_with_and_without_filter() {
    assert_eq!(git_status_args(&[]), vec!["status", "--porcelain", "-z"]);
    let f = vec!["a".to_string(), ":(glob)src/*".to_string()];
    assert_eq!(git_status_args(&f), vec!["status", "--porcelain", "-z", "--", "a", ":(glob)src/*"]);
}

#[test]
fn porcelain_counts_staged_modified_untracked() {
    let raw = b"M  staged.rs\0 M work.rs\0?? new.txt\0R  to.rs\0from.rs\0";
    let r = parse_porcelain_status(raw, true);
    assert_eq!(r.staged, 2);
    assert_eq!(r.modified, 1);
    assert_eq!(r.untracked, 1);
    assert!(r.file_statuses.iter().any(|(p, s)| p == "new.txt" && *s == FileStatus::Untracked));
}

#[test]
fn repository_summary_from_outputs() {
    let out = GitOutputs {
        status: Some(b" M a.rs\0".to_vec()),
        branch: Some("main\n".to_string()),
        ahead_behind: (1, 2),
        last_commit: None,
        stash_list: Some("stash@{0}: x\nstash@{1}: y\n".to_string()),
        commits_today: Some("  \n".to_string()),
        branch_list: Some("* main\n  dev\n".to_string()),
        tag: Some("\n".to_string()),
        numstat: Some("3\t1\ta.rs\n-\t-\tbin\n".to_string()),
        merge_state: None,
    };
    let g = get_git_info(Some(out));
    assert!(g.is_repo);
    assert_eq!(g.branch.as_deref(), Some("main"));
    assert_eq!((g.ahead, g.behind), (1, 2));
    assert_eq!(g.modified, 1);
    assert!(g.is_dirty);
    assert_eq!(g.stash_count, 2);
    assert_eq!(g.commits_today, 0);
    assert_eq!(g.branch_count, 2);
    assert_eq!(g.tag, None);
    assert_eq!((g.lines_added, g.lines_deleted), (3, 1));
}

#[test]
fn ahead_behind_and_numstat_parsing() {
    assert_eq!(parse_ahead_behind("3\t4\n"), Some((3, 4)));
    assert_eq!(parse_diff_numstat("10\t2\tx\n1\t1\ty\n"), (11, 3));
}
