use folder_auto_banner::banner::{
    build_branch_display, build_git_status_indicators, colorize_perms, format_loc, glob_match, highlight_row,
    strip_ansi, truncate_details,
};
use folder_auto_banner::git::GitInfo;
use folder_auto_banner::natural::natural_cmp;

#[test]
fn test_build_branch_display_keeps_closing_bracket_in_same_style() {
    let dirty = GitInfo { branch: Some("main".to_string()), is_dirty: true, ..GitInfo::default() };
    assert_eq!(build_branch_display(&dirty, true), "\x1b[33m[main*]\x1b[0m");

    let clean = GitInfo { branch: Some("main".to_string()), is_dirty: false, ..GitInfo::default() };
    assert_eq!(build_branch_display(&clean, true), "\x1b[1;34m[main]\x1b[0m");
}

#[test]
fn test_build_branch_display_empty_branch() {
    let no_branch = GitInfo::default();
    assert_eq!(build_branch_display(&no_branch, true), "");
}

#[test]
fn branch_display_without_colors_is_plain() {
    let dirty = GitInfo { branch: Some("dev".to_string()), is_dirty: true, ..GitInfo::default() };
    assert_eq!(build_branch_display(&dirty, false), "[dev*]");
}

#[test]
fn test_format_loc() {
    assert_eq!(format_loc(0), "0");
    assert_eq!(format_loc(500), "500");
    assert_eq!(format_loc(1000), "1.0k");
    assert_eq!(format_loc(1500), "1.5k");
    assert_eq!(format_loc(10000), "10k");
    assert_eq!(format_loc(123456), "123k");
}

#[test]
fn test_strip_ansi() {
    assert_eq!(strip_ansi("hello"), "hello");
    assert_eq!(strip_ansi("\x1b[31mred\x1b[0m"), "red");
    assert_eq!(strip_ansi("a\x1b[1mb\x1b[0mc"), "abc");
}

#[test]
fn strip_ansi_twice_is_once() {
    let s = "\x1b[1;34m[main]\x1b[0m and \x1b[2mdim\x1b[0m";
    let once = strip_ansi(s);
    assert_eq!(strip_ansi(&once), once);
    assert_eq!(once, "[main] and dim");
}

#[test]
fn test_natural_cmp() {
    assert_eq!(natural_cmp("file1", "file2"), std::cmp::Ordering::Less);
    assert_eq!(natural_cmp("file2", "file10"), std::cmp::Ordering::Less);
    assert_eq!(natural_cmp("file10", "file2"), std::cmp::Ordering::Greater);
    assert_eq!(natural_cmp("file1", "file1"), std::cmp::Ordering::Equal);
}

#[test]
fn natural_cmp_swapped_is_reversed() {
    let pairs = [("a9", "a10"), ("x", "x1"), ("v1.2", "v1.10"), ("same", "same")];
    for (a, b) in pairs {
        assert_eq!(natural_cmp(a, b), natural_cmp(b, a).reverse());
    }
}

#[test]
fn test_colorize_perms() {
    let result = colorize_perms("drwxr-xr-x", true);
    assert!(result.contains("\x1b["));
    assert!(result.contains("d"));
    assert!(result.contains("r"));
    assert!(result.contains("w"));
    assert!(result.contains("x"));
    assert!(result.contains("-"));
}

#[test]
fn colorize_perms_without_colors_is_the_input() {
    assert_eq!(colorize_perms("-rw-r--r--", false), "-rw-r--r--");
}

#[test]
fn test_truncate_details() {
    let details = vec![
        "short".to_string(),
        "medium length".to_string(),
        "this is a very long detail that should be truncated".to_string(),
    ];
    let result = truncate_details(&details, 100);
    assert!(result.contains("short"));
    assert!(result.contains("medium length"));

    let result = truncate_details(&details, 20);
    assert!(result.contains("short"));
}

#[test]
fn truncated_details_fit_the_width() {
    let details = vec![
        "short".to_string(),
        "medium length".to_string(),
        "this is a very long detail that should be truncated".to_string(),
    ];
    let result = truncate_details(&details, 20);
    assert_eq!(result, "short \u{2502} medium le...");
    assert!(strip_ansi(&result).chars().count() <= 20);
    let first_only = truncate_details(&details[2..], 20);
    assert_eq!(first_only, "this is a very lo...");
    assert_eq!(truncate_details(&details, 8), "short");
}

#[test]
fn git_status_indicators_count_each_kind() {
    let g = GitInfo { staged: 2, modified: 1, untracked: 0, ..GitInfo::default() };
    let s = strip_ansi(&build_git_status_indicators(&g, true));
    assert!(s.contains("*1"));
    assert!(s.contains("+2"));
    assert!(!s.contains('?'));
}

#[test]
fn highlight_row_reapplies_background_after_resets() {
    assert_eq!(highlight_row("abc", "none", true), "abc");
    assert_eq!(highlight_row("abc", "", true), "abc");
    assert_eq!(highlight_row("a\x1b[0mb", "green", true), "\x1b[48;5;22ma\x1b[0m\x1b[48;5;22mb\x1b[0m");
    assert_eq!(highlight_row("ab", "bold", true), "\x1b[1mab\x1b[0m");
}

#[test]
fn glob_match_star_forms() {
    assert!(glob_match("*.rs", "main.rs"));
    assert!(!glob_match("*.rs", "main.py"));
    assert!(glob_match("*test*", "my_test_file"));
    assert!(glob_match("build*", "build.rs"));
    assert!(glob_match("exact", "exact"));
    assert!(!glob_match("exact", "exactly"));
}

#[test]
fn colorized_perms_strip_back_to_the_perms() {
    for p in ["drwxr-xr-x", "-rw-r--r--", "lrwxrwxrwx", "-rwsr-S--T", "?---------"] {
        assert_eq!(strip_ansi(&colorize_perms(p, true)), p);
        assert_eq!(strip_ansi(&colorize_perms(p, false)), p);
    }
}
