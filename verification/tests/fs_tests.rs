use folder_auto_banner::build_status::{exit_status_check, node_check, nothing_to_check, python_check_needed, NodeCheck};
use folder_auto_banner::fs::{detect_level, direct_marker_names, format_size_compact, DirEntry, ProjectType};
use folder_auto_banner::summary::{
    entry_access, format_exact_time, format_mode, format_size, id_name, one_decimal, parse_id_table,
    relative_time_text, DirScan, DirSummary, EntryMeta,
};

fn entry(name: &str, is_dir: bool, size: u64, modified: Option<(i64, u32)>) -> DirEntry {
    DirEntry {
        name: name.to_string(),
        path: format!("/p/{}", name),
        is_dir,
        is_file: !is_dir,
        is_symlink: false,
        is_exec: false,
        size,
        modified,
        perms: String::new(),
        owner: String::new(),
        group: String::new(),
        symlink_target: None,
        symlink_valid: true,
        content_probe: None,
    }
}

fn summary_of(items: Vec<DirEntry>) -> DirSummary {
    DirSummary {
        total_items: items.len(),
        total_size: 100,
        files: items.len(),
        dirs: 0,
        top_items: items,
        project_type: ProjectType::Rust,
        last_modified: None,
        build_status: None,
        todo_info: None,
        code_metrics: None,
        port_info: None,
        docker_info: None,
    }
}

#[test]
fn test_format_size() {
    let result_0 = format_size(0);
    let result_1023 = format_size(1023);
    let result_1024 = format_size(1024);
    assert!(result_0.contains("0"));
    assert!(result_1023.contains("1023"));
    assert!(result_1024.contains("1"));
}

#[test]
fn format_size_keeps_one_decimal() {
    assert_eq!(format_size(10000), "9.7");
    assert_eq!(format_size(1024), "1 KiB");
    assert_eq!(one_decimal("9.765625 KiB"), "9.7");
    assert_eq!(one_decimal("1.5 KiB"), "1.5");
    assert_eq!(one_decimal("1.5"), "1.5");
    assert_eq!(one_decimal("12 B"), "12 B");
}

#[test]
fn test_format_size_compact() {
    assert_eq!(format_size_compact(0), "0");
    assert_eq!(format_size_compact(500), "500");
    assert_eq!(format_size_compact(1024), "1.0k");
    assert_eq!(format_size_compact(10 * 1024), "10k");
    assert_eq!(format_size_compact(1024 * 1024), "1.0M");
    assert_eq!(format_size_compact(1024 * 1024 * 1024), "1.0G");
}

#[test]
fn test_project_type_icons() {
    assert_eq!(ProjectType::Rust.icon(), "🦀");
    assert_eq!(ProjectType::Node.icon(), "📦");
    assert_eq!(ProjectType::Python.icon(), "🐍");
    assert_eq!(ProjectType::Go.icon(), "🐹");
    assert_eq!(ProjectType::Generic.icon(), "📂");
}

#[test]
fn test_project_type_labels() {
    assert_eq!(ProjectType::Rust.label(), "Rust");
    assert_eq!(ProjectType::Node.label(), "Node.js");
    assert_eq!(ProjectType::Python.label(), "Python");
}

#[test]
fn test_dir_summary_by_type() {
    let summary = summary_of(vec![
        entry("test.rs", false, 50, None),
        entry("main.rs", false, 30, None),
        entry("readme.md", false, 20, None),
    ]);
    let by_type = summary.by_type();
    assert_eq!(by_type.len(), 2);
    assert!(by_type.contains(&("rs".to_string(), 2)));
    assert!(by_type.contains(&("md".to_string(), 1)));
}

#[test]
fn by_type_counts_names_without_dot_as_other() {
    let summary = summary_of(vec![entry("Makefile", false, 1, None), entry("LICENSE", false, 1, None), entry("A.TXT", false, 1, None)]);
    let by_type = summary.by_type();
    assert_eq!(by_type, vec![("other".to_string(), 2), ("txt".to_string(), 1)]);
}

#[test]
fn top_items_and_remaining() {
    let summary = summary_of(vec![entry("a", false, 1, None), entry("b", false, 1, None), entry("c", false, 1, None)]);
    assert_eq!(summary.top_items(2).len(), 2);
    assert_eq!(summary.top_items(10).len(), 3);
    assert_eq!(summary.remaining(2), 1);
    assert_eq!(summary.remaining(5), 0);
}

#[test]
fn test_project_type_detect_rust() {
    let existing = vec!["Cargo.toml".to_string()];
    assert_eq!(detect_level(&existing, &existing), Some(ProjectType::Rust));
}

#[test]
fn test_project_type_detect_node() {
    let existing = vec!["package.json".to_string()];
    assert_eq!(detect_level(&existing, &existing), Some(ProjectType::Node));
}

#[test]
fn test_project_type_detect_python() {
    let existing = vec!["pyproject.toml".to_string()];
    assert_eq!(detect_level(&existing, &existing), Some(ProjectType::Python));
}

#[test]
fn test_project_type_detect_go() {
    let existing = vec!["go.mod".to_string()];
    assert_eq!(detect_level(&existing, &existing), Some(ProjectType::Go));
}

#[test]
fn test_project_type_generic() {
    let levels: Vec<(Vec<String>, Vec<String>)> = vec![(vec![], vec!["notes.txt".to_string()]), (vec![], vec![])];
    assert_eq!(ProjectType::detect(&levels), ProjectType::Generic);
}

#[test]
fn detection_prefers_direct_markers_then_listing_then_ancestors() {
    // Direct markers win over the listing order.
    let existing = vec!["package.json".to_string(), "Cargo.toml".to_string()];
    assert_eq!(detect_level(&existing, &[]), Some(ProjectType::Rust));
    // The listing is matched case-insensitively, first marker in listing order.
    let listing = vec!["README".to_string(), "GEMFILE".to_string(), "go.mod".to_string()];
    assert_eq!(detect_level(&[], &listing), Some(ProjectType::Ruby));
    // A parent's marker counts when the directory has none.
    let levels = vec![(vec![], vec!["src".to_string()]), (vec!["go.mod".to_string()], vec![])];
    assert_eq!(ProjectType::detect(&levels), ProjectType::Go);
    // Only the first ten levels are searched.
    let mut deep: Vec<(Vec<String>, Vec<String>)> = (0..10).map(|_| (vec![], vec![])).collect();
    deep.push((vec!["Cargo.toml".to_string()], vec![]));
    assert_eq!(ProjectType::detect(&deep), ProjectType::Generic);
    assert_eq!(direct_marker_names().len(), 12);
}

#[test]
fn test_format_exact_time() {
    assert_eq!(format_exact_time((1705314600, 0)), Some("2024-01-15 10:30:00".to_string()));
}

#[test]
fn test_format_relative_time() {
    let now = (1_700_000_000i64, 0u32);
    let result = relative_time_text(now, (now.0 - 300, 0));
    assert!(result.contains("5"));
    assert!(result.contains("minute"));
}

#[test]
fn relative_time_units() {
    let now = (1_700_000_000i64, 500_000_000u32);
    assert_eq!(relative_time_text(now, (now.0 - 10, 0)), "just now");
    assert_eq!(relative_time_text(now, (now.0 - 7200, 0)), "2 hour(s) ago");
    assert_eq!(relative_time_text(now, (now.0 - 3 * 86400, 0)), "3 day(s) ago");
    assert_eq!(relative_time_text(now, (now.0 - 61 * 86400, 0)), "2 month(s) ago");
    assert_eq!(relative_time_text(now, (now.0 - 800 * 86400, 0)), "2 year(s) ago");
    assert_eq!(relative_time_text(now, (now.0 + 3600, 0)), "just now");
}

#[test]
fn mode_text_like_ls() {
    assert_eq!(format_mode(0o040755), "drwxr-xr-x");
    assert_eq!(format_mode(0o100644), "-rw-r--r--");
    assert_eq!(format_mode(0o120777), "lrwxrwxrwx");
    assert_eq!(format_mode(0o010600), "prw-------");
}

#[test]
fn id_table_last_entry_wins() {
    let table = parse_id_table("root:x:0:0::/root:/bin/sh\nbad line\nuser:x:1000:1000::/home/user:/bin/sh\nalias:x:1000:1000\n");
    assert_eq!(table.len(), 3);
    assert_eq!(id_name(&table, 0), "root");
    assert_eq!(id_name(&table, 1000), "alias");
    assert_eq!(id_name(&table, 42), "42");
}

#[test]
fn entry_access_without_metadata() {
    let (p, x, o, g) = entry_access(None, true, &[], &[]);
    assert_eq!((p.as_str(), x, o.as_str(), g.as_str()), ("lrwxrwxrwx", false, "?", "?"));
    let (p, _, _, _) = entry_access(None, false, &[], &[]);
    assert_eq!(p, "----------");
    let users = vec![(0u32, "root".to_string())];
    let (p, x, o, g) = entry_access(Some(EntryMeta { mode: 0o100755, uid: 0, gid: 7 }), false, &users, &[]);
    assert_eq!((p.as_str(), x, o.as_str(), g.as_str()), ("-rwxr-xr-x", true, "root", "7"));
}

#[test]
fn scan_sorts_directories_first_then_names() {
    let mut scan = DirScan::new();
    scan.add_entry(false, true, entry("b.txt", false, 10, Some((5, 0))));
    scan.add_entry(true, false, entry("Zeta", true, 4096, Some((9, 0))));
    scan.add_entry(false, true, entry("A.txt", false, 20, None));
    scan.add_entry(true, false, entry("alpha", true, 4096, Some((9, 1))));
    let s = scan.finish(ProjectType::Generic, None, None, true, true, None, None);
    let names: Vec<&str> = s.top_items.iter().map(|e| e.name.as_str()).collect();
    assert_eq!(names, vec!["alpha", "Zeta", "A.txt", "b.txt"]);
    assert_eq!(s.dirs, 2);
    assert_eq!(s.files, 2);
    assert_eq!(s.total_items, 4);
    assert_eq!(s.total_size, 10 + 4096 + 20 + 4096);
    assert_eq!(s.last_modified, Some((9, 1)));
}

#[test]
fn scan_past_the_cap_only_counts() {
    let mut scan = DirScan::new();
    for i in 0..500 {
        assert!(scan.wants_metadata());
        scan.add_entry(false, true, entry(&format!("f{}", i), false, 1, None));
    }
    assert!(!scan.wants_metadata());
    scan.count_only(true, false);
    scan.count_only(false, true);
    assert!(scan.hit_cap);
    assert!(!scan.wants_insights(true, true, ProjectType::Rust));
    let s = scan.finish(ProjectType::Rust, None, None, true, true, None, None);
    assert_eq!(s.top_items.len(), 500);
    assert_eq!(s.total_items, 502);
    assert_eq!(s.dirs, 1);
}

#[test]
fn node_and_python_build_checks() {
    assert_eq!(node_check(true, None), NodeCheck::TypeCheck);
    assert_eq!(node_check(false, Some("{\"scripts\": {\"build\": \"vite build\"}}")), NodeCheck::BuildDryRun);
    assert_eq!(node_check(false, Some("{\"scripts\": {\"test\": \"jest\"}}")), NodeCheck::NothingToCheck);
    assert_eq!(node_check(false, None), NodeCheck::NothingToCheck);
    assert!(python_check_needed(&["README.md".to_string(), "main.py".to_string()]));
    assert!(!python_check_needed(&["README.md".to_string(), "py".to_string()]));
    let failed = exit_status_check(false, "boom");
    assert!(!failed.ok);
    assert_eq!(failed.errors, 1);
    assert_eq!(failed.warnings, 0);
    assert_eq!(failed.output, "boom");
    let long = "x".repeat(600);
    let passed = exit_status_check(true, &long);
    assert!(passed.ok);
    assert_eq!(passed.errors, 0);
    assert_eq!(passed.output, format!("{}\u{2026}", "x".repeat(500)));
    let none = nothing_to_check();
    assert!(none.ok && none.errors == 0 && none.output.is_empty());
}
