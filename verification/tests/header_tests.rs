use folder_auto_banner::build_status::BuildStatus;
use folder_auto_banner::fs::{DirEntry, ProjectType};
use folder_auto_banner::git::GitInfo;
use folder_auto_banner::header::{
    build_detail, combine_header, effective_columns, git_status_text, language_detail, language_entries, language_name,
    path_display, plain_details, plain_row, repo_details, repo_row, tests_detail, underline,
};
use folder_auto_banner::insights::{CodeMetrics, TodoInfo};
use folder_auto_banner::summary::DirSummary;
use folder_auto_banner::test_cache::TestResults;

fn summary() -> DirSummary {
    DirSummary {
        total_items: 3,
        total_size: 2048,
        files: 2,
        dirs: 1,
        top_items: Vec::<DirEntry>::new(),
        project_type: ProjectType::Rust,
        last_modified: None,
        build_status: None,
        todo_info: Some(TodoInfo { count: 4, by_pattern: vec![] }),
        code_metrics: Some(CodeMetrics { total_loc: 1500, by_extension: vec![("rs".to_string(), 1500)], file_count: 3 }),
        port_info: None,
        docker_info: None,
    }
}

#[test]
fn path_shown_relative_to_home() {
    assert_eq!(path_display("/home/u/proj", "/home/u"), "~/proj");
    assert_eq!(path_display("/home/u", "/home/u"), "~");
    assert_eq!(path_display("/home/u/", "/home/u"), "~");
    assert_eq!(path_display("/srv/x", "/home/u"), "/srv/x");
}

#[test]
fn git_status_clean_and_dirty() {
    let clean = GitInfo { is_repo: true, ..GitInfo::default() };
    assert_eq!(git_status_text(&clean, false), "✓ clean");
    let dirty = GitInfo { is_repo: true, modified: 2, untracked: 1, stash_count: 3, is_dirty: true, merge_state: Some("MERGING".to_string()), ..GitInfo::default() };
    assert_eq!(git_status_text(&dirty, false), "*2 ?1 ≡3 MERGING");
}

#[test]
fn repo_row_parts_in_order() {
    let g = GitInfo {
        is_repo: true,
        branch: Some("main".to_string()),
        tag: Some("v1".to_string()),
        last_commit_time: Some(1_000),
        commits_today: 2,
        lines_added: 5,
        lines_deleted: 1,
        ..GitInfo::default()
    };
    assert_eq!(repo_row("~/p", &g, 1_000 + 7200, false), "~/p │ [main] │ v1 │ ✓ clean │ 2h ago │ 2 today │ +5 -1");
}

#[test]
fn plain_row_parts() {
    assert_eq!(plain_row("/tmp", "Generic", 0, 2, 1, 0, false), "/tmp Generic │ 💾 0 │ 📄 2 files │ 📂 1 dirs");
    assert_eq!(plain_row("/tmp", "Generic", 0, 2, 1, 3, false), "/tmp Generic │ 💾 0 │ 📄 2 files │ 📂 1 dirs │ 3 hidden");
}

#[test]
fn build_and_test_details() {
    let ok = BuildStatus { ok: true, errors: 0, warnings: 0, output: String::new() };
    assert_eq!(build_detail(&ok, 0, true, false), "✓ builds");
    assert_eq!(build_detail(&ok, 250, true, false), "✓ builds (250ms)");
    assert_eq!(build_detail(&ok, 1500, true, false), "✓ builds (1.5s)");
    let bad = BuildStatus { ok: false, errors: 2, warnings: 0, output: String::new() };
    assert_eq!(build_detail(&bad, 0, true, false), "✗ build errors (2 err)");
    assert_eq!(build_detail(&bad, 0, false, false), "✗ build errors");
    let t = TestResults { passed: 10, failed: 0, ignored: 0, duration_ms: 5, timestamp: 100 };
    assert_eq!(tests_detail(&t, 100 + 120, false), Some("✓ 10 tests (2m ago)".to_string()));
    let f = TestResults { passed: 10, failed: 1, ignored: 0, duration_ms: 5, timestamp: 100 };
    assert_eq!(tests_detail(&f, 200, false), Some("✗ 1 failed".to_string()));
    let none = TestResults { passed: 0, failed: 0, ignored: 0, duration_ms: 5, timestamp: 100 };
    assert_eq!(tests_detail(&none, 200, false), None);
}

#[test]
fn languages_named_and_picked() {
    assert_eq!(language_name("rs"), "Rust");
    assert_eq!(language_name("tsx"), "TypeScript");
    assert_eq!(language_name("zig"), "zig");
    let exts = vec![
        ("1".to_string(), 50),
        ("rs".to_string(), 40),
        ("no-ext".to_string(), 30),
        ("md".to_string(), 20),
        ("toml".to_string(), 10),
        ("py".to_string(), 5),
    ];
    let picked = language_entries(&exts);
    assert_eq!(picked, vec![("rs".to_string(), 40), ("md".to_string(), 20), ("toml".to_string(), 10)]);
    let detail = language_detail(&[("rs".to_string(), 66), ("md".to_string(), 33)], Some("🦀"), false);
    assert_eq!(detail, "🦀 Rust 66% Markdown 33%");
}

#[test]
fn header_rows_combined_to_fit() {
    let details = vec!["aaaa".to_string(), "bbbb".to_string()];
    assert_eq!(combine_header("row", &[], 80), "row");
    assert_eq!(combine_header("row", &details, 0), "row\naaaa │ bbbb");
    assert_eq!(combine_header("row", &details, 80), "row\naaaa │ bbbb");
    assert_eq!(combine_header("row", &details, 10), "row");
    assert_eq!(underline("a\n\x1b[1mbcd\x1b[0m"), "───");
}

#[test]
fn columns_chosen() {
    let configured = vec!["size".to_string(), "name".to_string()];
    assert_eq!(effective_columns(Some("name, size ,date"), true, true, &configured), vec!["name", "size", "date"]);
    assert_eq!(effective_columns(None, true, true, &configured), vec!["size", "date", "name"]);
    assert_eq!(effective_columns(None, false, true, &configured).len(), 7);
    assert_eq!(effective_columns(None, false, false, &configured), configured);
}

#[test]
fn detail_rows() {
    let s = summary();
    let repo = repo_details(&s, "LANG", 0, None, 0, false);
    assert_eq!(repo, vec!["💾 2.0k total", "📄 2 files", "📂 1 dirs", "📝 4 TODOs", "📊 1.5k lines", "LANG"]);
    let plain = plain_details(&s, "LANG", 0, false);
    assert_eq!(plain, vec!["📝 4 TODOs", "📊 1.5k lines", "LANG", "3 total"]);
}
