use folder_auto_banner::fs::DirEntry;
use folder_auto_banner::git::FileStatus;
use folder_auto_banner::rows::{
    column_widths, contents_cell, date_cell, digit_count, finish_row, git_cell, hidden_counts, hidden_summary, id_cell,
    inline_preview, is_recent, mini_tree_lines, name_cell, num_cell, pad_left, pad_right, perm_cell, preview_room,
    row_parts, size_cell, RowCells,
};

fn entry(name: &str, is_dir: bool, size: u64) -> DirEntry {
    DirEntry {
        name: name.to_string(),
        path: format!("/p/{}", name),
        is_dir,
        is_file: !is_dir,
        is_symlink: false,
        is_exec: false,
        size,
        modified: None,
        perms: String::new(),
        owner: "root".to_string(),
        group: "staff".to_string(),
        symlink_target: None,
        symlink_valid: true,
        content_probe: None,
    }
}

#[test]
fn padding() {
    assert_eq!(pad_left("ab", 4), "  ab");
    assert_eq!(pad_right("ab", 4), "ab  ");
    assert_eq!(pad_left("abcdef", 4), "abcdef");
    assert_eq!(id_cell("bob", 5, false), "bob  ");
    assert_eq!(contents_cell("12", 4, false), "  12");
}

#[test]
fn widths_follow_the_longest_cells() {
    let mut a = entry("a", false, 2048);
    a.owner = "alice_long".to_string();
    let b = entry("b", false, 10);
    let w = column_widths(&[a, b], &["12345".to_string(), "1".to_string()]);
    assert_eq!((w.owner, w.group, w.size, w.contents), (10, 5, 4, 5));
    assert_eq!(digit_count(12), 2);
    assert_eq!(digit_count(0), 1);
}

#[test]
fn permission_cells() {
    assert_eq!(perm_cell("rwxr-xr--", "octal", false), "751");
    assert_eq!(perm_cell("rwxr-xr--", "octal", true), "\x1b[2m751\x1b[0m");
    assert_eq!(perm_cell("rw-", "octal", false), "rw-");
    assert_eq!(perm_cell("rwxr-xr--", "disable", false), "");
    assert_eq!(perm_cell("rw-", "rwx", false), "rw-");
}

#[test]
fn size_date_and_number_cells() {
    assert_eq!(size_cell(&entry("d", true, 0), 4, false), "   -");
    assert_eq!(size_cell(&entry("f", false, 2048), 6, false), "  2.0k");
    assert_eq!(date_cell(None, true, (1000, 0), false), "");
    assert_eq!(date_cell(Some((1000, 0)), true, (8200, 0), false), "2 hour(s) ago");
    assert_eq!(date_cell(Some((1_705_314_600, 0)), false, (0, 0), false), "2024-01-15 10:30:00");
    assert_eq!(num_cell(0, 2, false), "[ 1]");
}

#[test]
fn git_cells() {
    let statuses = vec![("src/main.rs".to_string(), FileStatus::Modified), ("a.txt".to_string(), FileStatus::Added)];
    assert_eq!(git_cell(&entry("src", true, 0), "/p", &statuses, true, false), "●");
    assert_eq!(git_cell(&entry("a.txt", false, 1), "/p", &statuses, true, false), "●");
    assert_eq!(git_cell(&entry("b.txt", false, 1), "/p", &statuses, true, true), "\x1b[32m●\x1b[0m");
    assert_eq!(git_cell(&entry("b.txt", false, 1), "/p", &statuses, false, false), " ");
}

#[test]
fn name_cells() {
    assert_eq!(name_cell(&entry("main.rs", false, 1), false, true), "\x1b[32mmain.rs\x1b[0m");
    assert_eq!(name_cell(&entry("Makefile", false, 1), false, true), "Makefile");
    assert_eq!(name_cell(&entry("src", true, 1), true, false), "src/");
    let mut link = entry("link", false, 1);
    link.is_symlink = true;
    link.symlink_target = Some("target".to_string());
    assert_eq!(name_cell(&link, true, false), "link@ → target");
    link.symlink_valid = false;
    assert_eq!(name_cell(&link, false, false), "link ✗→ target");
}

#[test]
fn rows_are_assembled_in_column_order() {
    let cells = RowCells {
        perm: "P".to_string(),
        owner: "O".to_string(),
        group: "G".to_string(),
        date: "D".to_string(),
        size: "S".to_string(),
        contents: "C".to_string(),
        git: "*".to_string(),
        num: "[1]".to_string(),
        icon: "I".to_string(),
        name: "N".to_string(),
    };
    let cols = vec!["name".to_string(), "size".to_string()];
    assert_eq!(row_parts(&cells, &cols, true, false).join(" "), "S * I N");
    let all: Vec<String> = ["permission", "owner", "group", "size", "contents", "date", "name"].iter().map(|s| s.to_string()).collect();
    assert_eq!(row_parts(&cells, &all, false, true).join(" "), "P O G D S C [1] I N");
}

#[test]
fn finished_rows() {
    assert_eq!(finish_row("abc", None, (0, 0), None, None, 1, true), "abc");
    assert_eq!(finish_row("abc", None, (0, 0), None, None, 0, true), "\x1b[48;5;236mabc\x1b[0m");
    assert_eq!(finish_row("abc", Some((100, 0)), (200, 0), Some("bold"), None, 1, true), "\x1b[1mabc\x1b[0m");
    assert_eq!(finish_row("abc", Some((100, 0)), (200, 0), Some("none"), None, 1, true), "abc");
    assert_eq!(finish_row("abc", Some((0, 0)), (100_000, 0), Some("bold"), None, 1, true), "abc");
    assert!(is_recent((21_599, 0), (0, 0)));
    assert!(!is_recent((21_600, 0), (0, 0)));
}

#[test]
fn inline_previews() {
    assert_eq!(preview_room("abc", 100), Some(93));
    assert_eq!(preview_room("abc", 0), None);
    assert_eq!(preview_room("abc", 15), None);
    let e = vec![("src".to_string(), true), ("a.txt".to_string(), false)];
    assert_eq!(inline_preview(&e, 20, false), Some("src a.txt".to_string()));
    assert_eq!(inline_preview(&e, 6, false), Some("src ...".to_string()));
    assert_eq!(inline_preview(&e, 3, false), None);
    assert_eq!(inline_preview(&[], 20, false), None);
}

#[test]
fn hidden_entries_summary() {
    let items = vec![entry("a", true, 0), entry("b", true, 0), entry("c", false, 1)];
    assert_eq!(hidden_counts(&items, &[0]), (1, 1));
    assert_eq!(hidden_summary(2, 0, false), Some("   2 dirs hidden (sorted by git status & recency)".to_string()));
    assert_eq!(hidden_summary(1, 3, false), Some("   1 dirs, 3 files hidden (sorted by git status & recency)".to_string()));
    assert_eq!(hidden_summary(0, 0, false), None);
}

#[test]
fn mini_tree() {
    let dirs = vec!["src".to_string(), "docs".to_string()];
    assert!(mini_tree_lines("proj", &dirs, 100, false).is_empty());
    let pad = " ".repeat(141);
    assert_eq!(
        mini_tree_lines("proj", &dirs, 150, false),
        vec![format!("{}proj", pad), format!("{}├── src", pad), format!("{}└── docs", pad)]
    );
    let long = vec!["a".repeat(40)];
    let lines = mini_tree_lines("p", &long, 150, false);
    assert!(lines[1].ends_with(&format!("└── {}...", "a".repeat(33))));
}
