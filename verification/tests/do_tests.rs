use folder_auto_banner::do_action::{count_line, count_lines, count_total, custom_command, parse_do_action, stdin_paths, DoAction};
use folder_auto_banner::fs::DirEntry;
use folder_auto_banner::listing::{oneline_selection, BannerOptions};

#[test]
fn piped_paths_skip_blank_lines() {
    assert_eq!(stdin_paths("a.rs\n\n  \nb/c.txt\r\n"), vec!["a.rs", "b/c.txt"]);
}

#[test]
fn actions_by_name() {
    assert!(matches!(parse_do_action(None), DoAction::List));
    assert!(matches!(parse_do_action(Some("delete")), DoAction::Trash));
    assert!(matches!(parse_do_action(Some("show")), DoAction::Cat));
    assert!(matches!(parse_do_action(Some("wc -l {}")), DoAction::Custom(t) if t == "wc -l {}"));
}

#[test]
fn custom_command_substitutes_path() {
    let (cmd, words) = custom_command("wc -l {}  {}", "x.rs");
    assert_eq!(cmd, "wc -l x.rs  x.rs");
    assert_eq!(words, vec!["wc", "-l", "x.rs", "x.rs"]);
}

#[test]
fn count_report_lines() {
    assert_eq!(count_lines("a\nb\n"), 2);
    assert_eq!(count_line(42, "f.rs"), "    42 f.rs");
    assert_eq!(count_line(1234567, "g"), "1234567 g");
    assert_eq!(count_total(10, 2), "\n📊 Total: 10 lines in 2 files");
}

fn e(name: &str, is_dir: bool) -> DirEntry {
    DirEntry {
        name: name.to_string(),
        path: format!("/d/{}", name),
        is_dir,
        is_file: !is_dir,
        is_symlink: false,
        is_exec: false,
        size: 0,
        modified: None,
        perms: String::new(),
        owner: String::new(),
        group: String::new(),
        symlink_target: None,
        symlink_valid: true,
        content_probe: None,
    }
}

#[test]
fn oneline_filters_and_limits() {
    let items = vec![e(".hidden", false), e("src", true), e("main.rs", false), e("lib.rs", false), e("notes.md", false)];
    let opts = BannerOptions::default();
    assert_eq!(oneline_selection(&items, &opts), vec![1, 2, 3, 4]);
    let opts = BannerOptions { only_files: true, max: Some(2), ..BannerOptions::default() };
    assert_eq!(oneline_selection(&items, &opts), vec![2, 3]);
    let opts = BannerOptions { hidden: true, ignore_glob: vec!["*.rs".to_string()], ..BannerOptions::default() };
    assert_eq!(oneline_selection(&items, &opts), vec![0, 1, 4]);
    let opts = BannerOptions { filter: Some("note".to_string()), ..BannerOptions::default() };
    assert_eq!(oneline_selection(&items, &opts), vec![4]);
}
