use folder_auto_banner::compare::{comparison_report, compare_dirs, counts_entry, find_size, push_diff_size, scan_reaches};
use folder_auto_banner::ops::{open_summary_lines, root_line};
use folder_auto_banner::preview::{preview_heading, preview_lines};
use folder_auto_banner::remove::{is_protected_path, remove_step, remove_summary, RemoveStep};
use folder_auto_banner::shell::{
    add_source_line, hook_end_line, reload_hint_lines, remove_hook_block, remove_source_lines, shell_config_file,
    shell_name,
};

fn files(v: &[(&str, u64)]) -> Vec<(String, u64)> {
    v.iter().map(|(p, s)| (p.to_string(), *s)).collect()
}

fn size_text(bytes: u64) -> String {
    let mut s = String::new();
    push_diff_size(&mut s, bytes);
    s
}

#[test]
fn system_directories_are_protected() {
    assert!(is_protected_path("/", None));
    assert!(is_protected_path("/etc/passwd", None));
    assert!(is_protected_path("/ETC", None));
    assert!(is_protected_path("/home/u/project/file.txt", None));
    assert!(!is_protected_path("/tmp/x", None));
    assert!(!is_protected_path("/etcetera", None));
    assert!(!is_protected_path("relative/file", None));
}

#[test]
fn sensitive_home_directories_are_protected() {
    assert!(is_protected_path("/Users/u/.ssh", Some("/Users/u")));
    assert!(is_protected_path("/Users/U/.SSH/id_rsa", Some("/Users/u")));
    assert!(is_protected_path("/Users/u/.local/share/keyrings/login", Some("/Users/u")));
    assert!(!is_protected_path("/Users/u/code/main.rs", Some("/Users/u")));
    assert!(!is_protected_path("/Users/u/.ssh", None));
    assert!(!is_protected_path("/Users/u/.sshx", Some("/Users/u")));
}

#[test]
fn removal_steps_in_order() {
    assert_eq!(remove_step(false, false, false, false, false), RemoveStep::Missing { report: true });
    assert_eq!(remove_step(false, false, false, false, true), RemoveStep::Missing { report: false });
    assert_eq!(remove_step(true, true, false, true, false), RemoveStep::NeedsRecursive);
    assert_eq!(remove_step(true, true, true, true, false), RemoveStep::Refused);
    assert_eq!(remove_step(true, false, false, false, false), RemoveStep::Remove);
}

#[test]
fn removal_summaries() {
    assert_eq!(remove_summary(true, 2, 1), "📋 Would remove 2 file(s), 1 skip(s)");
    assert_eq!(remove_summary(false, 3, 0), "✅ Removed 3 file(s)");
    assert_eq!(remove_summary(false, 3, 2), "✅ Removed 3 file(s), 2 skipped");
    assert_eq!(remove_summary(false, 0, 2), "⚠️  2 file(s) skipped");
    assert_eq!(remove_summary(false, 0, 0), "📋 Nothing to do");
}

#[test]
fn comparison_sizes() {
    assert_eq!(size_text(500), "500 B");
    assert_eq!(size_text(1024), "1.0 KB");
    assert_eq!(size_text(1536), "1.5 KB");
    assert_eq!(size_text(1_048_576), "1.0 MB");
    assert_eq!(size_text(1_610_612_736), "1.5 GB");
}

#[test]
fn comparison_sides_and_common() {
    let a = files(&[("a.txt", 10), ("b.txt", 2048), ("same.txt", 5)]);
    let b = files(&[("b.txt", 1024), ("c.txt", 3), ("same.txt", 5)]);
    let cmp = compare_dirs(&a, &b);
    assert_eq!(cmp.only_in_first, vec!["a.txt".to_string()]);
    assert_eq!(cmp.only_in_second, vec!["c.txt".to_string()]);
    assert_eq!(cmp.common, vec!["b.txt".to_string(), "same.txt".to_string()]);
    assert_eq!(find_size(&b, "c.txt"), Some(3));
    assert_eq!(find_size(&b, "a.txt"), None);
}

#[test]
fn comparison_report_lines() {
    let a = files(&[("a.txt", 10), ("b.txt", 2048), ("same.txt", 5)]);
    let b = files(&[("b.txt", 1024), ("c.txt", 3), ("same.txt", 5)]);
    let lines = comparison_report("/x/one", "/y/two", "one", "two", &a, &b);
    let rule = "─".repeat(60);
    let expected = vec![
        "🔍 Comparing directories",
        "  /x/one  →  /y/two",
        rule.as_str(),
        "",
        "📊 SUMMARY",
        "  one only:     1",
        "  two only:     1",
        "  Common:     2",
        "",
        "📁 Only in one:",
        "  + a.txt (10 B)",
        "",
        "📁 Only in two:",
        "  + c.txt (3 B)",
        "",
        "📏 Size differences:",
        "  b.txt 2.0 KB → 1.0 KB (1.0 KB)",
        "",
    ];
    assert_eq!(lines, expected);
}

#[test]
fn comparison_report_growth_and_long_lists() {
    let mut a: Vec<(String, u64)> = (0..22).map(|i| (format!("f{}", i), 1)).collect();
    a.push(("grown".to_string(), 100));
    let b = files(&[("grown", 2148)]);
    let lines = comparison_report("x", "y", "x", "y", &a, &b);
    assert!(lines.contains(&"  ... and 2 more".to_string()));
    assert!(lines.contains(&"  grown 100 B → 2.1 KB (+2.0 KB)".to_string()));
    assert!(!lines.contains(&"📁 Only in y:".to_string()));
    assert_eq!(lines.iter().filter(|l| l.starts_with("  + f")).count(), 20);
}

#[test]
fn comparison_scan_rules() {
    assert!(scan_reaches(0, true));
    assert!(scan_reaches(1, true));
    assert!(!scan_reaches(2, true));
    assert!(scan_reaches(50, false));
    assert!(!scan_reaches(51, false));
    assert!(counts_entry("src/main.rs"));
    assert!(!counts_entry(".git"));
    assert!(!counts_entry(""));
}

#[test]
fn shells_and_rc_files() {
    assert_eq!(shell_name(Some("/usr/bin/zsh")), "zsh");
    assert_eq!(shell_name(Some("fish")), "fish");
    assert_eq!(shell_name(None), "sh");
    assert_eq!(shell_config_file("zsh"), ".zshrc");
    assert_eq!(shell_config_file("bash"), ".bashrc");
    assert_eq!(shell_config_file("fish"), ".config/fish/config.fish");
    assert_eq!(shell_config_file("sh"), ".profile");
    assert_eq!(hook_end_line("zsh"), "_f_hook  # fire on new shell/tab startup");
}

#[test]
fn hook_block_is_removed_from_zshrc() {
    let content = "export A=1\nautoload -U add-zsh-hook\n# f auto-banner hook\nautoload -U add-zsh-hook\nadd-zsh-hook chpwd _f_hook\n_f_hook() {\n    command f banner \"$PWD\"\n}\n_f_hook  # fire on new shell/tab startup\n\n";
    assert_eq!(remove_hook_block(content, "zsh"), Some("export A=1\n".to_string()));
    assert_eq!(remove_hook_block("export A=1\n", "zsh"), None);
}

#[test]
fn hook_block_is_removed_from_bashrc() {
    let content = "alias l=ls\n# f auto-banner hook\n_f_hook() {\n}\nPROMPT_COMMAND=\"_f_hook${PROMPT_COMMAND:+;$PROMPT_COMMAND}\"\nexport B=2\n";
    assert_eq!(remove_hook_block(content, "bash"), Some("alias l=ls\nexport B=2\n".to_string()));
}

#[test]
fn install_adds_the_source_line_once() {
    assert_eq!(
        add_source_line("alias x=y\n", "/home/u/.local/bin", "fab-shell.zsh"),
        Some("alias x=y\n\n# f shell function (for cd support)\nsource '/home/u/.local/bin/fab-shell.zsh'\n".to_string())
    );
    assert_eq!(add_source_line("  source /home/u/.local/bin/fab-shell.zsh  \n", "/home/u/.local/bin", "fab-shell.zsh"), None);
    assert_eq!(add_source_line("source '/home/u/.local/bin/fab-shell.zsh'", "/home/u/.local/bin", "fab-shell.zsh"), None);
}

#[test]
fn uninstall_removes_what_install_wrote() {
    let content = "a\n# f shell function (for cd support)\nsource '/h/.local/bin/fab-shell.zsh'\nb\n";
    assert_eq!(remove_source_lines(content), Some("a\nb\n".to_string()));
    assert_eq!(remove_source_lines("a\nsource ~/.profile\n"), None);
}

#[test]
fn reload_hint() {
    let lines = reload_hint_lines("/h/bin", true, false);
    assert_eq!(
        lines,
        vec![
            "",
            "🔄 Activate the shell function in your CURRENT terminal:",
            "    source /h/bin/fab-shell.zsh",
            "",
            "(The source line in your rc file only affects new shells.)",
        ]
    );
    assert_eq!(reload_hint_lines("/h/bin", true, true).len(), 6);
}

#[test]
fn preview_numbers_lines() {
    assert_eq!(preview_lines("one\ntwo\r\nthree", 2), vec!["   1│ one", "   2│ two"]);
    assert_eq!(preview_lines("one\ntwo\r\nthree", 10).len(), 3);
    assert_eq!(preview_lines("", 5).len(), 0);
    assert_eq!(preview_heading("a.txt", 20), "👁️  Peek: a.txt (20 lines)");
}

#[test]
fn open_and_root_reports() {
    assert_eq!(open_summary_lines(2, 1), vec!["✅ Opened 2 file(s)", "⚠️  1 failed"]);
    assert_eq!(open_summary_lines(0, 0).len(), 0);
    assert_eq!(root_line("/repo", true), "cd '/repo'");
    assert_eq!(root_line("/repo", false), "📁 /repo");
}
