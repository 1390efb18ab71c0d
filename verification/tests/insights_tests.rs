use folder_auto_banner::insights::{classify_insight_file, is_skipped_name, InsightFile, InsightScan, MAX_FILES};

fn comps(p: &str) -> Vec<String> {
    p.split('/').map(|s| s.to_string()).collect()
}

#[test]
fn test_scan_insights_counts_todos_and_loc() {
    let files = [
        ("main.rs", "fn main() {}\n// TODO: finish\n"),
        ("note.md", "# Title\n- [ ] task\n"),
        ("target/skip.rs", "TODO: skipped\n"),
    ];
    let mut scan = InsightScan::new();
    for (path, content) in files {
        let ext = path.rsplit('.').next();
        match classify_insight_file(&comps(path), ext, content.len() as u64, &[]) {
            InsightFile::Scan(e) => scan.add_content(&e, content),
            InsightFile::Oversized => scan.add_oversized(),
            InsightFile::Skip => {}
        }
    }
    let insights = scan.finish();
    assert_eq!(insights.metrics.file_count, 2);
    assert_eq!(insights.metrics.total_loc, 4);
    assert_eq!(insights.todos.count, 2);
}

#[test]
fn first_marker_of_a_line_counts_once() {
    let mut scan = InsightScan::new();
    scan.add_content("rs", "// TODO: FIXME: both\nFIXME here\nHACK: x\nXXX y\nnothing");
    let r = scan.finish();
    assert_eq!(r.todos.count, 4);
    assert_eq!(
        r.todos.by_pattern,
        vec![("TODO:".to_string(), 1), ("FIXME ".to_string(), 1), ("HACK:".to_string(), 1), ("XXX ".to_string(), 1)]
    );
    assert_eq!(r.metrics.total_loc, 5);
}

#[test]
fn lines_counted_like_str_lines() {
    let mut scan = InsightScan::new();
    scan.add_content("txt", "");
    scan.add_content("txt", "one");
    scan.add_content("txt", "one\n");
    scan.add_content("txt", "a\r\nb\r\n");
    let r = scan.finish();
    assert_eq!(r.metrics.total_loc, 0 + 1 + 1 + 2);
    assert_eq!(r.metrics.by_extension, vec![("txt".to_string(), 4)]);
    assert_eq!(r.metrics.file_count, 4);
}

#[test]
fn top_five_extensions_largest_first() {
    let mut scan = InsightScan::new();
    let data = [("a", 1), ("b", 5), ("c", 3), ("d", 5), ("e", 2), ("f", 4), ("", 1)];
    for (ext, n) in data {
        scan.add_content(ext, &"x\n".repeat(n));
    }
    let r = scan.finish();
    let names: Vec<&str> = r.metrics.by_extension.iter().map(|(e, _)| e.as_str()).collect();
    assert_eq!(names, vec!["b", "d", "f", "c", "e"]);
    assert_eq!(r.metrics.total_loc, 21);
}

#[test]
fn classification_rules() {
    assert!(matches!(classify_insight_file(&comps("src/a.rs"), Some("RS"), 10, &[]), InsightFile::Scan(e) if e == "rs"));
    assert!(matches!(classify_insight_file(&comps("src/a"), None, 10, &[]), InsightFile::Skip));
    assert!(matches!(classify_insight_file(&comps("img.PNG"), Some("PNG"), 10, &[]), InsightFile::Skip));
    assert!(matches!(classify_insight_file(&comps("big.rs"), Some("rs"), 300_000, &[]), InsightFile::Oversized));
    let extra = vec!["vendor".to_string()];
    assert!(matches!(classify_insight_file(&comps("vendor/x.rs"), Some("rs"), 1, &extra), InsightFile::Skip));
    assert!(is_skipped_name("node_modules", &[]));
    assert!(is_skipped_name("vendor", &extra));
    assert!(!is_skipped_name("src", &extra));
}

#[test]
fn scan_stops_at_the_file_limit() {
    let mut scan = InsightScan::new();
    for _ in 0..MAX_FILES {
        assert!(!scan.is_full());
        scan.add_oversized();
    }
    assert!(scan.is_full());
    assert_eq!(scan.finish().metrics.file_count, MAX_FILES);
}
