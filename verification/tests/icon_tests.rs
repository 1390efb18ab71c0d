use folder_auto_banner::icon::icon_for_mode;

#[test]
fn icon_test_exact_name() {
    assert_eq!(icon_for_mode("Cargo.toml", false, false, false, false), "🦀");
    assert_eq!(icon_for_mode("package.json", false, false, false, false), "📦");
    assert_eq!(icon_for_mode("README.md", false, false, false, false), "📖");
}

#[test]
fn icon_test_extension() {
    assert_eq!(icon_for_mode("main.rs", false, false, false, false), "🦀");
    assert_eq!(icon_for_mode("app.py", false, false, false, false), "🐍");
    assert_eq!(icon_for_mode("index.html", false, false, false, false), "🌐");
    assert_eq!(icon_for_mode("style.css", false, false, false, false), "🎨");
}

#[test]
fn icon_test_fallback() {
    assert_eq!(icon_for_mode("foo", false, false, false, false), "📄");
    assert_eq!(icon_for_mode("foo", false, true, false, false), "⚡");
}

#[test]
fn icon_test_nerd_mode() {
    let result = icon_for_mode("Cargo.toml", false, false, false, true);
    assert!(!result.is_empty());
    assert_ne!(result, "🦀");
}

#[test]
fn icon_does_not_depend_on_name_case() {
    for name in ["Cargo.toml", "README.MD", "Main.RS", "photo.JPG", "package-lock.json", "Makefile"] {
        assert_eq!(
            icon_for_mode(name, false, false, false, false),
            icon_for_mode(&name.to_lowercase(), false, false, false, false)
        );
        assert_eq!(
            icon_for_mode(name, false, true, false, true),
            icon_for_mode(&name.to_lowercase(), false, true, false, true)
        );
    }
}
