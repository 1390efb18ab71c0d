use folder_auto_banner::routing::{expand_lazy_flags, is_explicit_path, route_args, Route};

#[test]
fn test_expand_lazy_flags_single_char() {
    assert_eq!(expand_lazy_flags("t"), Some(vec!['t']));
    assert_eq!(expand_lazy_flags("S"), Some(vec!['S']));
    assert_eq!(expand_lazy_flags("X"), Some(vec!['X']));
    assert_eq!(expand_lazy_flags("a"), Some(vec!['a']));
}

#[test]
fn test_expand_lazy_flags_all_flags() {
    assert_eq!(expand_lazy_flags("trc"), Some(vec!['t', 'r', 'c']));
    assert_eq!(expand_lazy_flags("tS"), Some(vec!['t', 'S']));
    assert_eq!(expand_lazy_flags("aG"), Some(vec!['a', 'G']));
}

#[test]
fn test_expand_lazy_flags_rejects_non_flag() {
    assert_eq!(expand_lazy_flags("z"), None);
    assert_eq!(expand_lazy_flags("tz"), None);
    assert_eq!(expand_lazy_flags("trz"), None);
    assert_eq!(expand_lazy_flags("Downloads"), None);
    assert_eq!(expand_lazy_flags("Q"), None);
    assert_eq!(expand_lazy_flags(""), None);
}

#[test]
fn test_expand_lazy_flags_case_insensitive_uppercase() {
    assert_eq!(expand_lazy_flags("s"), Some(vec!['S']));
    assert_eq!(expand_lazy_flags("g"), Some(vec!['G']));
    assert_eq!(expand_lazy_flags("d"), Some(vec!['D']));
    assert_eq!(expand_lazy_flags("l"), Some(vec!['L']));
    assert_eq!(expand_lazy_flags("u"), Some(vec!['U']));
    assert_eq!(expand_lazy_flags("r"), Some(vec!['r']));
}

#[test]
fn test_expand_lazy_flags_preserves_x_case() {
    assert_eq!(expand_lazy_flags("x"), Some(vec!['x']));
    assert_eq!(expand_lazy_flags("X"), Some(vec!['X']));
}

#[test]
fn test_is_explicit_path() {
    assert!(is_explicit_path("./Downloads"));
    assert!(is_explicit_path("/home/user"));
    assert!(is_explicit_path("~/Downloads"));
    assert!(is_explicit_path("../sibling"));
    assert!(!is_explicit_path("Downloads"));
    assert!(!is_explicit_path("trc"));
    assert!(!is_explicit_path("t"));
    assert!(!is_explicit_path(""));
}

#[test]
fn test_banner_default() {
    // A bare `f` reaches the argument parser unchanged, with no subcommand: the banner.
    match route_args(&[]) {
        Route::AsGiven => {}
        Route::Rewritten(args) => assert_eq!(args[1], "banner", "Expected Banner or None, got something else"),
    }
    match route_args(&["-a".to_string()]) {
        Route::AsGiven => {}
        Route::Rewritten(args) => assert_eq!(args[1], "banner", "Expected Banner or None, got something else"),
    }
}
