use folder_auto_banner::state::Config;

#[test]
fn test_config_default() {
    let config = Config::default();
    assert!(config.icons);
    assert!(config.colors);
    assert!(!config.compact);
    assert_eq!(config.max_display_items, 0);
    assert_eq!(config.permission, "rwx");
    assert_eq!(config.size, "default");
    assert_eq!(config.date, "date");
    assert!(!config.classify);
    assert!(!config.no_symlink);
    assert!(config.total_size);
    assert!(config.git_status);
    assert!(!config.build_status);
    assert!(config.todo_count);
    assert!(config.languages);
    assert!(config.ports);
    assert!(config.docker);
    assert!(config.ignore_dirs.contains(&"node_modules".to_string()));
    assert!(config.ignore_dirs.contains(&".pi".to_string()));
    assert!(config.ignore_dirs.contains(&".opencode".to_string()));
}
