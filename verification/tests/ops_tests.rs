use folder_auto_banner::docker::{compose_filter, detect_docker, docker_detail, docker_markers, parse_containers, running_count, volume_filter};
use folder_auto_banner::ops::{
    collision_action, dest_is_directory, dry_run_summary, transfer_destination, transfer_step, trash_id,
    trash_summary_lines, CollisionAction, TransferStep, TrashItem, TrashManifest,
};
use folder_auto_banner::ports::{detect_ports, ports_detail, PortInfo};

#[test]
fn collisions_overwrite_then_rename_then_skip() {
    assert_eq!(collision_action(true, true), CollisionAction::Overwrite);
    assert_eq!(collision_action(false, true), CollisionAction::Rename);
    assert_eq!(collision_action(false, false), CollisionAction::Skip);
    assert_eq!(transfer_step(false, true, true, true), TransferStep::SkipMissing);
    assert_eq!(transfer_step(true, false, false, false), TransferStep::Plain);
    assert_eq!(transfer_step(true, true, false, false), TransferStep::SkipExisting);
    assert_eq!(transfer_step(true, true, true, false), TransferStep::Overwrite);
}

#[test]
fn destinations() {
    assert!(dest_is_directory(false, "out/"));
    assert!(!dest_is_directory(false, "out.txt"));
    assert_eq!(transfer_destination("/tmp/out", true, Some("a.txt")), Some("/tmp/out/a.txt".to_string()));
    assert_eq!(transfer_destination("/tmp/out/", true, Some("a.txt")), Some("/tmp/out/a.txt".to_string()));
    assert_eq!(transfer_destination("/tmp/b.txt", false, Some("a.txt")), Some("/tmp/b.txt".to_string()));
    assert_eq!(transfer_destination("/tmp/out", true, None), None);
    assert_eq!(dry_run_summary("copy", 2, 1, 0), "📋 Would copy 2 file(s), 1 overwrite(s), 0 skip(s)");
}

#[test]
fn trash_records_and_reports() {
    assert_eq!(trash_id(255), "ff");
    assert_eq!(trash_id(0), "0");
    assert_eq!(trash_id(0x1a2b), "1a2b");
    let mut m = TrashManifest::new();
    m.record(TrashItem {
        id: "1".to_string(),
        original_path: "/a".to_string(),
        trash_path: "/t/1".to_string(),
        deleted_at: "2024-01-15 10:30:00".to_string(),
        original_size: 3,
    });
    assert_eq!(m.items.len(), 1);
    assert_eq!(trash_summary_lines(2, 1), vec!["🗑️  Moved 2 file(s) to trash, 1 skipped", "💡 Use 'fm restore-trash' to recover files"]);
    assert_eq!(trash_summary_lines(0, 3), vec!["⚠️  3 file(s) skipped"]);
    assert_eq!(trash_summary_lines(0, 0), vec!["📋 Nothing to do"]);
}

#[test]
fn docker_detection() {
    assert_eq!(docker_markers(&["compose.yaml".to_string()]), (true, false));
    assert_eq!(docker_markers(&["Dockerfile.dev".to_string()]), (false, true));
    let none = detect_docker(&[], None, None).unwrap();
    assert!(!none.has_compose && !none.has_dockerfile && none.containers.is_empty());
    let files = vec!["docker-compose.yml".to_string()];
    assert!(detect_docker(&files, None, Some("x:Up")).is_none());
    let d = detect_docker(&files, Some("web:Up 2 hours\ndb:Exited (0)\nnoise\n"), None).unwrap();
    assert_eq!(d.containers.len(), 2);
    assert_eq!(d.containers[0].name, "web");
    assert_eq!(d.containers[0].status, "Up 2 hours");
    assert_eq!(running_count(&d.containers), 1);
    assert_eq!(docker_detail(&d, false), Some("🐳 1 up container(s)".to_string()));
    let v = detect_docker(&files, Some(""), Some("api:Up 1 minute")).unwrap();
    assert_eq!(v.containers[0].name, "api");
    assert!(detect_docker(&files, Some(""), None).is_none());
    let empty = detect_docker(&files, Some(""), Some("")).unwrap();
    assert_eq!(docker_detail(&empty, false), Some("🐳 docker".to_string()));
    assert_eq!(compose_filter("proj"), "label=com.docker.compose.project=proj");
    assert_eq!(volume_filter("/p"), "volume=/p");
    assert_eq!(parse_containers("a:b:c").len(), 1);
    assert_eq!(parse_containers("a:b:c")[0].status, "b:c");
}

#[test]
fn ports_detection_and_detail() {
    let inside = |ports: Vec<u16>| (vec!["/home/u/proj/web".to_string()], ports);
    let outside = |ports: Vec<u16>| (vec!["/home/u/other".to_string()], ports);
    assert_eq!(
        detect_ports("/home/u/proj", Some(vec![inside(vec![8080]), outside(vec![5432]), inside(vec![3000, 8080])]), Some(vec![inside(vec![1])]))
            .ports,
        vec![3000, 8080]
    );
    assert_eq!(detect_ports("/home/u/proj", None, Some(vec![inside(vec![8080])])).ports, vec![8080]);
    assert_eq!(detect_ports("/home/u/proj", Some(vec![(vec!["/home/u/proj".to_string()], vec![9000])]), None).ports, vec![9000]);
    assert!(detect_ports("/home/u/proj", Some(vec![(vec!["/home/u/projector".to_string()], vec![9000])]), None).ports.is_empty());
    assert!(detect_ports("/home/u/proj", Some(vec![(Vec::new(), vec![9000])]), None).ports.is_empty());
    assert!(detect_ports("/home/u/proj", None, None).ports.is_empty());
    let p = PortInfo { ports: vec![3000, 8080] };
    assert_eq!(ports_detail(&p, false), Some("🔌 :3000, :8080".to_string()));
    assert_eq!(ports_detail(&PortInfo { ports: vec![] }, true), None);
    assert_eq!(ports_detail(&PortInfo { ports: vec![1] }, true), Some("\x1b[36m🔌 :1\x1b[0m".to_string()));
}
