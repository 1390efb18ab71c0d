use folder_auto_banner::file_metadata::{
    count_zip_entries, extension_of_name, extract_image_resolution, probe_kind, sqlite_table_count, ProbeKind,
};

#[test]
fn test_extract_image_resolution_png() {
    let mut png = vec![0u8; 24];
    png[0] = 0x89;
    png[1] = 0x50;
    png[2] = 0x4E;
    png[3] = 0x47;
    png[4] = 0x0D;
    png[5] = 0x0A;
    png[6] = 0x1A;
    png[7] = 0x0A;
    png[16] = 0x00;
    png[17] = 0x00;
    png[18] = 0x07;
    png[19] = 0x80;
    png[20] = 0x00;
    png[21] = 0x00;
    png[22] = 0x04;
    png[23] = 0x38;

    let result = extract_image_resolution(&png, ".png");
    assert_eq!(result, Some("1920x1080".to_string()));
}

#[test]
fn test_extract_image_resolution_too_short() {
    let png = vec![0u8; 10];
    let result = extract_image_resolution(&png, ".png");
    assert_eq!(result, None);
}

#[test]
fn test_count_zip_entries() {
    let mut zip = Vec::new();
    for _ in 0..3 {
        zip.extend_from_slice(&[0x50, 0x4B, 0x03, 0x04]);
        zip.extend_from_slice(&[0u8; 26]);
    }
    let result = count_zip_entries(&zip);
    assert_eq!(result, Some(3));
}

#[test]
fn test_count_zip_entries_empty() {
    let zip = vec![0u8; 100];
    let result = count_zip_entries(&zip);
    assert_eq!(result, None);
}

#[test]
fn extension_follows_path_rules() {
    assert_eq!(extension_of_name("archive.tar.gz"), Some("gz".to_string()));
    assert_eq!(extension_of_name(".bashrc"), None);
    assert_eq!(extension_of_name("Makefile"), None);
    assert_eq!(extension_of_name(".."), None);
}

#[test]
fn probe_kind_by_extension() {
    assert_eq!(probe_kind("a.png"), ProbeKind::Image);
    assert_eq!(probe_kind("a.zip"), ProbeKind::Zip);
    assert_eq!(probe_kind("a.sqlite3"), ProbeKind::Sqlite);
    assert_eq!(probe_kind("a.mkv"), ProbeKind::Video);
    assert_eq!(probe_kind("README"), ProbeKind::Text);
}

#[test]
fn sqlite_count_is_trimmed_number() {
    assert_eq!(sqlite_table_count(" 12\n"), Some(12));
    assert_eq!(sqlite_table_count("error"), None);
}

fn mp4_with_duration(timescale: u32, duration: u32) -> Vec<u8> {
    let mut b = Vec::new();
    b.extend_from_slice(&40u32.to_be_bytes());
    b.extend_from_slice(b"moov");
    b.extend_from_slice(&32u32.to_be_bytes());
    b.extend_from_slice(b"mvhd");
    b.extend_from_slice(&[0u8; 12]);
    b.extend_from_slice(&timescale.to_be_bytes());
    b.extend_from_slice(&duration.to_be_bytes());
    b.extend_from_slice(&[0u8; 4]);
    b
}

#[test]
fn mp4_duration_and_cut_header() {
    let whole = mp4_with_duration(1000, 65_000);
    assert!(!folder_auto_banner::file_metadata::mp4_header_is_cut(&whole));
    assert_eq!(folder_auto_banner::file_metadata::parse_mp4_duration(&whole), Some("1:05".to_string()));
    let cut = &whole[..30];
    assert!(folder_auto_banner::file_metadata::mp4_header_is_cut(cut));
    assert!(!folder_auto_banner::file_metadata::mp4_header_is_cut(&[0u8; 4]));
}
