use emergency_backup::naming::{backup_name, backup_name_at, generate_backup_name, last_segment};

#[test]
fn last_segment_follows_the_last_backslash() {
    assert_eq!(last_segment("C:\\Users\\me\\Documents"), "Documents");
    assert_eq!(last_segment("/home/me/docs"), "/home/me/docs");
    assert_eq!(last_segment("C:\\Users\\"), "");
    assert_eq!(last_segment(""), "");
    assert_eq!(last_segment("\\ü"), "ü");
}

#[test]
fn backup_name_is_dest_segment_word_timestamp() {
    assert_eq!(
        backup_name("C:\\Users\\me\\Documents", "E:\\", "20240131235959"),
        "E:\\Documents_backup_20240131235959"
    );
    assert_eq!(backup_name("docs", "/media/usb/", "x"), "/media/usb/docs_backup_x");
}

#[test]
fn generated_name_carries_a_utc_timestamp() {
    let name = generate_backup_name("C:\\data\\photos", "F:\\").unwrap();
    let prefix = "F:\\photos_backup_";
    assert!(name.starts_with(prefix), "{}", name);
    let stamp = &name[prefix.len()..];
    assert_eq!(stamp.len(), 14, "{}", name);
    assert!(stamp.chars().all(|c| c.is_ascii_digit()), "{}", name);
    assert!(stamp.starts_with("20"));
}

#[test]
fn name_at_a_given_time() {
    assert_eq!(
        backup_name_at("C:\\Users\\me\\Documents", "E:\\", 1706745599, 0),
        Some("E:\\Documents_backup_20240131235959".to_string())
    );
    assert_eq!(backup_name_at("docs", "/m/", 0, 999_999_999), Some("/m/docs_backup_19700101000000".to_string()));
    assert_eq!(
        backup_name_at("docs", "/m/", 253402300799, 0),
        Some("/m/docs_backup_99991231235959".to_string())
    );
    assert_eq!(
        backup_name_at("docs", "/m/", 253402300800, 0),
        Some("/m/docs_backup_+100000101000000".to_string())
    );
    assert_eq!(backup_name_at("docs", "/m/", u64::MAX / 2, 0), None);
}
