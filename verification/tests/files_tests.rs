use emergency_backup::files::{
    check_extension, count_files_and_size, destination_setup, file_extension, has_enough_space,
    is_selected, CopyTally, DestinationSetup, SourceEntry,
};
use std::path::Path;

fn strings(v: &[&str]) -> Vec<String> {
    v.iter().map(|s| s.to_string()).collect()
}

fn file(name: &str, size: u64) -> SourceEntry {
    SourceEntry { name: name.to_string(), is_dir: false, size }
}

fn dir(name: &str) -> SourceEntry {
    SourceEntry { name: name.to_string(), is_dir: true, size: 4096 }
}

#[test]
fn extension_is_after_the_last_dot() {
    assert_eq!(file_extension("archive.tar.gz"), Some("gz"));
    assert_eq!(file_extension("report.pdf"), Some("pdf"));
    assert_eq!(file_extension("foo."), Some(""));
    assert_eq!(file_extension(".a.b"), Some("b"));
    assert_eq!(file_extension(".bashrc"), None);
    assert_eq!(file_extension("noext"), None);
    assert_eq!(file_extension(".."), None);
    assert_eq!(file_extension("."), None);
    assert_eq!(file_extension(""), None);
}

#[test]
fn extension_matches_std_path() {
    for name in ["a.txt", "a.b.c", "...", "a..", ".x.", "héllo.wörld", "x", "..", ".", "..a"] {
        let theirs = Path::new(name).extension().map(|e| e.to_str().unwrap());
        assert_eq!(file_extension(name), theirs, "{}", name);
    }
}

#[test]
fn check_extension_looks_up_the_list() {
    let exts = strings(&["txt", "pdf"]);
    assert!(check_extension("notes.txt", &exts));
    assert!(check_extension("a.b.pdf", &exts));
    assert!(!check_extension("notes.TXT", &exts));
    assert!(!check_extension("txt", &exts));
    assert!(!check_extension("notes.txt", &vec![]));
}

#[test]
fn selection_follows_extensions() {
    let exts = strings(&["txt"]);
    assert!(is_selected(&file("a.txt", 1), &exts));
    assert!(!is_selected(&file("a.pdf", 1), &exts));
    assert!(!is_selected(&dir("d.txt"), &exts));
    assert!(is_selected(&file("a.pdf", 1), &vec![]));
    assert!(!is_selected(&dir("d"), &vec![]));
}

#[test]
fn counts_and_sizes_selected_files() {
    let entries = vec![
        dir("docs"),
        file("a.txt", 100),
        file("b.pdf", 2000),
        dir("sub"),
        file("c.txt", 30),
        file("noext", 7),
    ];
    assert_eq!(count_files_and_size(&entries, &strings(&["txt"])), Some((2, 130)));
    assert_eq!(count_files_and_size(&entries, &strings(&["txt", "pdf"])), Some((3, 2130)));
    assert_eq!(count_files_and_size(&entries, &vec![]), Some((4, 2137)));
    assert_eq!(count_files_and_size(&entries, &strings(&["jpg"])), Some((0, 0)));
    assert_eq!(count_files_and_size(&vec![], &vec![]), Some((0, 0)));
}

#[test]
fn total_size_overflow_is_reported() {
    let entries = vec![file("a", u64::MAX), file("b", 1)];
    assert_eq!(count_files_and_size(&entries, &vec![]), None);
    let entries = vec![file("a", u64::MAX - 1), file("b", 1)];
    assert_eq!(count_files_and_size(&entries, &vec![]), Some((2, u64::MAX)));
}

#[test]
fn destination_setup_cases() {
    assert_eq!(destination_setup(false, 0), DestinationSetup::CreateDestination);
    assert_eq!(destination_setup(true, 0), DestinationSetup::UseDestination);
    assert_eq!(destination_setup(true, 3), DestinationSetup::CreateBackupFolder);
}

#[test]
fn space_check() {
    assert!(has_enough_space(100, 100));
    assert!(has_enough_space(0, 0));
    assert!(!has_enough_space(101, 100));
}

#[test]
fn tally_adds_files_and_bytes() {
    let mut t = CopyTally::new();
    assert_eq!((t.files(), t.bytes()), (0, 0));
    assert!(t.record(100));
    assert!(t.record(30));
    assert_eq!((t.files(), t.bytes()), (2, 130));
    assert!(!t.record(u64::MAX));
    assert_eq!((t.files(), t.bytes()), (2, 130));
}
