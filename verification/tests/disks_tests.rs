use emergency_backup::disks::{available_space_for, path_starts_with, select_usb_path, DiskInfo};

fn comps(v: &[&str]) -> Vec<String> {
    v.iter().map(|s| s.to_string()).collect()
}

fn disk(mount: Option<&str>, space: u64, removable: bool) -> DiskInfo {
    let components = match mount {
        Some(m) => {
            let mut c = vec!["/".to_string()];
            c.extend(m.split('/').filter(|s| !s.is_empty()).map(|s| s.to_string()));
            c
        }
        None => vec!["/".to_string(), "bad".to_string()],
    };
    DiskInfo {
        mount_point: mount.map(|m| m.to_string()),
        mount_components: components,
        available_space: space,
        is_removable: removable,
    }
}

#[test]
fn usb_is_the_removable_disk_with_most_space() {
    let disks = vec![
        disk(Some("/"), 900, false),
        disk(Some("/media/a"), 10, true),
        disk(Some("/media/b"), 50, true),
        disk(Some("/media/c"), 20, true),
    ];
    assert_eq!(select_usb_path(&disks), Some("/media/b".to_string()));
}

#[test]
fn usb_ties_go_to_the_first() {
    let disks = vec![disk(Some("/media/a"), 50, true), disk(Some("/media/b"), 50, true)];
    assert_eq!(select_usb_path(&disks), Some("/media/a".to_string()));
}

#[test]
fn no_usb_without_free_removable_space() {
    assert_eq!(select_usb_path(&vec![]), None);
    assert_eq!(select_usb_path(&vec![disk(Some("/"), 900, false)]), None);
    assert_eq!(select_usb_path(&vec![disk(Some("/media/a"), 0, true)]), None);
}

#[test]
fn usb_scan_stops_at_unreadable_best_mount_point() {
    let disks = vec![disk(Some("/media/a"), 10, true), disk(None, 50, true), disk(Some("/media/c"), 90, true)];
    assert_eq!(select_usb_path(&disks), None);
    // an unreadable mount point that never becomes the best does not matter
    let disks = vec![disk(Some("/media/a"), 60, true), disk(None, 50, true)];
    assert_eq!(select_usb_path(&disks), Some("/media/a".to_string()));
}

#[test]
fn prefix_is_component_wise() {
    assert!(path_starts_with(&comps(&["/", "media", "usb", "x"]), &comps(&["/", "media", "usb"])));
    assert!(!path_starts_with(&comps(&["/", "media", "usb2"]), &comps(&["/", "media", "usb"])));
    assert!(!path_starts_with(&comps(&["/"]), &comps(&["/", "media"])));
    assert!(path_starts_with(&comps(&["/", "a"]), &comps(&[])));
}

#[test]
fn space_is_that_of_the_first_matching_disk() {
    let disks = vec![disk(Some("/media/usb"), 70, true), disk(Some("/"), 900, false)];
    assert_eq!(available_space_for(&comps(&["/", "media", "usb", "backup"]), &disks), Some(70));
    assert_eq!(available_space_for(&comps(&["/", "home", "me"]), &disks), Some(900));
    let disks = vec![disk(Some("/"), 900, false), disk(Some("/media/usb"), 70, true)];
    assert_eq!(available_space_for(&comps(&["/", "media", "usb"]), &disks), Some(900));
    let disks = vec![disk(Some("/media/usb"), 70, true)];
    assert_eq!(available_space_for(&comps(&["C:", "x"]), &disks), None);
}
