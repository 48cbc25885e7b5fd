use eli_lib::bootdisk::{bootdisk_lock_name, stable_hash};
use eli_lib::bootdisk::{
    decode_mount_path, explicit_selection, get, normalize_partition_identifier,
    parse_linux_mount_info, parse_macos_mount_table, resolve_preferred_partition,
    select_boot_disk, unique_partitions, BootDisk, BootDiskSelectionSource, GetStep,
    MountedPartition, Platform,
};
use eli_lib::error::ErrorKind;
use eli_lib::mount_points;

fn partition(identifier: &str, mount_point: &str) -> MountedPartition {
    MountedPartition { identifier: identifier.to_owned(), mount_point: mount_point.to_owned() }
}

fn pairs(partitions: &[MountedPartition]) -> Vec<(String, String)> {
    partitions.iter().map(|p| (p.identifier.clone(), p.mount_point.clone())).collect()
}

fn disk(partition: &str, mount_point: &str, version: &str) -> BootDisk {
    BootDisk {
        partition: partition.to_owned(),
        mount_point: mount_point.to_owned(),
        version: version.to_owned(),
    }
}

const MOUNT_INFO: &str = "22 1 8:1 / / rw,relatime - ext4 /dev/sda1 rw\n\
23 1 8:2 / /media/Edgeless\\040USB rw,relatime - vfat /dev/sdb1 rw\n\
24 1 8:2 / /media/Edgeless\\040USB rw,relatime - vfat /dev/sdb1 rw\n";

const MOUNT_TABLE: &str = "/dev/disk3s1 on /Volumes/Edgeless USB (msdos, local)\n\
/dev/disk1s1 on / (apfs, local, read-only)\n";

#[test]
fn bootdisk_decodes_escaped_mount_paths() {
    assert_eq!(mount_points::decode_mount_path(r"/media/Edgeless\040USB"), "/media/Edgeless USB");
}

#[test]
fn bootdisk_parses_linux_mount_info_and_removes_duplicates() {
    assert_eq!(
        mount_points::parse_linux_mount_info(MOUNT_INFO),
        vec!["/".to_owned(), "/media/Edgeless USB".to_owned()]
    );
}

#[test]
fn bootdisk_parses_macos_mount_table() {
    assert_eq!(
        mount_points::parse_macos_mount_table(MOUNT_TABLE),
        vec!["/".to_owned(), "/Volumes/Edgeless USB".to_owned()]
    );
}

#[test]
fn mod_decodes_escaped_mount_paths() {
    assert_eq!(decode_mount_path(r"/media/Edgeless\040USB"), "/media/Edgeless USB");
}

#[test]
fn mod_parses_linux_mount_info_and_removes_duplicates() {
    assert_eq!(
        pairs(&parse_linux_mount_info(MOUNT_INFO)),
        pairs(&[partition("/dev/sda1", "/"), partition("/dev/sdb1", "/media/Edgeless USB")])
    );
}

#[test]
fn mod_parses_macos_mount_table() {
    assert_eq!(
        pairs(&parse_macos_mount_table(MOUNT_TABLE)),
        pairs(&[
            partition("/dev/disk1s1", "/"),
            partition("/dev/disk3s1", "/Volumes/Edgeless USB"),
        ])
    );
}

#[test]
fn decodes_other_octal_escapes_and_keeps_bad_ones() {
    assert_eq!(decode_mount_path(r"/a\011b"), "/a\tb");
    assert_eq!(decode_mount_path(r"/a\134b"), "/a\\b");
    assert_eq!(decode_mount_path(r"/a\9zz"), r"/a\9zz");
}

#[test]
fn unique_partitions_sort_by_mount_point_and_drop_repeats() {
    let result = unique_partitions(vec![
        partition("/dev/b", "/media/B"),
        partition("/dev/a", "/media/A"),
        partition("/dev/b2", "/media/B"),
    ]);
    let mounts: Vec<&str> = result.iter().map(|p| p.mount_point.as_str()).collect();
    assert_eq!(mounts, vec!["/media/A", "/media/B"]);
    assert_eq!(result[0].identifier, "/dev/a");
    assert!(result[1].identifier == "/dev/b" || result[1].identifier == "/dev/b2");
}

#[test]
fn automatic_selection_chooses_the_greatest_mount_point() {
    let candidates = vec![disk("/dev/a", "/media/A", "a"), disk("/dev/z", "/media/Z", "z")];

    let result = select_boot_disk(candidates).unwrap();

    assert_eq!(result.selected.mount_point, "/media/Z");
    assert_eq!(result.candidates.len(), 2);
    assert_eq!(result.source, BootDiskSelectionSource::Automatic);
}

#[test]
fn automatic_selection_fails_when_no_boot_disk_exists() {
    let error = select_boot_disk(Vec::new()).unwrap_err();

    assert_eq!(error.kind(), ErrorKind::NotFound);
}

#[test]
fn automatic_selection_lists_candidates_greatest_first() {
    let result = select_boot_disk(vec![
        disk("/dev/b", "/media/B", "b"),
        disk("/dev/z", "/media/Z", "z"),
        disk("/dev/a", "/media/A", "a"),
    ])
    .unwrap();
    let order: Vec<&str> = result.candidates.iter().map(|d| d.mount_point.as_str()).collect();
    assert_eq!(order, vec!["/media/Z", "/media/B", "/media/A"]);
}

#[test]
fn resolves_a_device_identifier_with_a_trailing_separator() {
    let mounted = vec![partition("/dev/eli-test", "/media/edgeless")];
    let requested = normalize_partition_identifier("/dev/eli-test/", Platform::Unix);

    let result = resolve_preferred_partition(&requested, &mounted, Platform::Unix).unwrap();

    assert_eq!(result.identifier, "/dev/eli-test");
    assert_eq!(result.mount_point, "/media/edgeless");
}

#[test]
fn an_unknown_device_identifier_is_not_found() {
    let mounted = vec![partition("/dev/sda1", "/")];
    let error = resolve_preferred_partition("/dev/missing", &mounted, Platform::Unix).unwrap_err();
    assert_eq!(error.kind(), ErrorKind::NotFound);
}

#[test]
fn normalizes_windows_drive_prefix_variants() {
    for value in [r"u:", "U:", "u:/"] {
        assert_eq!(normalize_partition_identifier(value, Platform::Windows), "U:");
    }
}

#[test]
fn a_named_partition_is_read_explicitly() {
    let mounted = vec![partition("/dev/sdb1", "/media/usb")];
    match get(Some("/dev/sdb1"), Platform::Unix, &mounted, Vec::new()).unwrap() {
        GetStep::ReadExplicit(p) => assert_eq!(p.mount_point, "/media/usb"),
        GetStep::Selected(_) => panic!("expected an explicit read"),
    }
    match get(None, Platform::Unix, &mounted, vec![disk("/dev/sdb1", "/media/usb", "v")]).unwrap() {
        GetStep::Selected(s) => assert_eq!(s.selected.partition, "/dev/sdb1"),
        GetStep::ReadExplicit(_) => panic!("expected an automatic choice"),
    }
    let explicit = explicit_selection(disk("/dev/sdb1", "/media/usb", "v"));
    assert_eq!(explicit.source, BootDiskSelectionSource::Explicit);
    assert_eq!(explicit.candidates.len(), 1);
}

#[test]
fn boot_disk_locks_are_named_by_a_stable_hash() {
    assert_eq!(stable_hash(""), 0xcbf29ce484222325);
    assert_eq!(stable_hash("a"), 0xaf63dc4c8601ec8c);
    assert_eq!(bootdisk_lock_name("a"), "bootdisk-af63dc4c8601ec8c.lock");
    assert_eq!(bootdisk_lock_name(""), "bootdisk-cbf29ce484222325.lock");
}

#[test]
fn the_automatic_choice_lists_every_boot_disk_highest_mount_point_first() {
    let found = vec![
        disk("/dev/sdb1", "/media/b", "v"),
        disk("/dev/sdd1", "/media/d", "v"),
        disk("/dev/sdc1", "/media/c", "v"),
    ];
    match get(None, Platform::Unix, &Vec::new(), found).unwrap() {
        GetStep::Selected(s) => {
            let order: Vec<&str> = s.candidates.iter().map(|d| d.mount_point.as_str()).collect();
            assert_eq!(order, vec!["/media/d", "/media/c", "/media/b"]);
            assert_eq!(s.selected.mount_point, "/media/d");
            assert_eq!(s.source, BootDiskSelectionSource::Automatic);
        }
        GetStep::ReadExplicit(_) => panic!("expected an automatic choice"),
    }
    assert_eq!(get(None, Platform::Unix, &Vec::new(), Vec::new()).unwrap_err().kind(), ErrorKind::NotFound);
}
