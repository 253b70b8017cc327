use core_flasher::diskutil::{
    disk_identifiers, drive_from_diskutil, first_word_of, parse_info, parse_u64, split_lines,
    usb_drives_from_diskutil, DiskutilInfo,
};

const LIST: &str = "/dev/disk4 (external, physical):\n   #:                       TYPE NAME                    SIZE       IDENTIFIER\n   0:     FDisk_partition_scheme                        *31.0 GB    disk4\n   1:                 DOS_FAT_32 KINGSTON                31.0 GB    disk4s1\n\n/dev/disk5 (external, physical):\n   0:      GUID_partition_scheme                        *64.0 GB    disk5\n";

const INFO: &str = "   Device Identifier:         disk4\r\n   Device / Media Name:       Kingston\r\n   Media Name:                DataTraveler 3.0\r\n   Disk Size:                 31.0 GB (31016378368 Bytes) (exactly 60578864 512-Byte-Units)\r\n   Removable Media:           Removable\r\n   Virtual:                   No\r\n   Internal:                  No\r\n";

#[test]
fn identifiers_from_list_output() {
    assert_eq!(disk_identifiers(LIST), vec!["/dev/disk4".to_string(), "/dev/disk5".to_string()]);
    assert!(disk_identifiers("").is_empty());
}

#[test]
fn info_fields_are_read() {
    let info = parse_info(INFO);
    assert_eq!(info.media_name, Some("DataTraveler 3.0".to_string()));
    assert_eq!(info.size, 31016378368);
    assert!(info.removable_media);
    assert!(!info.is_system);
}

#[test]
fn internal_or_virtual_disks_are_system() {
    let internal = parse_info("Media Name: APPLE SSD\nDisk Size: 500.3 GB (500277790720 Bytes)\nInternal: Yes\n");
    assert!(internal.is_system);
    assert!(drive_from_diskutil("/dev/disk6", &internal).is_none());
    let virt = parse_info("Virtual:   Yes");
    assert!(virt.is_system);
    let fixed = parse_info("Removable Media: Fixed");
    assert!(!fixed.removable_media);
}

#[test]
fn unreadable_size_counts_as_zero() {
    assert_eq!(parse_info("Disk Size: 1.0 GB (lots Bytes)").size, 0);
    assert_eq!(parse_info("Disk Size: 1.0 GB").size, 0);
    assert_eq!(parse_info("Disk Size: 2 GB (99999999999999999999 Bytes)").size, 0);
    assert_eq!(parse_info("Disk Size: 2 GB (+2000 Bytes)").size, 2000);
}

#[test]
fn diskutil_drives_are_offerable() {
    let devices = vec!["/dev/disk4".to_string(), "/dev/disk1".to_string(), "/dev/disk6".to_string()];
    let infos = vec![INFO.to_string(), INFO.to_string(), "Internal: Yes".to_string()];
    let drives = usb_drives_from_diskutil(&devices, &infos);
    assert_eq!(drives.len(), 1);
    assert_eq!(drives[0].device, "/dev/disk4");
    assert_eq!(drives[0].name, "DataTraveler 3.0");
    assert_eq!(drives[0].size_human, "31.0 GB");
    assert!(drives[0].removable && !drives[0].is_system);
    let unnamed = DiskutilInfo { media_name: None, size: 0, removable_media: false, is_system: false };
    assert_eq!(drive_from_diskutil("/dev/disk9", &unnamed).unwrap().name, "USB Drive");
}

#[test]
fn text_pieces() {
    assert_eq!(split_lines("a\r\nb\n\nc"), vec!["a", "b", "", "c"]);
    assert_eq!(split_lines("a\n"), vec!["a"]);
    assert!(split_lines("").is_empty());
    assert_eq!(first_word_of("  disk4s1 rest"), "disk4s1");
    assert_eq!(first_word_of("   "), "");
    assert_eq!(parse_u64("18446744073709551615"), Some(u64::MAX));
    assert_eq!(parse_u64("18446744073709551616"), None);
    assert_eq!(parse_u64("+"), None);
    assert_eq!(parse_u64(""), None);
    assert_eq!(parse_u64("12a"), None);
}
