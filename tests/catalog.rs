use core_flasher::drives::{
    drive_from_lsblk, drive_from_windows, find_target, is_system_mount_point, usb_drives_from_lsblk,
    usb_drives_from_powershell, DriveInfo, LsblkDevice, WindowsDisk,
};
use core_flasher::engine::FlashError;

fn device(name: &str, size: u64, rm: bool, kind: &str, tran: &str, label: Option<&str>, mounts: &[&str]) -> LsblkDevice {
    LsblkDevice {
        name: name.to_string(),
        size,
        removable: rm,
        dev_type: kind.to_string(),
        transport: tran.to_string(),
        label: label.map(|l| l.to_string()),
        mountpoints: mounts.iter().map(|m| m.to_string()).collect(),
    }
}

/// A laptop disk, a USB stick, a USB disk, a USB disk mounted at /home, a CD drive and an SD card.
fn listing() -> Vec<LsblkDevice> {
    vec![
        device("sda", 512110190592, false, "disk", "sata", None, &["/boot/efi", "/"]),
        device("sdb", 31016378368, true, "disk", "usb", Some("KINGSTON"), &["/media/user/KINGSTON"]),
        device("sdc", 64023257088, false, "disk", "usb", None, &[]),
        device("sdd", 8000000000, true, "disk", "usb", None, &["/home"]),
        device("sr0", 1073741312, true, "rom", "sata", None, &[]),
        device("mmcblk0", 15931539456, true, "disk", "", Some("SD"), &[]),
    ]
}

fn lsblk_device(name: &str, rm: bool, tran: &str, mounts: &[&str]) -> LsblkDevice {
    LsblkDevice {
        name: name.to_string(),
        size: 1000,
        removable: rm,
        dev_type: "disk".to_string(),
        transport: tran.to_string(),
        label: None,
        mountpoints: mounts.iter().map(|m| m.to_string()).collect(),
    }
}

fn assert_offerable(drives: &[DriveInfo]) {
    for d in drives {
        assert!(d.removable);
        assert!(!d.is_system);
    }
}

#[test]
fn lsblk_listing_keeps_only_safe_removable_disks() {
    let drives = usb_drives_from_lsblk(&listing());
    assert_offerable(&drives);
    let devices: Vec<&str> = drives.iter().map(|d| d.device.as_str()).collect();
    assert_eq!(devices, vec!["/dev/sdb", "/dev/sdc", "/dev/mmcblk0"]);
    assert_eq!(drives[0].name, "KINGSTON");
    assert_eq!(drives[0].size, 31016378368);
    assert_eq!(drives[0].size_human, "31.0 GB");
    assert_eq!(drives[1].name, "sdc");
    assert_eq!(drives[2].name, "SD");
}

#[test]
fn lsblk_without_drives_is_an_empty_list() {
    assert!(usb_drives_from_lsblk(&Vec::new()).is_empty());
}

#[test]
fn system_mount_points() {
    for m in ["/", "/boot", "/home", "/boot/efi"] {
        assert!(is_system_mount_point(m));
    }
    for m in ["", "/media/usb", "/bootstrap", "/home2", "/mnt/boot"] {
        assert!(!is_system_mount_point(m));
    }
}

#[test]
fn lsblk_classification_rules() {
    let d = drive_from_lsblk(&lsblk_device("sdb", false, "usb", &["/media/x"])).unwrap();
    assert_eq!(d.device, "/dev/sdb");
    assert!(d.removable && !d.is_system);
    assert_eq!(d.size_human, "1.0 KB");
    assert!(drive_from_lsblk(&lsblk_device("sdb", true, "", &[])).is_some());
    assert!(drive_from_lsblk(&lsblk_device("sda", false, "sata", &[])).is_none());
    assert!(drive_from_lsblk(&lsblk_device("sdb", true, "usb", &["/boot/efi"])).is_none());
    let mut part = lsblk_device("sdb1", true, "usb", &[]);
    part.dev_type = "part".to_string();
    assert!(drive_from_lsblk(&part).is_none());
}

fn disk(number: u64, name: Option<&str>, size: u64, is_system: bool) -> WindowsDisk {
    WindowsDisk { number, friendly_name: name.map(|n| n.to_string()), size, is_system }
}

#[test]
fn powershell_listing_skips_system_disks() {
    let drives = usb_drives_from_powershell(&vec![
        disk(2, Some("SanDisk Ultra"), 30752000000, false),
        disk(0, Some("Boot USB"), 500107862016, true),
        disk(13, None, 999, false),
    ]);
    assert_offerable(&drives);
    assert_eq!(drives.len(), 2);
    assert_eq!(drives[0].device, "\\\\.\\PhysicalDrive2");
    assert_eq!(drives[0].name, "SanDisk Ultra");
    assert_eq!(drives[1].device, "\\\\.\\PhysicalDrive13");
    assert_eq!(drives[1].name, "USB Drive");
    assert_eq!(drives[1].size_human, "999 B");
}

#[test]
fn windows_record_classification() {
    let disk = WindowsDisk { number: 7, friendly_name: None, size: 0, is_system: false };
    let d = drive_from_windows(&disk).unwrap();
    assert_eq!(d.device, "\\\\.\\PhysicalDrive7");
    assert!(drive_from_windows(&WindowsDisk { is_system: true, ..disk }).is_none());
}

#[test]
fn target_must_still_be_listed_and_safe() {
    let drives = usb_drives_from_lsblk(&listing());
    assert_eq!(find_target(&drives, "/dev/sdb").unwrap().name, "KINGSTON");
    assert_eq!(find_target(&drives, "/dev/sda").unwrap_err(), FlashError::DriveNotFound);
    let mut forged = drives.clone();
    forged[0].is_system = true;
    assert_eq!(find_target(&forged, "/dev/sdb").unwrap_err(), FlashError::SafetyViolation);
}

fn human(size: u64) -> String {
    core_flasher::image::image_info("x.iso".to_string(), "x.iso".to_string(), size).size_human
}

#[test]
fn human_sizes_follow_bytesize() {
    assert_eq!(human(0), "0 B");
    assert_eq!(human(999), "999 B");
    assert_eq!(human(1000), "1.0 KB");
    assert_eq!(human(10 * 1024 * 1024), "10.5 MB");
}

#[test]
fn raw_device_paths() {
    assert_eq!(core_flasher::drives::raw_device_path("/dev/disk4"), "/dev/rdisk4");
    assert_eq!(core_flasher::drives::raw_device_path("/dev/sdb"), "/dev/sdb");
}
