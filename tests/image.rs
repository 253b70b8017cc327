use core_flasher::image::{
    classify_format, entry_file_name, format_name, image_info, is_archive, is_image_entry,
    select_image_entry, ImageError, ImageFormat,
};

fn names(list: &[&str]) -> Vec<String> {
    list.iter().map(|s| s.to_string()).collect()
}

#[test]
fn formats_by_extension_in_any_case() {
    assert_eq!(classify_format("/images/ubuntu.iso"), ImageFormat::Iso);
    assert_eq!(classify_format("RASPIOS.IMG"), ImageFormat::Img);
    assert_eq!(classify_format("installer.Dmg"), ImageFormat::Dmg);
    assert_eq!(classify_format("bundle.zip"), ImageFormat::Zip);
    assert_eq!(classify_format("notes.txt"), ImageFormat::Unknown);
    assert_eq!(classify_format(""), ImageFormat::Unknown);
    assert_eq!(format_name(ImageFormat::Iso), "ISO");
    assert_eq!(format_name(ImageFormat::Unknown), "Unknown");
}

#[test]
fn archives_are_recognised() {
    assert!(is_archive("image.ZIP"));
    assert!(!is_archive("image.iso"));
    assert!(!is_archive("zip"));
}

#[test]
fn first_image_entry_in_archive_order_is_chosen() {
    let entries = names(&["README.md", "docs/", "os/raspios.IMG", "other.iso"]);
    let chosen = select_image_entry(&entries).unwrap();
    assert_eq!(chosen.index, 2);
    assert_eq!(chosen.file_name, "raspios.IMG");
}

#[test]
fn archive_without_image_fails_with_no_image() {
    let entries = names(&["README.md", "checksums.sha256", "iso/", "image.img.txt"]);
    assert_eq!(select_image_entry(&entries).unwrap_err(), ImageError::NoImageInArchive);
    assert_eq!(select_image_entry(&Vec::new()).unwrap_err(), ImageError::NoImageInArchive);
}

#[test]
fn entry_names_and_file_names() {
    assert!(is_image_entry("a/b/c.dmg"));
    assert!(!is_image_entry("c.dmg/"));
    assert_eq!(entry_file_name("a/b/c.iso"), "c.iso");
    assert_eq!(entry_file_name("c.iso"), "c.iso");
    assert_eq!(entry_file_name("dir/"), "");
}

#[test]
fn image_info_describes_the_file() {
    let info = image_info("/tmp/debian.iso".to_string(), "debian.iso".to_string(), 2_000_000);
    assert_eq!(info.format, ImageFormat::Iso);
    assert_eq!(info.size_human, "2.0 MB");
    assert_eq!(info.name, "debian.iso");
    assert_eq!(info.size, 2_000_000);
}
