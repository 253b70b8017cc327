use core_flasher::image::{select_image_entry, ImageError};
use std::io::{Cursor, Read, Write};

fn build_zip(entries: &[(&str, &[u8])]) -> Vec<u8> {
    let mut writer = zip::ZipWriter::new(Cursor::new(Vec::new()));
    for (name, data) in entries {
        writer.start_file(*name, zip::write::FileOptions::default()).unwrap();
        writer.write_all(data).unwrap();
    }
    writer.finish().unwrap().into_inner()
}

fn entry_names(bytes: Vec<u8>) -> Vec<String> {
    let mut archive = zip::ZipArchive::new(Cursor::new(bytes)).unwrap();
    let mut names = Vec::new();
    for i in 0..archive.len() {
        names.push(archive.by_index(i).unwrap().name().to_string());
    }
    names
}

#[test]
fn zip_without_image_entry_has_no_image() {
    let bytes = build_zip(&[("README.txt", b"read me"), ("docs/manual.pdf", b"%PDF"), ("boot.cfg", b"x")]);
    let names = entry_names(bytes);
    assert_eq!(names.len(), 3);
    assert_eq!(select_image_entry(&names).unwrap_err(), ImageError::NoImageInArchive);
}

#[test]
fn zip_image_entry_is_the_only_one_chosen() {
    let bytes = build_zip(&[("README.txt", b"read me"), ("out/disk.img", b"IMAGE"), ("second.iso", b"ISO")]);
    let names = entry_names(bytes.clone());
    let chosen = select_image_entry(&names).unwrap();
    assert_eq!(chosen.index, 1);
    assert_eq!(chosen.file_name, "disk.img");
    let mut archive = zip::ZipArchive::new(Cursor::new(bytes)).unwrap();
    let mut content = Vec::new();
    archive.by_index(chosen.index).unwrap().read_to_end(&mut content).unwrap();
    assert_eq!(content, b"IMAGE");
}
