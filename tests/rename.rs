use core_flasher::rename::{numbered_name, split_extension, with_new_extension, RenameMode};

#[test]
fn extension_split_at_last_dot() {
    assert_eq!(split_extension("photo.final.JPG"), ("photo.final".to_string(), ".JPG".to_string()));
    assert_eq!(split_extension("README"), ("README".to_string(), "".to_string()));
    assert_eq!(split_extension(".bashrc"), ("".to_string(), ".bashrc".to_string()));
}

#[test]
fn numbering_pads_with_zeros() {
    assert_eq!(numbered_name("IMG_1234.jpg", "holiday_", "_x", 1, 3, 4), "holiday_005_x.jpg");
    assert_eq!(numbered_name("a", "", "", 1234, 2, 0), "1234");
    assert_eq!(numbered_name("b.txt", "n", "", 0, 0, 0), "n0.txt");
}

#[test]
fn extension_mode_adds_a_dot_when_missing() {
    assert_eq!(with_new_extension("movie.mkv", "mp4"), "movie.mp4");
    assert_eq!(with_new_extension("movie.mkv", ".webm"), "movie.webm");
    assert_eq!(with_new_extension("notes", "md"), "notes.md");
}

#[test]
fn rename_modes_are_plain_data() {
    let m = RenameMode::Numbering { prefix: "p".to_string(), suffix: String::new(), start: 1, padding: 2 };
    assert!(matches!(m.clone(), RenameMode::Numbering { start: 1, .. }));
}
