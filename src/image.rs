//! Image sources: the format of a path by its extension, and the choice of the
//! one archive entry to extract when the path is an archive.
use vstd::prelude::*;
use vstd::string::StrSliceExecFns;
use crate::drives::{human_size, human_size_of};
use crate::text::{ends_with_ci, ends_with_ignore_case};

verus! {

/// Image formats told apart by extension.
#[derive(Clone, Copy, Debug, PartialEq, Eq, Structural)]
pub enum ImageFormat {
    Iso,
    Img,
    Dmg,
    Zip,
    Unknown,
}

/// Why an image source could not be resolved.
#[derive(Clone, Debug, PartialEq, Eq)]
pub enum ImageError {
    /// The archive holds no entry ending in `.iso`, `.img` or `.dmg`.
    NoImageInArchive,
    /// The archive could not be opened or read; the text says why.
    ArchiveUnreadable(String),
}

/// What the interface shows of a chosen image.
#[derive(Clone, Debug)]
pub struct ImageInfo {
    pub path: String,
    pub name: String,
    pub size: u64,
    pub size_human: String,
    pub format: ImageFormat,
}

/// The archive entry to extract: its index in archive order and the file name
/// it gets in the temporary directory.
#[derive(Clone, Debug)]
pub struct ArchiveEntry {
    pub index: usize,
    pub file_name: String,
}

pub open spec fn format_of(path: Seq<char>) -> ImageFormat {
    if ends_with_ci(path, ".iso"@) {
        ImageFormat::Iso
    } else if ends_with_ci(path, ".img"@) {
        ImageFormat::Img
    } else if ends_with_ci(path, ".dmg"@) {
        ImageFormat::Dmg
    } else if ends_with_ci(path, ".zip"@) {
        ImageFormat::Zip
    } else {
        ImageFormat::Unknown
    }
}

/// A raw image that can be written as it is.
pub open spec fn is_image_name(name: Seq<char>) -> bool {
    ends_with_ci(name, ".iso"@) || ends_with_ci(name, ".img"@) || ends_with_ci(name, ".dmg"@)
}

/// The format of a path, from its extension in any letter case.
pub fn classify_format(path: &str) -> (r: ImageFormat)
    ensures
        r == format_of(path@),
{
    if ends_with_ignore_case(path, ".iso") {
        ImageFormat::Iso
    } else if ends_with_ignore_case(path, ".img") {
        ImageFormat::Img
    } else if ends_with_ignore_case(path, ".dmg") {
        ImageFormat::Dmg
    } else if ends_with_ignore_case(path, ".zip") {
        ImageFormat::Zip
    } else {
        ImageFormat::Unknown
    }
}

/// The display name of a format.
pub fn format_name(f: ImageFormat) -> (r: &'static str)
    ensures
        f == ImageFormat::Iso ==> r@ == "ISO"@,
        f == ImageFormat::Img ==> r@ == "IMG"@,
        f == ImageFormat::Dmg ==> r@ == "DMG"@,
        f == ImageFormat::Zip ==> r@ == "ZIP"@,
        f == ImageFormat::Unknown ==> r@ == "Unknown"@,
{
    match f {
        ImageFormat::Iso => "ISO",
        ImageFormat::Img => "IMG",
        ImageFormat::Dmg => "DMG",
        ImageFormat::Zip => "ZIP",
        ImageFormat::Unknown => "Unknown",
    }
}

/// Whether the path names an archive that must be extracted first.
pub fn is_archive(path: &str) -> (r: bool)
    ensures
        r == ends_with_ci(path@, ".zip"@),
{
    ends_with_ignore_case(path, ".zip")
}

/// Whether an archive entry is a raw image.
pub fn is_image_entry(name: &str) -> (r: bool)
    ensures
        r == is_image_name(name@),
{
    ends_with_ignore_case(name, ".iso") || ends_with_ignore_case(name, ".img") || ends_with_ignore_case(
        name,
        ".dmg",
    )
}

/// The text after the last `/` of `s`, or all of `s` when it has none.
pub open spec fn last_segment(s: Seq<char>) -> Seq<char>
    decreases s.len(),
{
    if s.len() == 0 {
        s
    } else if s.last() == '/' {
        Seq::empty()
    } else {
        last_segment(s.drop_last()).push(s.last())
    }
}

/// The file name that an extracted entry gets: its last path segment.
pub fn entry_file_name(name: &str) -> (r: String)
    ensures
        r@ == last_segment(name@),
{
    let n = name.unicode_len();
    let mut start: usize = n;
    assert(name@.subrange(0, n as int) == name@);
    assert(last_segment(name@) + name@.subrange(n as int, n as int) == last_segment(name@));
    while start > 0 && name.get_char(start - 1) != '/'
        invariant
            n == name@.len(),
            start <= n,
            last_segment(name@) == last_segment(name@.subrange(0, start as int)) + name@.subrange(start as int, n as int),
        decreases start,
    {
        let ghost pre = name@.subrange(0, start as int);
        assert(pre.drop_last() == name@.subrange(0, start - 1));
        assert(name@.subrange(start - 1, n as int) == seq![pre.last()] + name@.subrange(start as int, n as int));
        assert(last_segment(pre) == last_segment(pre.drop_last()).push(pre.last()));
        assert(last_segment(pre.drop_last()).push(pre.last()) + name@.subrange(start as int, n as int)
            == last_segment(pre.drop_last()) + (seq![pre.last()] + name@.subrange(start as int, n as int)));
        start = start - 1;
    }
    let ghost pre = name@.subrange(0, start as int);
    assert(last_segment(pre) == Seq::<char>::empty());
    assert(Seq::<char>::empty() + name@.subrange(start as int, n as int) == name@.subrange(start as int, n as int));
    name.substring_char(start, n).to_string()
}

/// Picks the first raw image of an archive, in archive order.
pub fn select_image_entry(names: &Vec<String>) -> (r: Result<ArchiveEntry, ImageError>)
    ensures
        r is Ok ==> {
            let i = r->Ok_0.index as int;
            &&& 0 <= i < names@.len()
            &&& is_image_name(names@[i]@)
            &&& forall|j: int| 0 <= j < i ==> !is_image_name(#[trigger] names@[j]@)
            &&& r->Ok_0.file_name@ == last_segment(names@[i]@)
        },
        r is Err <==> forall|j: int| 0 <= j < names@.len() ==> !is_image_name(#[trigger] names@[j]@),
        r is Err ==> r == Err::<ArchiveEntry, ImageError>(ImageError::NoImageInArchive),
{
    let mut i: usize = 0;
    while i < names.len()
        invariant
            i <= names@.len(),
            forall|j: int| 0 <= j < i ==> !is_image_name(#[trigger] names@[j]@),
        decreases names@.len() - i,
    {
        if is_image_entry(names[i].as_str()) {
            let file_name = entry_file_name(names[i].as_str());
            return Ok(ArchiveEntry { index: i, file_name });
        }
        i = i + 1;
    }
    Err(ImageError::NoImageInArchive)
}

/// The description of an image from its path, file name and size.
pub fn image_info(path: String, name: String, size: u64) -> (r: ImageInfo)
    ensures
        r.path@ == path@,
        r.name@ == name@,
        r.size == size,
        r.size_human@ == human_size_of(size),
        r.format == format_of(path@),
{
    let format = classify_format(path.as_str());
    ImageInfo { path, name, size, size_human: human_size(size), format }
}

} // verus!
