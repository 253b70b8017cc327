//! Batch-rename records, and the name arithmetic of the numbering and extension modes.
use vstd::prelude::*;
use vstd::string::{StrSliceExecFns, StringExecFns};
use crate::text::{decimal, decimal_of, starts_with, is_prefix};

verus! {

#[derive(Clone, Debug)]
pub struct FileEntry {
    pub path: String,
    pub name: String,
}

#[derive(Clone, Debug)]
pub struct PreviewItem {
    pub path: String,
    pub old_name: String,
    pub new_name: String,
    pub changed: bool,
}

#[derive(Clone, Debug)]
pub struct RenameResult {
    pub renamed: usize,
    pub errors: Vec<String>,
}

/// How a batch of files is renamed.
#[derive(Clone, Debug)]
pub enum RenameMode {
    FindReplace { find: String, replace: String, use_regex: bool },
    Numbering { prefix: String, suffix: String, start: usize, padding: usize },
    DateStamp { format: String, position: String, separator: String },
    Extension { new_ext: String },
    CaseChange { case_type: String },
    Regex { pattern: String, replacement: String, apply_to: String },
}

/// The index of the last `.` of `s`, or -1 when it has none.
pub open spec fn last_dot(s: Seq<char>) -> int
    decreases s.len(),
{
    if s.len() == 0 {
        -1
    } else if s.last() == '.' {
        s.len() - 1
    } else {
        last_dot(s.drop_last())
    }
}

/// Where the extension of a file name starts: at its last `.`, or at its end.
pub open spec fn ext_start(s: Seq<char>) -> int {
    if last_dot(s) < 0 {
        s.len() as int
    } else {
        last_dot(s)
    }
}

proof fn lemma_last_dot(s: Seq<char>)
    ensures
        -1 <= last_dot(s) < s.len(),
        last_dot(s) >= 0 ==> s[last_dot(s)] == '.',
        forall|k: int| last_dot(s) < k < s.len() ==> s[k] != '.',
    decreases s.len(),
{
    if s.len() > 0 {
        lemma_last_dot(s.drop_last());
        assert forall|k: int| 0 <= k < s.len() - 1 implies s.drop_last()[k] == s[k] by {}
    }
}

proof fn lemma_ext_start_bounds(s: Seq<char>)
    ensures
        0 <= ext_start(s) <= s.len(),
        ext_start(s) < s.len() ==> s[ext_start(s)] == '.',
        forall|k: int| ext_start(s) < k < s.len() ==> s[k] != '.',
        ext_start(s) == s.len() ==> forall|k: int| 0 <= k < s.len() ==> s[k] != '.',
{
    lemma_last_dot(s);
}

/// A file name split at its last `.`: the stem, and the extension with its dot.
pub fn split_extension(filename: &str) -> (r: (String, String))
    ensures
        r.0@ == filename@.subrange(0, ext_start(filename@)),
        r.1@ == filename@.subrange(ext_start(filename@), filename@.len() as int),
{
    proof { lemma_ext_start_bounds(filename@); }
    let n = filename.unicode_len();
    let mut k: usize = n;
    while k > 0 && filename.get_char(k - 1) != '.'
        invariant
            n == filename@.len(),
            k <= n,
            forall|j: int| k <= j < n ==> filename@[j] != '.',
        decreases k,
    {
        k = k - 1;
    }
    let cut: usize = if k == 0 { n } else { k - 1 };
    proof {
        lemma_ext_start_bounds(filename@);
        if k == 0 {
            if ext_start(filename@) < n {
                assert(filename@[ext_start(filename@)] == '.');
            }
        } else {
            if ext_start(filename@) < k - 1 {
                assert(filename@[k - 1] != '.');
            }
            if ext_start(filename@) == n {
                assert(filename@[k - 1] != '.');
            }
        }
    }
    (filename.substring_char(0, cut).to_string(), filename.substring_char(cut, n).to_string())
}

/// `digits` padded on the left with zeros to at least `width` characters.
pub open spec fn zero_padded(digits: Seq<char>, width: nat) -> Seq<char>
    decreases width,
{
    if digits.len() >= width {
        digits
    } else {
        seq!['0'] + zero_padded(digits, (width - 1) as nat)
    }
}

/// The numbering mode: prefix, the zero-padded number `start + index`, suffix, and
/// the original extension.
pub fn numbered_name(filename: &str, prefix: &str, suffix: &str, start: usize, padding: usize, index: usize) -> (r: String)
    requires
        start + index <= usize::MAX,
    ensures
        r@ == prefix@ + zero_padded(decimal_of((start + index) as nat), padding as nat) + suffix@
            + filename@.subrange(ext_start(filename@), filename@.len() as int),
{
    let (_, ext) = split_extension(filename);
    let digits = decimal((start + index) as u64);
    let mut num = digits.clone();
    let mut w: usize = digits.as_str().unicode_len();
    proof {
        assert(zero_padded(digits@, w as nat) == digits@);
    }
    while w < padding
        invariant
            digits@.len() <= w <= padding || (w == digits@.len() && w >= padding),
            num@ == zero_padded(digits@, w as nat),
            num@.len() == w,
        decreases padding - w,
    {
        num = "0".to_string().concat(num.as_str());
        proof { reveal_strlit("0"); }
        assert(num@ =~= seq!['0'] + zero_padded(digits@, w as nat));
        w = w + 1;
    }
    prefix.to_string().concat(num.as_str()).concat(suffix).concat(ext.as_str())
}

/// The extension mode: the stem with `new_ext`, a dot put before it when it has none.
pub fn with_new_extension(filename: &str, new_ext: &str) -> (r: String)
    ensures
        is_prefix("."@, new_ext@) ==> r@ == filename@.subrange(0, ext_start(filename@)) + new_ext@,
        !is_prefix("."@, new_ext@) ==> r@ == filename@.subrange(0, ext_start(filename@)) + "."@ + new_ext@,
{
    let (name, _) = split_extension(filename);
    if starts_with(new_ext, ".") {
        name.concat(new_ext)
    } else {
        name.concat(".").concat(new_ext)
    }
}

} // verus!
