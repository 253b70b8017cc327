//! Digests computed by the `sha2` and `md-5` crates, named by their inputs, and
//! the choice of algorithm by name.
use vstd::prelude::*;
use vstd::string::StrSliceExecFns;
use md5::Md5;
use sha2::{Digest, Sha256};
use crate::text::{ends_with_ci, ends_with_ignore_case};

verus! {

/// Lower-case hex of the SHA-256 digest of some bytes.
pub uninterp spec fn sha256_hex_of(bytes: Seq<u8>) -> Seq<char>;

/// Lower-case hex of the MD5 digest of some bytes.
pub uninterp spec fn md5_hex_of(bytes: Seq<u8>) -> Seq<char>;

/// A digit of lower-case hexadecimal.
pub open spec fn is_lower_hex(c: char) -> bool {
    ('0' <= c && c <= '9') || ('a' <= c && c <= 'f')
}

/// Relies on `sha2::Sha256::digest` printed with `LowerHex`: the text depends
/// on the bytes alone, two lower-case hex digits for each of the 32 bytes.
#[verifier::external_body]
pub(crate) fn sha256_hex(data: &[u8]) -> (r: String)
    ensures
        r@ == sha256_hex_of(data@),
        r@.len() == 64,
        forall|i: int| 0 <= i < r@.len() ==> is_lower_hex(#[trigger] r@[i]),
{
    format!("{:x}", Sha256::digest(data))
}

/// Relies on `md5::Md5::digest` (crate `md-5`) printed with `LowerHex`: the
/// text depends on the bytes alone, two lower-case hex digits for each of the 16 bytes.
#[verifier::external_body]
pub(crate) fn md5_hex(data: &[u8]) -> (r: String)
    ensures
        r@ == md5_hex_of(data@),
        r@.len() == 32,
        forall|i: int| 0 <= i < r@.len() ==> is_lower_hex(#[trigger] r@[i]),
{
    format!("{:x}", Md5::digest(data))
}

/// The digests offered for checking an image.
#[derive(Clone, Copy, Debug, PartialEq, Eq, Structural)]
pub enum HashAlgorithm {
    Sha256,
    Md5,
}

/// `s` equals `name` when ASCII letter case is ignored on the side of `s`.
pub open spec fn names_ci(s: Seq<char>, name: Seq<char>) -> bool {
    s.len() == name.len() && ends_with_ci(s, name)
}

/// The algorithm a name stands for, in any letter case.
pub fn parse_algorithm(name: &str) -> (r: Result<HashAlgorithm, String>)
    ensures
        names_ci(name@, "sha256"@) ==> r == Ok::<HashAlgorithm, String>(HashAlgorithm::Sha256),
        !names_ci(name@, "sha256"@) && names_ci(name@, "md5"@) ==> r == Ok::<HashAlgorithm, String>(
            HashAlgorithm::Md5,
        ),
        !names_ci(name@, "sha256"@) && !names_ci(name@, "md5"@) ==> r is Err && r->Err_0@
            == "Unsupported algorithm: "@ + name@,
{
    let n = name.unicode_len();
    proof {
        reveal_strlit("sha256");
        reveal_strlit("md5");
    }
    if n == 6 && ends_with_ignore_case(name, "sha256") {
        Ok(HashAlgorithm::Sha256)
    } else if n == 3 && ends_with_ignore_case(name, "md5") {
        Ok(HashAlgorithm::Md5)
    } else {
        let mut msg = "Unsupported algorithm: ".to_string();
        msg.append(name);
        Err(msg)
    }
}

/// The lower-case hex digest of `data` under a named algorithm.
pub fn digest_hex(data: &[u8], algorithm: &str) -> (r: Result<String, String>)
    ensures
        names_ci(algorithm@, "sha256"@) ==> r is Ok && r->Ok_0@ == sha256_hex_of(data@) && r->Ok_0@.len() == 64,
        !names_ci(algorithm@, "sha256"@) && names_ci(algorithm@, "md5"@) ==> r is Ok && r->Ok_0@
            == md5_hex_of(data@) && r->Ok_0@.len() == 32,
        !names_ci(algorithm@, "sha256"@) && !names_ci(algorithm@, "md5"@) ==> r is Err && r->Err_0@
            == "Unsupported algorithm: "@ + algorithm@,
{
    match parse_algorithm(algorithm) {
        Ok(HashAlgorithm::Sha256) => Ok(sha256_hex(data)),
        Ok(HashAlgorithm::Md5) => Ok(md5_hex(data)),
        Err(e) => Err(e),
    }
}

} // verus!
