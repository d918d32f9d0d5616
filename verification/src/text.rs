//! Text decoded from column bytes.
//!
//! Column text is decoded as UTF-8, lossily: ill-formed sequences become
//! replacement characters.  What that conversion yields is named rather than
//! restated, and the library's contracts speak of the name.

use vstd::prelude::*;

verus! {

/// The characters that decoding `bytes` as UTF-8, lossily, yields.
pub uninterp spec fn utf8_lossy(bytes: Seq<u8>) -> Seq<char>;

/// Relies on `String::from_utf8_lossy`: the decoded text is a function of
/// the bytes alone.
#[verifier::external_body]
pub fn from_utf8_lossy(bytes: &[u8]) -> (r: String)
    ensures
        r@ == utf8_lossy(bytes@),
{
    String::from_utf8_lossy(bytes).into_owned()
}

/// Relies on `str::starts_with`: true exactly when the string's first
/// characters are the prefix.
#[verifier::external_body]
pub fn str_starts_with(s: &String, prefix: &str) -> (r: bool)
    ensures
        r == (s@.len() >= prefix@.len() && s@.subrange(0, prefix@.len() as int) == prefix@),
{
    s.as_str().starts_with(prefix)
}

} // verus!
