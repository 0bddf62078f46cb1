//! Trusted views of the few std string operations the daemon leans on:
//! lossy UTF-8 decoding, whitespace trimming and prefix stripping.

use vstd::prelude::*;
use vstd::utf8::{decode_utf8, valid_utf8};

verus! {

/// What `String::from_utf8_lossy` returns on bytes that are not valid UTF-8.
/// The replacement scheme is fixed by std and depends on the bytes alone.
pub uninterp spec fn utf8_lossy_of(b: Seq<u8>) -> Seq<char>;

/// What `str::trim` returns: the input without leading and trailing
/// whitespace, a function of the characters alone.
pub uninterp spec fn trim_of(s: Seq<char>) -> Seq<char>;

/// Relies on `String::from_utf8_lossy`: valid UTF-8 is decoded unchanged, and
/// on invalid input the replacement of ill-formed sequences depends on the
/// bytes alone.
#[verifier::external_body]
pub fn utf8_lossy(b: &[u8]) -> (r: String)
    ensures
        r@ == utf8_lossy_of(b@),
        valid_utf8(b@) ==> r@ == decode_utf8(b@),
{
    String::from_utf8_lossy(b).to_string()
}

/// Relies on `str::trim`: removes leading and trailing whitespace; the empty
/// string stays empty, and a result of length zero means every character was
/// whitespace, so trimming is what decides emptiness downstream.
#[verifier::external_body]
pub fn trim(s: &str) -> (r: String)
    ensures
        r@ == trim_of(s@),
        s@.len() == 0 ==> r@.len() == 0,
        r@.len() <= s@.len(),
{
    s.trim().to_string()
}

/// Relies on str's `PartialEq`: two string slices are equal exactly when
/// their characters are.
#[verifier::external_body]
pub fn str_eq(a: &str, b: &str) -> (r: bool)
    ensures
        r == (a@ == b@),
{
    a == b
}

/// Relies on `str::strip_prefix`: returns the suffix after `prefix` when the
/// string starts with it, and `None` otherwise.
#[verifier::external_body]
pub fn strip_prefix(s: &str, prefix: &str) -> (r: Option<String>)
    ensures
        match r {
            Some(suffix) => {
                &&& s@.len() >= prefix@.len()
                &&& s@.take(prefix@.len() as int) == prefix@
                &&& suffix@ == s@.skip(prefix@.len() as int)
            },
            None => !(s@.len() >= prefix@.len() && s@.take(prefix@.len() as int) == prefix@),
        },
{
    s.strip_prefix(prefix).map(|t| t.to_string())
}

} // verus!
