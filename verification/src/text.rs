//! Text handling: checked UTF-8 decoding, and lexicographic comparison
//! of strings by their encoded bytes.

use vstd::prelude::*;
use vstd::utf8::{valid_utf8, decode_utf8};

verus! {

/// Relies on core::str::from_utf8: it succeeds exactly on valid UTF-8,
/// and the string it returns reads the given bytes as characters.
#[verifier::external_body]
pub fn bytes_to_str(v: &[u8]) -> (r: Option<&str>)
    ensures
        r is Some <==> valid_utf8(v@),
        r matches Some(s) ==> s@ == decode_utf8(v@),
{
    core::str::from_utf8(v).ok()
}

/// Decodes `v` into an owned string, or nothing when it is not UTF-8.
pub fn bytes_to_string(v: &[u8]) -> (r: Option<String>)
    ensures
        r is Some <==> valid_utf8(v@),
        r matches Some(s) ==> s@ == decode_utf8(v@),
{
    match bytes_to_str(v) {
        Some(s) => Some(s.to_owned()),
        None => None,
    }
}

} // verus!
