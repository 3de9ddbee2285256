//! The bytes a child process wrote, read as text: UTF-8 as it is, and
//! anything else with each invalid sequence replaced by U+FFFD.
use vstd::prelude::*;
use vstd::utf8::{decode_utf8, valid_utf8};

verus! {

/// The text that `String::from_utf8_lossy` makes of `bytes`.
pub uninterp spec fn utf8_lossy(bytes: Seq<u8>) -> Seq<char>;

/// `std::str::from_utf8`, copied into a `String`: `Some` exactly when
/// `bytes` is valid UTF-8, and then the characters they encode.
#[verifier::external_body]
fn utf8_string(bytes: &[u8]) -> (r: Option<String>)
    ensures
        r is Some <==> valid_utf8(bytes@),
        r matches Some(s) ==> s@ == decode_utf8(bytes@),
{
    match std::str::from_utf8(bytes) {
        Ok(s) => Some(s.to_string()),
        Err(_) => None,
    }
}

/// `String::from_utf8_lossy`, made owned: the characters that valid
/// UTF-8 encodes, and for input that is not valid UTF-8 a text in which
/// at least one U+FFFD stands for an invalid sequence.
#[verifier::external_body]
pub(crate) fn utf8_lossy_string(bytes: &[u8]) -> (r: String)
    ensures
        r@ == utf8_lossy(bytes@),
        valid_utf8(bytes@) ==> r@ == decode_utf8(bytes@),
        !valid_utf8(bytes@) ==> r@.contains('\u{FFFD}'),
{
    String::from_utf8_lossy(bytes).into_owned()
}

/// The text of `bytes`: what they encode when they are valid UTF-8, and
/// otherwise the lossy reading.
pub open spec fn decoded(bytes: Seq<u8>) -> Seq<char> {
    if valid_utf8(bytes) {
        decode_utf8(bytes)
    } else {
        utf8_lossy(bytes)
    }
}

/// Reads `bytes` as text. Valid UTF-8 passes through unchanged; anything
/// else still gives a text, never a failure, with U+FFFD marking what
/// could not be read.
pub fn decode(bytes: &[u8]) -> (r: String)
    ensures
        r@ == decoded(bytes@),
        !valid_utf8(bytes@) ==> r@.contains('\u{FFFD}'),
{
    match utf8_string(bytes) {
        Some(s) => s,
        None => utf8_lossy_string(bytes),
    }
}

} // verus!
