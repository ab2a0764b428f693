//! Turning the raw bytes of a value into text.

use vstd::prelude::*;
use vstd::utf8::{decode_utf8, valid_utf8};

verus! {

/// Reads `bytes` as UTF-8 with `std::str::from_utf8`. The standard library
/// accepts exactly the well-formed UTF-8 sequences and then hands back the
/// same bytes as a `str`; the contract states this over vstd's UTF-8 model.
#[verifier::external_body]
pub(crate) fn utf8_str<'b>(bytes: &'b [u8]) -> (r: Option<&'b str>)
    ensures
        r is Some <==> valid_utf8(bytes@),
        r matches Some(s) ==> s@ == decode_utf8(bytes@),
{
    std::str::from_utf8(bytes).ok()
}

/// Whether `bytes` is well-formed UTF-8, so that it can be read as text.
pub fn is_utf8(bytes: &[u8]) -> (r: bool)
    ensures
        r == valid_utf8(bytes@),
{
    utf8_str(bytes).is_some()
}

/// The text that `String::from_utf8_lossy` makes of `bytes`.
pub uninterp spec fn lossy_utf8(bytes: Seq<u8>) -> Seq<char>;

/// Calls `String::from_utf8_lossy` and takes ownership of the result. Its
/// documentation states that invalid sequences are replaced by U+FFFD and
/// that well-formed input comes back unchanged; the contract states the
/// second fact and names the result otherwise: how the replacement splits
/// the invalid sequences is left unsaid.
#[verifier::external_body]
pub(crate) fn utf8_lossy(bytes: &[u8]) -> (r: String)
    ensures
        r@ == lossy_utf8(bytes@),
        valid_utf8(bytes@) ==> r@ == decode_utf8(bytes@),
{
    String::from_utf8_lossy(bytes).into_owned()
}

} // verus!
