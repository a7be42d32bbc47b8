use vstd::prelude::*;
use vstd::utf8::{decode_utf8, valid_utf8};

verus! {

/// The text `format!("{:?}", b)` gives for a list of bytes.
pub uninterp spec fn byte_list_text(b: Seq<u8>) -> Seq<char>;

/// Relies on `String::from_utf8`: it succeeds exactly on valid UTF-8, and the
/// string then holds the characters that the bytes encode.
#[verifier::external_body]
pub(crate) fn utf8_to_string(b: &Vec<u8>) -> (r: Option<String>)
    ensures
        r is Some <==> valid_utf8(b@),
        r is Some ==> r.unwrap()@ == decode_utf8(b@),
{
    String::from_utf8(b.clone()).ok()
}

/// Relies on the `Debug` rendering of `Vec<u8>`, used to show bytes that are
/// not valid UTF-8.
#[verifier::external_body]
pub(crate) fn byte_list_string(b: &Vec<u8>) -> (r: String)
    ensures
        r@ == byte_list_text(b@),
{
    format!("{:?}", b)
}

} // verus!
