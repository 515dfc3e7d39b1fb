//! Decoding bytes as UTF-8 text.

use std::string::FromUtf8Error;
use vstd::prelude::*;
use vstd::utf8::*;

verus! {

#[verifier::external_type_specification]
#[verifier::external_body]
pub struct ExFromUtf8Error(FromUtf8Error);

/// `Clone` for `FromUtf8Error`, so that an error that holds one can be cloned;
/// nothing is claimed of the copy.
pub assume_specification[ <FromUtf8Error as Clone>::clone ](e: &FromUtf8Error) -> (r:
    FromUtf8Error);

/// `String::from_utf8`, taken on trust: the call succeeds exactly when the
/// bytes are well-formed UTF-8, and the string it then returns holds the
/// characters that those bytes encode. Nothing is claimed of the error value.
#[verifier::external_body]
pub(crate) fn string_from_utf8(bytes: Vec<u8>) -> (r: Result<String, FromUtf8Error>)
    ensures
        r is Ok <==> valid_utf8(bytes@),
        r matches Ok(s) ==> s@ == decode_utf8(bytes@),
{
    String::from_utf8(bytes)
}

/// `ToString` for `FromUtf8Error`, taken on trust: the decoding error in
/// words. Nothing is claimed of the text.
#[verifier::external_body]
pub(crate) fn utf8_error_text(e: &FromUtf8Error) -> (r: String) {
    e.to_string()
}

} // verus!
