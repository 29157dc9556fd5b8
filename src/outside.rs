//! Calls into outside code that the segment logic relies on.

use vstd::prelude::*;
use vstd::utf8::{decode_utf8, valid_utf8};
use crate::bytes::{contains, is_first_occurrence};

verus! {

/// What `base64::decode` makes of its input: the decoded bytes, or `None`
/// where the input is not valid standard base64.
pub uninterp spec fn base64_decode_of(input: Seq<u8>) -> Option<Seq<u8>>;

#[verifier::external_type_specification]
#[verifier::external_body]
pub struct ExDecodeError(base64::DecodeError);

#[verifier::external_type_specification]
#[verifier::external_body]
pub struct ExFromUtf8Error(std::string::FromUtf8Error);

/// Relies on `twoway::find_bytes`: the position of the first occurrence of
/// `pattern` in `text`, or `None` where it does not occur.
#[verifier::external_body]
pub(crate) fn find_bytes(text: &[u8], pattern: &[u8]) -> (r: Option<usize>)
    ensures
        match r {
            Some(i) => is_first_occurrence(text@, pattern@, i as int),
            None => !contains(text@, pattern@),
        },
{
    twoway::find_bytes(text, pattern)
}

/// Relies on `base64::decode` (standard alphabet, padded): the decoded bytes,
/// or an error where the input is not valid base64. It panics where the
/// input's length plus 7 overflows a `usize`, so such inputs are left out.
#[verifier::external_body]
pub(crate) fn base64_decode(input: &[u8]) -> (r: Result<Vec<u8>, base64::DecodeError>)
    requires
        input@.len() + 7 <= usize::MAX,
    ensures
        match r {
            Ok(v) => base64_decode_of(input@) == Some(v@),
            Err(_) => base64_decode_of(input@) is None,
        },
{
    base64::decode(input)
}

/// Relies on `String::from_utf8`: the text that the bytes encode where they are
/// valid UTF-8, an error otherwise.
#[verifier::external_body]
pub(crate) fn string_from_utf8(bytes: Vec<u8>) -> (r: Result<String, std::string::FromUtf8Error>)
    ensures
        match r {
            Ok(s) => valid_utf8(bytes@) && s@ == decode_utf8(bytes@),
            Err(_) => !valid_utf8(bytes@),
        },
{
    String::from_utf8(bytes)
}

} // verus!
