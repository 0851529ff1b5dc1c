//! The content of a blob: from its transport encoding to bytes, and from
//! bytes to text.

use crate::error::Error;
use crate::model::GitBlob;
use vstd::prelude::*;
use vstd::utf8::{decode_utf8, valid_utf8};

verus! {

/// The bytes that a base64 text stands for, by the standard alphabet with
/// padding, as the `base64` crate decodes it. `None` where the text is not
/// valid base64.
pub uninterp spec fn base64_decoded(content: Seq<char>) -> Option<Seq<u8>>;

/// Calls `base64::Engine::decode` on the engine
/// `base64::engine::general_purpose::STANDARD`.
///
/// The contract claims only that the outcome is a function of the text.
#[verifier::external_body]
fn base64_decode(content: &str) -> (r: Result<Vec<u8>, base64::DecodeError>)
    ensures
        match r {
            Ok(bytes) => base64_decoded(content@) == Some(bytes@),
            Err(_) => base64_decoded(content@) is None,
        },
{
    base64::Engine::decode(&base64::engine::general_purpose::STANDARD, content)
}

/// Calls `std::str::from_utf8`.
///
/// The contract claims what its documentation says: the call succeeds on
/// the byte sequences that are valid UTF-8 and on no others, and the string
/// it gives holds the characters that the bytes encode.
#[verifier::external_body]
pub(crate) fn utf8_decode(bytes: &[u8]) -> (r: Option<String>)
    ensures
        match r {
            Some(text) => valid_utf8(bytes@) && text@ == decode_utf8(bytes@),
            None => !valid_utf8(bytes@),
        },
{
    match std::str::from_utf8(bytes) {
        Ok(text) => Some(text.to_string()),
        Err(_) => None,
    }
}

/// The bytes of a blob, its transport encoding taken off.
pub fn git_blob_decode(blob: &GitBlob) -> (r: Result<Vec<u8>, Error>)
    ensures
        match r {
            Ok(bytes) => base64_decoded(blob.content@) == Some(bytes@),
            Err(e) => base64_decoded(blob.content@) is None && e is Base64,
        },
{
    match base64_decode(blob.content.as_str()) {
        Ok(bytes) => Ok(bytes),
        Err(e) => Err(Error::Base64(e)),
    }
}

} // verus!
