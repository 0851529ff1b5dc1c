//! What can go wrong inside the library.

use vstd::prelude::*;

verus! {

/// The error of the base64 decoder, carried through unread.
#[verifier::external_type_specification]
#[verifier::external_body]
pub struct ExDecodeError(base64::DecodeError);

/// The error of the URL parser, carried through unread.
#[verifier::external_type_specification]
#[verifier::external_body]
pub struct ExParseError(url::ParseError);

/// The failures of the library's own steps. Failed requests are the caller's
/// to report: the library never makes one.
#[derive(Debug)]
pub enum Error {
    /// The content of a blob is not valid base64.
    Base64(base64::DecodeError),
    /// A link could not be resolved against the API base.
    Url(url::ParseError),
    /// What was looked for is not there.
    NotFound,
    /// An answer was given to a question that had not been asked.
    OutOfTurn,
}

} // verus!
