//! Outside types that values of the library carry through: the errors of
//! I/O and of JSON encoding. Verus sees nothing inside them.

use vstd::prelude::*;

verus! {

/// `std::io::Error`, carried inside the library's error types.
#[verifier::external_type_specification]
#[verifier::external_body]
pub struct ExIoError(std::io::Error);

/// `serde_json::Error`, carried inside the library's error types.
#[verifier::external_type_specification]
#[verifier::external_body]
pub struct ExJsonError(serde_json::Error);

/// The text of an I/O error, as its `Display` writes it. What the text is
/// rests on the error and the system, so nothing is stated of it.
#[verifier::external_body]
pub(crate) fn io_error_text(err: &std::io::Error) -> (text: String) {
    format!("{}", err)
}

/// The text of a JSON error, as `serde_json::Error`'s `Display` writes it.
/// Nothing is stated of the text: the error's contents are opaque here.
#[verifier::external_body]
pub(crate) fn json_error_text(err: &serde_json::Error) -> (text: String) {
    format!("{}", err)
}

} // verus!
