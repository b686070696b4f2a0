//! Outside types that the library's error enums carry through unchanged.
use vstd::prelude::*;

verus! {

/// `std::io::Error`, as reported by the tar reader and the file system.
#[verifier::external_type_specification]
#[verifier::external_body]
pub struct ExIoError(std::io::Error);

/// `reqwest::Error`, as reported by the HTTP client.
#[verifier::external_type_specification]
#[verifier::external_body]
pub struct ExReqwestError(reqwest::Error);

/// `serde_json::Error`, as reported by the catalog's JSON parser.
#[verifier::external_type_specification]
#[verifier::external_body]
pub struct ExJsonError(serde_json::Error);

} // verus!
