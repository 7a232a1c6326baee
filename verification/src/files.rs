//! The payload decoding of the file write operations.
//!
//! A caller may send file contents directly or base64 transported; the
//! broker decodes the payload to the bytes that are written, and a
//! malformed transport encoding is the caller's mistake.  The writes
//! themselves are the embedding process's concern.

use vstd::prelude::*;
use vstd::string::StrSliceExecFns;
use vstd::string::StringSliceAdditionalSpecFns;
use crate::SrvError;

verus! {

#[verifier::external_type_specification]
#[verifier::external_body]
pub struct ExDecodeError(base64::DecodeError);

/// What the standard base64 decoding makes of a text: its bytes, or
/// nothing when the text is not well-formed base64.
pub uninterp spec fn base64_decoding(s: Seq<char>) -> Option<Seq<u8>>;

/// Relies on base64's `decode` with the standard alphabet: the decoded
/// bytes are a function of the input text alone, and a malformed input is
/// an error.
#[verifier::external_body]
fn base64_decode(data: &str) -> (r: Result<Vec<u8>, base64::DecodeError>)
    ensures
        match r {
            Ok(v) => base64_decoding(data@) == Some(v@),
            Err(_) => base64_decoding(data@) is None,
        },
{
    base64::decode(data)
}

/// The bytes a write request carries: the text's own bytes, or the bytes
/// its base64 transport encoding decodes to.
pub fn decode_payload(in_base64: bool, data: &str) -> (r: Result<Vec<u8>, SrvError>)
    ensures
        match r {
            Ok(v) => if in_base64 {
                base64_decoding(data@) == Some(v@)
            } else {
                v@ == data.spec_bytes()
            },
            Err(e) => in_base64 && base64_decoding(data@) is None && e matches
                SrvError::BadRequest(_),
        },
{
    if in_base64 {
        match base64_decode(data) {
            Ok(bytes) => Ok(bytes),
            Err(_) => Err(
                SrvError::BadRequest("Could not decode the base64 data".to_owned()),
            ),
        }
    } else {
        Ok(data.as_bytes_vec())
    }
}

} // verus!
