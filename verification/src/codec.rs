//! Decoding of the provider's action response blob.
//!
//! The provider returns its unsigned transaction in a textual encoding; the
//! composer turns it back into bytes before the surrounding client decodes
//! the instruction stream. The decoding itself comes from an outside crate
//! and is trusted; only its functional shape is stated here.

use vstd::prelude::*;

verus! {

use crate::MarginError;

/// What the outside decoder returns on a given text: a pure function of the
/// characters alone.
pub uninterp spec fn base64_decoded(s: Seq<char>) -> Option<Seq<u8>>;

/// Relies on base64::decode (standard alphabet, padding required): the
/// result is a pure function of the input text.
#[verifier::external_body]
fn b64_decode(s: &str) -> (r: Option<Vec<u8>>)
    ensures
        r is Some <==> base64_decoded(s@) is Some,
        r matches Some(v) ==> base64_decoded(s@) == Some(v@),
{
    match base64::decode(s) {
        Ok(v) => Some(v),
        Err(_) => None,
    }
}

/// Decodes the provider's response blob into the raw transaction bytes.
/// A text the decoder rejects surfaces as `ProviderMisuse`.
pub fn decode_provider_blob(tx: &str) -> (r: Result<Vec<u8>, MarginError>)
    ensures
        r is Ok <==> base64_decoded(tx@) is Some,
        r matches Ok(v) ==> base64_decoded(tx@) == Some(v@),
        r is Err ==> r == Err::<Vec<u8>, MarginError>(MarginError::ProviderMisuse),
{
    match b64_decode(tx) {
        Some(v) => Ok(v),
        None => Err(MarginError::ProviderMisuse),
    }
}

} // verus!
