//! Parsing of user-supplied identity and signature text.
//!
//! The textual forms are the hex encodings understood by the secp256k1
//! library; what that library accepts is its own decision, so its parsers
//! sit behind trusted wrappers whose results carry an abstract name.  The
//! rest of the login protocol is verified for every value those parsers can
//! hand back.

use vstd::prelude::*;
use core::str::FromStr;
use crate::errors::AuthError;
use crate::model::Identity;
use crate::model::IDENTITY_LEN;
use crate::model::SIGNATURE_LEN;

verus! {

/// The serialized public key that the secp256k1 parser derives from `s`, or
/// `None` where it rejects `s`.  The result depends on the characters alone.
pub uninterp spec fn public_key_parse(s: Seq<char>) -> Option<Seq<u8>>;

/// The compact-serialized signature that the secp256k1 parser derives from
/// `s`, or `None` where it rejects `s`.  The result depends on the
/// characters alone.
pub uninterp spec fn signature_parse(s: Seq<char>) -> Option<Seq<u8>>;

/// Relies on secp256k1::PublicKey::from_str (hex decoding plus curve-point
/// validation) and PublicKey::serialize, whose result is the 33-byte
/// compressed form.
#[verifier::external_body]
fn parse_public_key_bytes(text: &str) -> (r: Option<Vec<u8>>)
    ensures
        r is Some <==> public_key_parse(text@) is Some,
        r matches Some(b) ==> public_key_parse(text@) matches Some(sb) && b@ == sb
            && sb.len() == IDENTITY_LEN,
{
    match secp256k1::PublicKey::from_str(text) {
        Ok(key) => Some(key.serialize().to_vec()),
        Err(_) => None,
    }
}

/// Relies on secp256k1::ecdsa::Signature::from_str (hex DER decoding) and
/// Signature::serialize_compact, whose result is the 64-byte compact form.
#[verifier::external_body]
fn parse_signature_bytes(text: &str) -> (r: Option<Vec<u8>>)
    ensures
        r is Some <==> signature_parse(text@) is Some,
        r matches Some(b) ==> signature_parse(text@) matches Some(sb) && b@ == sb
            && sb.len() == SIGNATURE_LEN,
{
    match secp256k1::ecdsa::Signature::from_str(text) {
        Ok(sig) => Some(sig.serialize_compact().to_vec()),
        Err(_) => None,
    }
}

/// Parses claimed-identity text into an `Identity`.  Fails with
/// `MalformedInput` exactly where the underlying parser rejects the text;
/// nothing malformed is ever sent to the server.
pub fn parse_identity(text: &str) -> (r: Result<Identity, AuthError>)
    ensures
        r is Ok <==> public_key_parse(text@) is Some,
        r matches Ok(id) ==> public_key_parse(text@) matches Some(b) && id@ == b && id.wf(),
        r matches Err(e) ==> e == AuthError::MalformedInput,
{
    match parse_public_key_bytes(text) {
        Some(bytes) => match Identity::from_bytes(bytes) {
            Some(id) => Ok(id),
            None => Err(AuthError::MalformedInput),
        },
        None => Err(AuthError::MalformedInput),
    }
}

/// Parses signature text into its compact bytes.  Fails with
/// `MalformedInput` exactly where the underlying parser rejects the text.
pub fn parse_signature(text: &str) -> (r: Result<Vec<u8>, AuthError>)
    ensures
        r is Ok <==> signature_parse(text@) is Some,
        r matches Ok(sig) ==> signature_parse(text@) matches Some(b) && sig@ == b
            && sig@.len() == SIGNATURE_LEN,
        r matches Err(e) ==> e == AuthError::MalformedInput,
{
    match parse_signature_bytes(text) {
        Some(sig) => Ok(sig),
        None => Err(AuthError::MalformedInput),
    }
}

} // verus!
