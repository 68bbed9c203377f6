//! The identity and signature gate: a record id bound to an optional
//! Ed25519 verification key, and the check that a base64-encoded signature
//! authenticates a message under that key.
//!
//! The base64 codec and the Ed25519 signature test are calls into
//! outside crates; `b64_decoded`, `b64_encoded` and `ed25519_verifies`
//! stand for their results in the contracts below.

use vstd::prelude::*;

verus! {

/// What base64's standard-alphabet decoder yields for a text: the decoded
/// bytes, or nothing where the text is not valid base64. Decoding is a
/// function of the characters alone.
pub uninterp spec fn b64_decoded(s: Seq<char>) -> Option<Seq<u8>>;

/// What base64's standard-alphabet encoder yields for a byte string: a
/// function of the bytes alone.
pub uninterp spec fn b64_encoded(v: Seq<u8>) -> Seq<char>;

/// Whether Ed25519 verification accepts `sig` as a signature of `msg`'s
/// UTF-8 bytes under the verification key `pk`: a deterministic function of
/// the three inputs.
pub uninterp spec fn ed25519_verifies(pk: Seq<u8>, msg: Seq<char>, sig: Seq<u8>) -> bool;

#[verifier::external_type_specification]
#[verifier::external_body]
pub struct ExDecodeError(base64::DecodeError);

/// Relies on base64's `STANDARD` engine `decode`: it returns the decoded
/// bytes of a valid base64 text and an error for any other text, and
/// depends on the input text alone.
#[verifier::external_body]
fn b64_decode(s: &str) -> (r: Result<Vec<u8>, base64::DecodeError>)
    ensures
        r matches Ok(v) ==> b64_decoded(s@) == Some(v@),
        r is Err ==> b64_decoded(s@) is None,
{
    base64::Engine::decode(&base64::engine::general_purpose::STANDARD, s)
}

/// Relies on base64's `STANDARD` engine `encode`: the encoding is a
/// function of the input bytes alone.
#[verifier::external_body]
fn b64_encode(v: &Vec<u8>) -> (r: String)
    ensures
        r@ == b64_encoded(v@),
{
    base64::Engine::encode(&base64::engine::general_purpose::STANDARD, v.as_slice())
}

/// Relies on ring's `UnparsedPublicKey::verify` with the `ED25519`
/// algorithm: Ed25519 verification is deterministic in the key, message
/// and signature bytes, and returns `Ok` exactly when it accepts them.
#[verifier::external_body]
fn ed25519_verify(pk: &Vec<u8>, message: &str, signature: &Vec<u8>) -> (r: bool)
    ensures
        r == ed25519_verifies(pk@, message@, signature@),
{
    let key = ring::signature::UnparsedPublicKey::new(&ring::signature::ED25519, pk.as_slice());
    key.verify(message.as_bytes(), signature.as_slice()).is_ok()
}

/// Relies on uuid's `Uuid::new_v4` and its `Display` form: a fresh random
/// identifier printed in the hyphenated format of 36 characters.
#[verifier::external_body]
fn fresh_uuid() -> (r: String)
    ensures
        r@.len() == 36,
{
    uuid::Uuid::new_v4().to_string()
}

/// A record id bound to its optional raw verification-key bytes. `None`
/// means the id is known but unverifiable: every signature check against it
/// fails closed.
#[derive(Debug, Clone)]
pub struct PublicKey {
    pub id: String,
    pub public_key: Option<Vec<u8>>,
}

/// Rejection of a key registration whose encoded key is not valid base64.
#[derive(Debug)]
pub enum PublicKeyFromBase64Error {
    Base64Error(base64::DecodeError),
}

/// Rejection of a write whose signature does not authenticate it.
#[derive(Debug, Clone, PartialEq, Eq, Structural)]
pub enum WrongSignatureError {
    /// The signature algorithm rejected the signature for the message.
    VerificationFailed,
    /// No verification key is on file for the identity.
    NoPublicKey,
}

/// The outcome of checking a base64-encoded signature over a message
/// against an optional verification key: fails closed without a key, fails
/// on undecodable or rejected signatures, succeeds otherwise.
pub open spec fn spec_check_signature(
    pk: Option<Seq<u8>>,
    signature: Seq<char>,
    message: Seq<char>,
) -> Result<(), WrongSignatureError> {
    match pk {
        Option::None => Err(WrongSignatureError::NoPublicKey),
        Option::Some(k) => match b64_decoded(signature) {
            Option::None => Err(WrongSignatureError::VerificationFailed),
            Option::Some(sig) => if ed25519_verifies(k, message, sig) {
                Ok(())
            } else {
                Err(WrongSignatureError::VerificationFailed)
            },
        },
    }
}

impl PublicKey {
    /// The key bytes on file, as the contracts speak of them.
    pub open spec fn key_view(self) -> Option<Seq<u8>> {
        match self.public_key {
            Option::Some(v) => Some(v@),
            Option::None => None,
        }
    }

    /// A key record under a freshly generated identifier.
    pub fn new(public_key: Vec<u8>) -> (r: PublicKey)
        ensures
            r.id@.len() == 36,
            r.key_view() == Some(public_key@),
    {
        let id = fresh_uuid();
        PublicKey { id, public_key: Some(public_key) }
    }

    /// A key record for `id` from a base64-encoded key text; rejected when
    /// the text is not valid base64.
    pub fn from_raw(id: String, string: String) -> (r: Result<PublicKey, PublicKeyFromBase64Error>)
        ensures
            b64_decoded(string@) matches Some(v) ==> r matches Ok(p) && p.id@ == id@
                && p.key_view() == Some(v),
            b64_decoded(string@) is None ==> r is Err,
    {
        match b64_decode(string.as_str()) {
            Ok(v) => Ok(PublicKey { id, public_key: Some(v) }),
            Err(e) => Err(PublicKeyFromBase64Error::Base64Error(e)),
        }
    }

    /// A key record under a freshly generated identifier, from a
    /// base64-encoded key text.
    pub fn from_base64(string: String) -> (r: Result<PublicKey, PublicKeyFromBase64Error>)
        ensures
            b64_decoded(string@) matches Some(v) ==> r matches Ok(p) && p.id@.len() == 36
                && p.key_view() == Some(v),
            b64_decoded(string@) is None ==> r is Err,
    {
        match b64_decode(string.as_str()) {
            Ok(v) => {
                let id = fresh_uuid();
                Ok(PublicKey { id, public_key: Some(v) })
            },
            Err(e) => Err(PublicKeyFromBase64Error::Base64Error(e)),
        }
    }

    /// The base64 encoding of the key bytes on file.
    pub fn encode(self) -> (r: String)
        requires
            self.key_view() is Some,
        ensures
            r@ == b64_encoded(self.key_view()->0),
    {
        match self.public_key {
            Some(pk) => b64_encode(&pk),
            None => String::new(),
        }
    }

    /// Checks that `signature` (base64) authenticates `message` under the
    /// key on file in `public_key`, as `spec_check_signature` describes.
    pub fn check_signature(signature: String, public_key: PublicKey, message: String) -> (r: Result<
        (),
        WrongSignatureError,
    >)
        ensures
            r == spec_check_signature(public_key.key_view(), signature@, message@),
    {
        match public_key.public_key {
            Some(pk) => {
                match b64_decode(signature.as_str()) {
                    Ok(raw_signature) => {
                        if ed25519_verify(&pk, message.as_str(), &raw_signature) {
                            Ok(())
                        } else {
                            Err(WrongSignatureError::VerificationFailed)
                        }
                    },
                    Err(_) => Err(WrongSignatureError::VerificationFailed),
                }
            },
            None => Err(WrongSignatureError::NoPublicKey),
        }
    }
}

} // verus!
