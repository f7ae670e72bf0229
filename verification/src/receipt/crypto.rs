//! The calls into the crates for Base64, Ed25519 and random bytes.

use base64::engine::general_purpose::URL_SAFE_NO_PAD;
use base64::Engine;
use ed25519_dalek::{Signature, Signer, SigningKey, VerifyingKey};
use vstd::prelude::*;

verus! {

/// What the URL-safe alphabet of Base64 without padding decodes a text to: bytes, or the
/// message of the decoder's error.
pub uninterp spec fn base64_decoded(encoded: Seq<char>) -> Result<Seq<u8>, Seq<char>>;

/// `base64::Engine::decode` of the engine `URL_SAFE_NO_PAD`: a function of the text.
#[verifier::external_body]
pub(crate) fn base64_decode(encoded: &str) -> (r: Result<Vec<u8>, String>)
    ensures
        match r {
            Ok(b) => base64_decoded(encoded@) == Ok::<Seq<u8>, Seq<char>>(b@),
            Err(e) => base64_decoded(encoded@) == Err::<Seq<u8>, Seq<char>>(e@),
        },
{
    match URL_SAFE_NO_PAD.decode(encoded) {
        Ok(b) => Ok(b),
        Err(e) => Err(e.to_string()),
    }
}

/// The text of bytes in the URL-safe alphabet of Base64 without padding.
pub uninterp spec fn base64_encoded(bytes: Seq<u8>) -> Seq<char>;

/// `base64::Engine::encode` of the engine `URL_SAFE_NO_PAD`: a function of the bytes, whose
/// text the same engine decodes to those bytes.
#[verifier::external_body]
pub(crate) fn base64_encode(bytes: &[u8]) -> (r: String)
    requires
        bytes@.len() <= 64,
    ensures
        r@ == base64_encoded(bytes@),
        base64_decoded(r@) is Ok && base64_decoded(r@)->Ok_0 == bytes@,
{
    URL_SAFE_NO_PAD.encode(bytes)
}

/// The message of the error with which 32 bytes are no Ed25519 verifying key; nothing
/// where they are one.
pub uninterp spec fn key_refusal(bytes: Seq<u8>) -> Option<Seq<char>>;

/// `ed25519_dalek::VerifyingKey::from_bytes`: whether it takes the bytes, and the message
/// of its error.
#[verifier::external_body]
pub(crate) fn key_error(bytes: &[u8; 32]) -> (r: Option<String>)
    ensures
        match r {
            None => key_refusal(bytes@) is None,
            Some(e) => key_refusal(bytes@) == Some(e@),
        },
{
    match VerifyingKey::from_bytes(bytes) {
        Ok(_) => None,
        Err(e) => Some(e.to_string()),
    }
}

/// The verifying key of an Ed25519 secret.
pub uninterp spec fn ed25519_public(secret: Seq<u8>) -> Seq<u8>;

/// `ed25519_dalek::SigningKey::verifying_key`: the bytes of the key that belongs to a
/// secret. They are a verifying key, which is to say that they decompress to a point.
#[verifier::external_body]
pub(crate) fn public_key(secret: &[u8; 32]) -> (r: [u8; 32])
    ensures
        r@ == ed25519_public(secret@),
        key_refusal(r@) is None,
{
    SigningKey::from_bytes(secret).verifying_key().to_bytes()
}

/// The encoding of the neutral point of the curve.
pub open spec fn neutral_point() -> Seq<u8> {
    Seq::new(
        32,
        |i: int|
            if i == 0 {
                1u8
            } else {
                0u8
            },
    )
}

/// The Ed25519 signature that a secret gives a message.
pub uninterp spec fn ed25519_signature(secret: Seq<u8>, message: Seq<u8>) -> Seq<u8>;

/// Whether a signature holds strictly under a verifying key.
pub uninterp spec fn signature_holds(
    public: Seq<u8>,
    message: Seq<u8>,
    signature: Seq<u8>,
) -> bool;

/// `ed25519_dalek::SigningKey::sign`: the signature is a function of the secret and the
/// message, and it holds under the key of the secret. The strict check refuses a
/// commitment or a key of small order. Both are multiples of the base point, so that the
/// only one refused is the neutral point; the key is never that, for the scalar of a secret
/// is a multiple of eight below eight times the order of the base point, and not zero.
#[verifier::external_body]
pub(crate) fn sign_message(secret: &[u8; 32], message: &[u8]) -> (r: [u8; 64])
    ensures
        r@ == ed25519_signature(secret@, message@),
        r@.take(32) != neutral_point() ==> signature_holds(
            ed25519_public(secret@),
            message@,
            r@,
        ),
{
    SigningKey::from_bytes(secret).sign(message).to_bytes()
}

/// `ed25519_dalek::VerifyingKey::verify_strict`: whether a signature holds, as a function
/// of the key, the message and the signature. Bytes that are no key verify nothing.
#[verifier::external_body]
pub(crate) fn verify_message(public: &[u8; 32], message: &[u8], signature: &[u8; 64]) -> (r: bool)
    ensures
        r == signature_holds(public@, message@, signature@),
{
    match VerifyingKey::from_bytes(public) {
        Ok(key) => key.verify_strict(message, &Signature::from_bytes(signature)).is_ok(),
        Err(_) => false,
    }
}

/// `getrandom::fill`: bytes by chance, of which nothing can be said, or the message of its
/// error.
#[verifier::external_body]
pub(crate) fn random_seed() -> (r: Result<[u8; 32], String>) {
    let mut seed = [0u8; 32];
    match getrandom::fill(&mut seed) {
        Ok(()) => Ok(seed),
        Err(e) => Err(e.to_string()),
    }
}

} // verus!
