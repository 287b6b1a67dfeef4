use vstd::prelude::*;
use sha2::Digest;

verus! {

/// The trusted boundary: every item in this file states, without proof, what
/// a function of an outside crate (or of std where vstd is silent) returns.
/// Everything else in the library is verified against these contracts.

/// What SHA-256 returns: a function of the input bytes alone.
pub uninterp spec fn sha256_of(data: Seq<u8>) -> Seq<u8>;

/// Relies on sha2::Sha256::digest: the SHA-256 digest of the input, always
/// 32 bytes, a function of the input bytes alone.
#[verifier::external_body]
pub(crate) fn sha256_digest(data: &[u8]) -> (r: Vec<u8>)
    ensures
        r@ == sha256_of(data@),
        r@.len() == 32,
{
    sha2::Sha256::digest(data).to_vec()
}

/// What the HS256 signer returns: unpadded base64 text of the keyed digest
/// over the message, a function of message and key alone.
pub uninterp spec fn mac_of(message: Seq<u8>, key: Seq<u8>) -> Seq<u8>;

/// Relies on jsonwebtoken::crypto::sign with Algorithm::HS256: for HMAC
/// algorithms it never fails, and returns the URL-safe unpadded base64 text
/// of the HMAC-SHA256 digest, a function of message and key bytes alone.
/// Base64 text is ASCII and contains no dot.
#[verifier::external_body]
pub(crate) fn hmac_sign(message: &[u8], key: &[u8]) -> (r: Vec<u8>)
    ensures
        r@ == mac_of(message@, key@),
        forall|i: int| 0 <= i < r@.len() ==> r@[i] < 128 && r@[i] != 46,
{
    let key = jsonwebtoken::EncodingKey::from_secret(key);
    match jsonwebtoken::crypto::sign(message, &key, jsonwebtoken::Algorithm::HS256) {
        Ok(s) => s.into_bytes(),
        Err(_) => Vec::new(),
    }
}

/// Relies on jsonwebtoken::crypto::verify with Algorithm::HS256: it re-signs
/// the message with the key and compares bytes, so it returns true exactly
/// when the signature equals what `sign` would return. The signer's output
/// is base64 text, hence UTF-8, so signature bytes that are not valid UTF-8
/// can never match it.
#[verifier::external_body]
pub(crate) fn hmac_verify(signature: &[u8], message: &[u8], key: &[u8]) -> (r: bool)
    ensures
        r == (signature@ == mac_of(message@, key@)),
{
    let key = jsonwebtoken::DecodingKey::from_secret(key);
    match core::str::from_utf8(signature) {
        Ok(sig) => {
            match jsonwebtoken::crypto::verify(sig, message, &key, jsonwebtoken::Algorithm::HS256) {
                Ok(b) => b,
                Err(_) => false,
            }
        },
        Err(_) => false,
    }
}

/// Relies on rand::random over 32-byte arrays: cryptographically secure
/// randomness from the thread-local generator. Nothing is promised of the
/// value beyond its length.
#[verifier::external_body]
pub(crate) fn random_token_bytes() -> (r: Vec<u8>)
    ensures
        r@.len() == 32,
{
    rand::random::<[u8; 32]>().to_vec()
}

/// Relies on rand::random over u128: a random row identifier. Nothing is
/// promised of the value.
#[verifier::external_body]
pub(crate) fn random_u128() -> u128 {
    rand::random::<u128>()
}

/// Relies on String::from_utf8: the returned string holds exactly the given
/// bytes, and ASCII bytes decode one character per byte, so the conversion
/// cannot fail on ASCII input.
#[verifier::external_body]
pub(crate) fn ascii_to_string(bytes: Vec<u8>) -> (r: String)
    requires
        forall|i: int| 0 <= i < bytes@.len() ==> bytes@[i] < 128,
    ensures
        r@.len() == bytes@.len(),
        forall|i: int| 0 <= i < r@.len() ==> ((#[trigger] r@[i]) as u8) == bytes@[i],
        vstd::utf8::is_ascii_chars(r@),

{
    match String::from_utf8(bytes) {
        Ok(s) => s,
        Err(_) => String::new(),
    }
}

} // verus!
