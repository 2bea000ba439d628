//! Hashing, signatures, sealing, randomness and the clock, as other crates provide them.
use crate::hex;
use chacha20poly1305::aead::{Aead, KeyInit, Payload};
use chacha20poly1305::{ChaCha20Poly1305, Nonce};
use ed25519_dalek::{Signature, Signer, SigningKey, Verifier, VerifyingKey};
use sha2::{Digest, Sha256};
use vstd::prelude::*;
use vstd::string::*;
use vstd::utf8::*;

verus! {

/// The SHA-256 digest of a byte string.
pub uninterp spec fn sha256(message: Seq<u8>) -> Seq<u8>;

/// The Ed25519 public key of a 32-byte secret seed.
pub uninterp spec fn ed25519_public_key(seed: Seq<u8>) -> Seq<u8>;

/// The Ed25519 signature of a message under a 32-byte secret seed.
pub uninterp spec fn ed25519_signature(seed: Seq<u8>, message: Seq<u8>) -> Seq<u8>;

/// Whether 32 bytes are the encoding of an Ed25519 public key.
pub uninterp spec fn ed25519_is_key(key: Seq<u8>) -> bool;

/// Whether a 64-byte signature of a message verifies under a public key.
pub uninterp spec fn ed25519_verifies(key: Seq<u8>, message: Seq<u8>, signature: Seq<u8>) -> bool;

/// The ChaCha20-Poly1305 sealing of a message: ciphertext and tag.
pub uninterp spec fn sealed(key: Seq<u8>, nonce: Seq<u8>, aad: Seq<u8>, message: Seq<u8>) -> Seq<u8>;

/// The message that a ChaCha20-Poly1305 sealing holds, if its tag is right.
pub uninterp spec fn opened(key: Seq<u8>, nonce: Seq<u8>, aad: Seq<u8>, ciphertext: Seq<u8>) -> Option<Seq<u8>>;

/// `sha2::Sha256::digest`. A digest has 32 bytes and depends on the message alone.
#[verifier::external_body]
pub(crate) fn sha256_digest(message: &[u8]) -> (digest: Vec<u8>)
    ensures
        digest@ == sha256(message@),
        digest@.len() == 32,
{
    Sha256::digest(message).to_vec()
}

/// `ed25519_dalek::SigningKey::verifying_key`. The public key of a seed has 32 bytes and decodes
/// as a key.
#[verifier::external_body]
pub(crate) fn public_key_of(seed: &[u8]) -> (key: Vec<u8>)
    requires
        seed@.len() == 32,
    ensures
        key@ == ed25519_public_key(seed@),
        key@.len() == 32,
        ed25519_is_key(key@),
{
    let mut secret = [0_u8; 32];
    secret.copy_from_slice(seed);
    SigningKey::from_bytes(&secret).verifying_key().to_bytes().to_vec()
}

/// `ed25519_dalek::Signer::sign` on a `SigningKey`. Signing is deterministic, a signature has
/// 64 bytes, and it verifies under the public key of the seed.
#[verifier::external_body]
pub(crate) fn sign_with(seed: &[u8], message: &[u8]) -> (signature: Vec<u8>)
    requires
        seed@.len() == 32,
    ensures
        signature@ == ed25519_signature(seed@, message@),
        signature@.len() == 64,
        ed25519_verifies(ed25519_public_key(seed@), message@, signature@),
{
    let mut secret = [0_u8; 32];
    secret.copy_from_slice(seed);
    SigningKey::from_bytes(&secret).sign(message).to_bytes().to_vec()
}

/// `ed25519_dalek::VerifyingKey::from_bytes`: whether the bytes decode as a public key.
#[verifier::external_body]
pub(crate) fn is_public_key(key: &[u8]) -> (r: bool)
    requires
        key@.len() == 32,
    ensures
        r == ed25519_is_key(key@),
{
    let mut bytes = [0_u8; 32];
    bytes.copy_from_slice(key);
    VerifyingKey::from_bytes(&bytes).is_ok()
}

/// `ed25519_dalek::Verifier::verify` on a `VerifyingKey`: whether the signature verifies.
#[verifier::external_body]
pub(crate) fn signature_verifies(key: &[u8], message: &[u8], signature: &[u8]) -> (r: bool)
    requires
        key@.len() == 32,
        signature@.len() == 64,
        ed25519_is_key(key@),
    ensures
        r == ed25519_verifies(key@, message@, signature@),
{
    let mut bytes = [0_u8; 32];
    bytes.copy_from_slice(key);
    let mut parts = [0_u8; 64];
    parts.copy_from_slice(signature);
    match VerifyingKey::from_bytes(&bytes) {
        Ok(verifying_key) => verifying_key.verify(message, &Signature::from_bytes(&parts)).is_ok(),
        Err(_) => false,
    }
}

/// `chacha20poly1305::aead::Aead::encrypt`, on messages of at most 2^32 - 2 blocks of 64 bytes: it
/// refuses none of them; a sealing is 16 bytes longer than its message, and opening it with the same
/// key, nonce and associated data gives the message back.
#[verifier::external_body]
pub(crate) fn seal(key: &[u8], nonce: &[u8], aad: &[u8], message: &[u8]) -> (r: Option<Vec<u8>>)
    requires
        key@.len() == 32,
        nonce@.len() == 12,
        message@.len() <= 274_877_906_816,
    ensures
        r is Some,
        r matches Some(c) ==> {
            &&& c@ == sealed(key@, nonce@, aad@, message@)
            &&& c@.len() == message@.len() + 16
            &&& opened(key@, nonce@, aad@, c@) == Some(message@)
        },
{
    let cipher = ChaCha20Poly1305::new_from_slice(key).ok()?;
    cipher.encrypt(Nonce::from_slice(nonce), Payload { msg: message, aad }).ok()
}

/// `chacha20poly1305::aead::Aead::decrypt`: the sealed message, or nothing where the tag is wrong.
#[verifier::external_body]
pub(crate) fn open_sealed(key: &[u8], nonce: &[u8], aad: &[u8], ciphertext: &[u8]) -> (r: Option<Vec<u8>>)
    requires
        key@.len() == 32,
        nonce@.len() == 12,
    ensures
        match r {
            Some(m) => opened(key@, nonce@, aad@, ciphertext@) == Some(m@),
            None => opened(key@, nonce@, aad@, ciphertext@) is None,
        },
{
    let cipher = ChaCha20Poly1305::new_from_slice(key).ok()?;
    cipher.decrypt(Nonce::from_slice(nonce), Payload { msg: ciphertext, aad }).ok()
}

/// `getrandom::getrandom`: `count` random bytes, or the text of the error that the system gave.
/// Which bytes come is left to chance.
#[verifier::external_body]
pub(crate) fn random_bytes(count: usize) -> (r: Result<Vec<u8>, String>)
    ensures
        r matches Ok(b) ==> b@.len() == count,
{
    let mut bytes = vec![0_u8; count];
    match getrandom::getrandom(&mut bytes) {
        Ok(()) => Ok(bytes),
        Err(error) => Err(error.to_string()),
    }
}

/// `std::time::SystemTime::now`, in milliseconds since 1970. Nothing holds of every reading.
#[verifier::external_body]
pub(crate) fn unix_now_ms() -> u64 {
    let elapsed = std::time::SystemTime::now().duration_since(std::time::UNIX_EPOCH);
    elapsed.unwrap_or_default().as_millis().try_into().unwrap_or(u64::MAX)
}

/// The SHA-256 digest of a text, in hexadecimal.
pub open spec fn hash_of(t: Seq<char>) -> Seq<char> {
    hex::text_of(sha256(encode_utf8(t)))
}

/// The SHA-256 digest of a byte string, in hexadecimal.
pub fn hex_hash(input: &[u8]) -> (r: String)
    ensures
        r@ == hex::text_of(sha256(input@)),
        sha256(input@).len() == 32,
{
    let digest = sha256_digest(input);
    hex::hex_encode(digest.as_slice())
}

/// The SHA-256 digest of a text, in hexadecimal.
pub fn hash_text(input: &str) -> (r: String)
    ensures
        r@ == hash_of(input@),
        sha256(encode_utf8(input@)).len() == 32,
{
    hex_hash(input.as_bytes())
}

} // verus!
