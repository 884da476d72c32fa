//! Trusted bindings to the cryptographic primitives.
//!
//! The ratchet and the group adapter need three primitives: HKDF key
//! derivation, the XChaCha20-Poly1305 AEAD, and operating-system entropy.
//! Each binding states only what the primitive's documentation promises;
//! the values of the derived keys and ciphertexts are named, never spelled
//! out, since no short specification of them exists.

use vstd::prelude::*;
use chacha20poly1305::XChaCha20Poly1305;
use chacha20poly1305::aead::{Aead, KeyInit, Payload};

verus! {

/// Largest output HKDF-Expand with SHA-256 can produce (255 hash blocks).
pub const MAX_HKDF_OUTPUT: usize = 8160;

/// Bytes the Poly1305 authentication tag adds to a ciphertext.
pub const AEAD_TAG_LEN: usize = 16;

/// The HKDF-Expand output for a pseudorandom key, an info string and an
/// output length. A pure function of its arguments: the same inputs give
/// the same bytes on every machine.
pub uninterp spec fn hkdf_expand_bytes(prk: Seq<u8>, info: Seq<u8>, n: nat) -> Seq<u8>;

/// The XChaCha20-Poly1305 ciphertext (message followed by the tag) for a
/// key, nonce, associated data and plaintext. Encryption is deterministic
/// in these four inputs.
pub uninterp spec fn xchacha_seal(key: Seq<u8>, nonce: Seq<u8>, aad: Seq<u8>, pt: Seq<u8>) -> Seq<
    u8,
>;

/// Relies on hkdf::Hkdf::<sha2::Sha256>::expand (RFC 5869): fills the output
/// buffer completely whenever it is at most 255 hash lengths long, and the
/// output depends on the pseudorandom key and info alone.
#[verifier::external_body]
pub fn hkdf_expand(prk: &Vec<u8>, info: &Vec<u8>, n: usize) -> (r: Vec<u8>)
    requires
        prk@.len() >= 32,
        n <= MAX_HKDF_OUTPUT,
    ensures
        r@ == hkdf_expand_bytes(prk@, info@, n as nat),
        r@.len() == n,
{
    let mut okm = vec![0u8; n];
    let hk = hkdf::Hkdf::<sha2::Sha256>::from_prk(prk.as_slice()).expect(
        "pseudorandom key is at least one hash long",
    );
    hk.expand(info.as_slice(), &mut okm).expect("output fits 255 hash lengths");
    okm
}

/// Relies on chacha20poly1305::XChaCha20Poly1305 encryption: deterministic
/// in key, nonce, associated data and plaintext, the ciphertext is the
/// encrypted message followed by the 16-byte tag, and encryption refuses
/// only messages of four billion cipher blocks or more, so it succeeds on
/// every plaintext within the 32-bit length bound.
#[verifier::external_body]
pub fn aead_seal(key: &Vec<u8>, nonce: &Vec<u8>, aad: &Vec<u8>, plaintext: &Vec<u8>) -> (r: Option<
    Vec<u8>,
>)
    requires
        key@.len() == 32,
        nonce@.len() == 24,
    ensures
        r matches Some(c) ==> c@ == xchacha_seal(key@, nonce@, aad@, plaintext@) && c@.len()
            == plaintext@.len() + AEAD_TAG_LEN,
        plaintext@.len() <= u32::MAX ==> r is Some,
{
    let cipher = match XChaCha20Poly1305::new_from_slice(key.as_slice()) {
        Ok(c) => c,
        Err(_) => {
            return None;
        },
    };
    let n = match chacha20poly1305::XNonce::try_from(nonce.as_slice()) {
        Ok(n) => n,
        Err(_) => {
            return None;
        },
    };
    cipher.encrypt(&n, Payload { msg: plaintext.as_slice(), aad: aad.as_slice() }).ok()
}

/// Relies on chacha20poly1305::XChaCha20Poly1305 decryption: it returns a
/// plaintext exactly when the ciphertext was sealed under the same key,
/// nonce and associated data; a genuine seal of a plaintext within the
/// cipher's 32-bit length bound always authenticates.
#[verifier::external_body]
pub fn aead_open(key: &Vec<u8>, nonce: &Vec<u8>, aad: &Vec<u8>, ciphertext: &Vec<u8>) -> (r:
    Option<Vec<u8>>)
    requires
        key@.len() == 32,
        nonce@.len() == 24,
    ensures
        r matches Some(p) ==> ciphertext@ == xchacha_seal(key@, nonce@, aad@, p@),
        (exists|p: Seq<u8>|
            p.len() <= u32::MAX && ciphertext@ == xchacha_seal(key@, nonce@, aad@, p)) ==> r
            is Some,
{
    let cipher = match XChaCha20Poly1305::new_from_slice(key.as_slice()) {
        Ok(c) => c,
        Err(_) => {
            return None;
        },
    };
    let n = match chacha20poly1305::XNonce::try_from(nonce.as_slice()) {
        Ok(n) => n,
        Err(_) => {
            return None;
        },
    };
    cipher.decrypt(&n, Payload { msg: ciphertext.as_slice(), aad: aad.as_slice() }).ok()
}

/// Relies on getrandom::fill for operating-system entropy. Nothing can be
/// promised about the bytes themselves; on the rare platform failure the
/// buffer stays zeroed rather than panicking.
#[verifier::external_body]
pub fn os_random_bytes(n: usize) -> (r: Vec<u8>)
    ensures
        r@.len() == n,
{
    let mut buf = vec![0u8; n];
    let _ = getrandom::fill(&mut buf);
    buf
}

} // verus!
