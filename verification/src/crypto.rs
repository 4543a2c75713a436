//! The cryptographic primitives the end-to-end encryption is built from:
//! HKDF-SHA256, ChaCha20-Poly1305, X25519 and the operating system's random
//! number generator. Each is called through a small trusted wrapper whose
//! contract names the primitive's result.
use vstd::prelude::*;
use chacha20poly1305::aead::{Aead, KeyInit};

verus! {

/// HKDF-SHA256 (RFC 5869) with no salt, expanded to 32 bytes: the key
/// derived from input key material `ikm` under the context string `info`.
pub uninterp spec fn hkdf_sha256_32(ikm: Seq<u8>, info: Seq<u8>) -> Seq<u8>;

/// ChaCha20-Poly1305 (RFC 8439) sealing of `plaintext` under `key` and
/// `nonce` with no associated data: the ciphertext followed by the tag.
pub uninterp spec fn chacha20poly1305_seal(key: Seq<u8>, nonce: Seq<u8>, plaintext: Seq<u8>) -> Seq<u8>;

/// X25519 public key of the secret scalar bytes `secret`.
pub uninterp spec fn x25519_public_key(secret: Seq<u8>) -> Seq<u8>;

/// X25519 shared secret of the secret scalar bytes `secret` with the public
/// key `public`.
pub uninterp spec fn x25519_shared_secret(secret: Seq<u8>, public: Seq<u8>) -> Seq<u8>;

/// Largest number of 64-byte blocks ChaCha20-Poly1305 seals or opens.
pub const CHACHA_MAX_BLOCKS: usize = 4294967295;

/// ChaCha20-Poly1305 accepts a message of this length.
pub open spec fn chacha_length_ok(len: nat) -> bool {
    len / 64 < CHACHA_MAX_BLOCKS
}

/// Calls `Hkdf::<Sha256>::new(None, ikm)` and `expand(info, ..)` into 32
/// bytes. The expansion fails only past 255 hash blocks, so it cannot fail
/// here; the contract names the derived key.
#[verifier::external_body]
pub(crate) fn hkdf_expand_32(ikm: &[u8], info: &[u8]) -> (okm: [u8; 32])
    ensures
        okm@ == hkdf_sha256_32(ikm@, info@),
{
    let hk = hkdf::Hkdf::<sha2::Sha256>::new(None, ikm);
    let mut okm = [0u8; 32];
    hk.expand(info, &mut okm).expect("32 bytes is within the HKDF-SHA256 limit");
    okm
}

/// Calls `ChaCha20Poly1305::encrypt` with `key` and `nonce`. It fails only
/// when the message has `u32::MAX` or more 64-byte blocks; otherwise the
/// ciphertext is the named sealing.
#[verifier::external_body]
pub(crate) fn chacha_seal(key: &[u8; 32], nonce: &[u8; 12], plaintext: &[u8]) -> (r: Option<Vec<u8>>)
    ensures
        r is Some <==> chacha_length_ok(plaintext@.len()),
        r is Some ==> r->Some_0@ == chacha20poly1305_seal(key@, nonce@, plaintext@),
{
    let cipher = chacha20poly1305::ChaCha20Poly1305::new(key.into());
    cipher.encrypt(chacha20poly1305::Nonce::from_slice(nonce), plaintext).ok()
}

/// Calls `ChaCha20Poly1305::decrypt` with `key` and `nonce`. The tag check
/// makes it accept exactly the sealings under the same key and nonce: it
/// returns `p` when `ciphertext` is the sealing of `p`, and whatever it
/// returns seals back to `ciphertext`.
#[verifier::external_body]
pub(crate) fn chacha_open(key: &[u8; 32], nonce: &[u8; 12], ciphertext: &[u8]) -> (r: Option<Vec<u8>>)
    ensures
        r is Some ==> chacha20poly1305_seal(key@, nonce@, r->Some_0@) == ciphertext@,
        forall|p: Seq<u8>|
            #[trigger] chacha20poly1305_seal(key@, nonce@, p) == ciphertext@ && chacha_length_ok(p.len())
                ==> r is Some && r->Some_0@ == p,
{
    let cipher = chacha20poly1305::ChaCha20Poly1305::new(key.into());
    cipher.decrypt(chacha20poly1305::Nonce::from_slice(nonce), ciphertext).ok()
}

/// Calls `PublicKey::from(&StaticSecret::from(secret))`.
#[verifier::external_body]
pub(crate) fn x25519_public(secret: &[u8; 32]) -> (p: [u8; 32])
    ensures
        p@ == x25519_public_key(secret@),
{
    let s = x25519_dalek::StaticSecret::from(*secret);
    x25519_dalek::PublicKey::from(&s).to_bytes()
}

/// Calls `StaticSecret::from(secret).diffie_hellman(&PublicKey::from(public))`.
/// Diffie-Hellman agreement: when `public` is the public key of some secret
/// `b`, the result is what `b` computes with the public key of `secret`.
#[verifier::external_body]
pub(crate) fn x25519_dh(secret: &[u8; 32], public: &[u8; 32]) -> (s: [u8; 32])
    ensures
        s@ == x25519_shared_secret(secret@, public@),
        forall|b: Seq<u8>|
            b.len() == 32 && public@ == #[trigger] x25519_public_key(b) ==> s@ == x25519_shared_secret(
                b,
                x25519_public_key(secret@),
            ),
{
    let s = x25519_dalek::StaticSecret::from(*secret);
    s.diffie_hellman(&x25519_dalek::PublicKey::from(*public)).to_bytes()
}

/// Calls `StaticSecret::random_from_rng(OsRng)` and returns its bytes.
/// Nothing is stated of the bytes: they come from the operating system.
#[verifier::external_body]
pub(crate) fn random_secret() -> (s: [u8; 32]) {
    x25519_dalek::StaticSecret::random_from_rng(rand::rngs::OsRng).to_bytes()
}

} // verus!
