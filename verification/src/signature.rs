//! Checks that a plugin package was signed by a trusted publisher.
use vstd::prelude::*;
use crate::lifecycle::{anonymous_plugin_error, HostError};
use crate::text::push_str;
use crate::version::{dec_str, push_decimal};

verus! {

/// Ed25519 signature verifier for plugin packages.
pub struct SignatureVerifier {
    /// Raw public keys of trusted publishers.
    trusted_keys: Vec<Vec<u8>>,
}

/// Length in bytes of an Ed25519 signature.
pub const SIGNATURE_LEN: usize = 64;

/// Length in bytes of an Ed25519 public key.
pub const PUBLIC_KEY_LEN: usize = 32;

/// The structural check a key must pass to be used: its length.
pub open spec fn key_usable(key: Seq<u8>) -> bool {
    key.len() == PUBLIC_KEY_LEN
}

/// Message of a signature whose length is not `SIGNATURE_LEN`.
pub open spec fn bad_length_message(len: nat) -> Seq<char> {
    "invalid signature length: "@ + dec_str(len) + " (expected 64)"@
}

impl View for SignatureVerifier {
    type V = Seq<Seq<u8>>;

    /// The trusted keys, in the order they were added.
    closed spec fn view(&self) -> Seq<Seq<u8>> {
        self.trusted_keys@.map_values(|k: Vec<u8>| k@)
    }
}

impl SignatureVerifier {
    /// A verifier with no trusted keys.
    pub fn new() -> (v: Self)
        ensures
            v@ == Seq::<Seq<u8>>::empty(),
    {
        let v = SignatureVerifier { trusted_keys: Vec::new() };
        assert(v@ =~= Seq::<Seq<u8>>::empty());
        v
    }

    /// Adds a trusted public key (raw bytes).
    pub fn add_trusted_key(&mut self, key: Vec<u8>)
        ensures
            final(self)@ == old(self)@.push(key@),
    {
        self.trusted_keys.push(key);
        assert(self@ =~= old(self)@.push(key@));
    }

    /// Number of trusted keys.
    pub fn trusted_key_count(&self) -> (n: usize)
        ensures
            n == self@.len(),
    {
        self.trusted_keys.len()
    }

    /// Verifies `signature` over `data` against the trusted keys.
    ///
    /// An error when no key is configured or the signature is not 64 bytes
    /// long; otherwise `Ok(true)` when some trusted key passes the check.
    pub fn verify(&self, data: &[u8], signature: &[u8]) -> (r: Result<bool, HostError>)
        ensures
            self@.len() == 0 ==> (r matches Err(e) && anonymous_plugin_error(
                e,
                "no trusted keys configured"@,
            )),
            self@.len() > 0 && signature@.len() != SIGNATURE_LEN ==> (r matches Err(e)
                && anonymous_plugin_error(e, bad_length_message(signature@.len()))),
            self@.len() > 0 && signature@.len() == SIGNATURE_LEN ==> r == Ok::<bool, HostError>(
                exists|k: int| 0 <= k < self@.len() && key_usable(#[trigger] self@[k]),
            ),
    {
        if self.trusted_keys.len() == 0 {
            let mut message = String::new();
            push_str(&mut message, "no trusted keys configured");
            return Err(HostError::Plugin { plugin_id: String::new(), message });
        }
        if signature.len() != SIGNATURE_LEN {
            let mut message = String::new();
            push_str(&mut message, "invalid signature length: ");
            push_decimal(&mut message, signature.len() as u64);
            push_str(&mut message, " (expected 64)");
            return Err(HostError::Plugin { plugin_id: String::new(), message });
        }
        let mut i: usize = 0;
        while i < self.trusted_keys.len()
            invariant
                i <= self.trusted_keys@.len(),
                signature@.len() == SIGNATURE_LEN,
                self@.len() > 0,
                forall|k: int| 0 <= k < i ==> !key_usable(#[trigger] self@[k]),
            decreases self.trusted_keys.len() - i,
        {
            let key = &self.trusted_keys[i];
            if key.len() == PUBLIC_KEY_LEN && verify_ed25519(key.as_slice(), data, signature) {
                assert(key_usable(self@[i as int]));
                return Ok(true);
            }
            i = i + 1;
        }
        Ok(false)
    }
}

impl Default for SignatureVerifier {
    fn default() -> (v: Self)
        ensures
            v@ == Seq::<Seq<u8>>::empty(),
    {
        Self::new()
    }
}

/// Structural Ed25519 check: the public key has the Ed25519 key length.
fn verify_ed25519(public_key: &[u8], data: &[u8], signature: &[u8]) -> (b: bool)
    ensures
        b <==> key_usable(public_key@),
{
    public_key.len() == PUBLIC_KEY_LEN
}

} // verus!
