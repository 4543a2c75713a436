//! Symmetric-key ratchet: every message is sealed under a fresh key derived
//! from a chain key that advances after each message, so that a leaked
//! message key exposes no earlier message.
use vstd::prelude::*;
use crate::crypto::{
    chacha20poly1305_seal, chacha_length_ok, chacha_open, chacha_seal, hkdf_expand_32,
    hkdf_sha256_32,
};

verus! {

/// Errors of the ratchet.
#[derive(Debug, Clone, Copy, PartialEq, Eq, Structural)]
pub enum RatchetError {
    /// Encryption failed.
    Encrypt,
    /// Decryption failed: message key mismatch or tampered ciphertext.
    Decrypt,
}

impl RatchetError {
    /// Human-readable message of the error.
    pub fn message(&self) -> (s: &'static str)
        ensures
            s@ == match self {
                RatchetError::Encrypt => "encryption failed"@,
                RatchetError::Decrypt => "decryption failed: message key mismatch or tampered ciphertext"@,
            },
    {
        match self {
            RatchetError::Encrypt => "encryption failed",
            RatchetError::Decrypt => "decryption failed: message key mismatch or tampered ciphertext",
        }
    }
}

/// Context string of the root key derivation, `"draox-e2ee-root-v1"`.
pub open spec fn info_root() -> Seq<u8> {
    seq![100u8, 114, 97, 111, 120, 45, 101, 50, 101, 101, 45, 114, 111, 111, 116, 45, 118, 49]
}

/// Context string of the chain key step, `"draox-e2ee-chain-v1"`.
pub open spec fn info_chain() -> Seq<u8> {
    seq![100u8, 114, 97, 111, 120, 45, 101, 50, 101, 101, 45, 99, 104, 97, 105, 110, 45, 118, 49]
}

/// Context string of the message key derivation, `"draox-e2ee-message-v1"`.
pub open spec fn info_message() -> Seq<u8> {
    seq![100u8, 114, 97, 111, 120, 45, 101, 50, 101, 101, 45, 109, 101, 115, 115, 97, 103, 101, 45, 118, 49]
}

fn info_root_bytes() -> (b: Vec<u8>)
    ensures
        b@ == info_root(),
{
    let b: Vec<u8> = vec![100u8, 114, 97, 111, 120, 45, 101, 50, 101, 101, 45, 114, 111, 111, 116, 45, 118, 49];
    assert(b@ =~= info_root());
    b
}

fn info_chain_bytes() -> (b: Vec<u8>)
    ensures
        b@ == info_chain(),
{
    let b: Vec<u8> = vec![100u8, 114, 97, 111, 120, 45, 101, 50, 101, 101, 45, 99, 104, 97, 105, 110, 45, 118, 49];
    assert(b@ =~= info_chain());
    b
}

fn info_message_bytes() -> (b: Vec<u8>)
    ensures
        b@ == info_message(),
{
    let b: Vec<u8> = vec![100u8, 114, 97, 111, 120, 45, 101, 50, 101, 101, 45, 109, 101, 115, 115, 97, 103, 101, 45, 118, 49];
    assert(b@ =~= info_message());
    b
}

/// Chain key derived from a shared Diffie-Hellman secret.
pub open spec fn root_chain_key(dh_secret: Seq<u8>) -> Seq<u8> {
    hkdf_sha256_32(dh_secret, info_root())
}

/// The chain key that follows `chain_key`.
pub open spec fn next_chain_key(chain_key: Seq<u8>) -> Seq<u8> {
    hkdf_sha256_32(chain_key, info_chain())
}

/// The message key derived from `chain_key`.
pub open spec fn message_key(chain_key: Seq<u8>) -> Seq<u8> {
    hkdf_sha256_32(chain_key, info_message())
}

/// Big-endian byte `j` (0 = most significant) of `x`.
pub open spec fn be_byte(x: u64, j: int) -> u8 {
    ((x >> ((7 - j) * 8) as u64) & 0xff) as u8
}

/// Nonce of message number `index`: four zero bytes, then the index in
/// big-endian order.
pub open spec fn nonce_for(index: u64) -> Seq<u8> {
    Seq::new(12, |k: int| if k < 4 { 0u8 } else { be_byte(index, k - 4) })
}

/// Ciphertext of `plaintext` sent by a ratchet in state `(chain_key, index)`.
pub open spec fn sealed(chain_key: Seq<u8>, index: u64, plaintext: Seq<u8>) -> Seq<u8> {
    chacha20poly1305_seal(message_key(chain_key), nonce_for(index), plaintext)
}

/// Symmetric-key ratchet (the symmetric sending chain of a double ratchet).
pub struct SymmetricRatchet {
    chain_key: [u8; 32],
    message_index: u64,
}

impl View for SymmetricRatchet {
    type V = (Seq<u8>, u64);

    /// The chain key and the number of messages handled so far.
    closed spec fn view(&self) -> (Seq<u8>, u64) {
        (self.chain_key@, self.message_index)
    }
}

fn nonce_bytes(index: u64) -> (n: [u8; 12])
    ensures
        n@ == nonce_for(index),
{
    let n: [u8; 12] = [
        0u8,
        0u8,
        0u8,
        0u8,
        ((index >> 56u64) & 0xff) as u8,
        ((index >> 48u64) & 0xff) as u8,
        ((index >> 40u64) & 0xff) as u8,
        ((index >> 32u64) & 0xff) as u8,
        ((index >> 24u64) & 0xff) as u8,
        ((index >> 16u64) & 0xff) as u8,
        ((index >> 8u64) & 0xff) as u8,
        (index & 0xff) as u8,
    ];
    assert(index >> 0u64 == index) by (bit_vector);
    assert(n@ =~= nonce_for(index));
    n
}

impl SymmetricRatchet {
    /// A ratchet whose chain key is derived from a shared Diffie-Hellman
    /// secret with HKDF-SHA256.
    pub fn from_shared_secret(dh_secret: &[u8; 32]) -> (r: Self)
        ensures
            r@ == (root_chain_key(dh_secret@), 0u64),
    {
        let info = info_root_bytes();
        let chain_key = hkdf_expand_32(dh_secret, info.as_slice());
        SymmetricRatchet { chain_key, message_index: 0 }
    }

    /// Advances the chain and returns the key of the current message.
    fn advance(&mut self) -> (k: [u8; 32])
        requires
            old(self).message_index < u64::MAX,
        ensures
            final(self)@ == (next_chain_key(old(self)@.0), (old(self)@.1 + 1) as u64),
            k@ == message_key(old(self)@.0),
    {
        let chain_info = info_chain_bytes();
        let message_info = info_message_bytes();
        let new_chain = hkdf_expand_32(&self.chain_key, chain_info.as_slice());
        let msg_key = hkdf_expand_32(&self.chain_key, message_info.as_slice());
        self.chain_key = new_chain;
        self.message_index = self.message_index + 1;
        msg_key
    }

    /// Encrypts `plaintext` under the next message key and returns the
    /// ciphertext with the message's index. The chain advances whether or
    /// not the cipher accepts the message.
    pub fn encrypt(&mut self, plaintext: &[u8]) -> (r: Result<(Vec<u8>, u64), RatchetError>)
        requires
            old(self)@.1 < u64::MAX,
        ensures
            final(self)@ == (next_chain_key(old(self)@.0), (old(self)@.1 + 1) as u64),
            r is Ok <==> chacha_length_ok(plaintext@.len()),
            r matches Err(e) ==> e == RatchetError::Encrypt,
            r matches Ok((c, i)) ==> i == old(self)@.1 && c@ == sealed(old(self)@.0, old(self)@.1, plaintext@),
    {
        let msg_key = self.advance();
        let index = self.message_index - 1;
        let nonce = nonce_bytes(index);
        match chacha_seal(&msg_key, &nonce, plaintext) {
            Some(c) => Ok((c, index)),
            None => Err(RatchetError::Encrypt),
        }
    }

    /// Decrypts a ciphertext sealed at the current message index. It
    /// succeeds exactly on sealings under the current message key, giving
    /// back the sealed plaintext. The chain advances in either case.
    pub fn decrypt(&mut self, ciphertext: &[u8]) -> (r: Result<Vec<u8>, RatchetError>)
        requires
            old(self)@.1 < u64::MAX,
        ensures
            final(self)@ == (next_chain_key(old(self)@.0), (old(self)@.1 + 1) as u64),
            r matches Err(e) ==> e == RatchetError::Decrypt,
            r matches Ok(p) ==> sealed(old(self)@.0, old(self)@.1, p@) == ciphertext@,
            forall|p: Seq<u8>|
                #[trigger] sealed(old(self)@.0, old(self)@.1, p) == ciphertext@ && chacha_length_ok(p.len())
                    ==> (r matches Ok(q) && q@ == p),
    {
        let msg_key = self.advance();
        let index = self.message_index - 1;
        let nonce = nonce_bytes(index);
        match chacha_open(&msg_key, &nonce, ciphertext) {
            Some(p) => Ok(p),
            None => Err(RatchetError::Decrypt),
        }
    }

    /// Number of messages handled so far.
    pub fn message_index(&self) -> (n: u64)
        ensures
            n == self@.1,
    {
        self.message_index
    }
}

/// Two ratchets in the same state stay in step: a message the first
/// encrypts, the second decrypts back to the same plaintext, and both then
/// move to the same next state.
pub proof fn lemma_ratchet_roundtrip(sender: (Seq<u8>, u64), receiver: (Seq<u8>, u64), plaintext: Seq<u8>)
    requires
        sender == receiver,
        chacha_length_ok(plaintext.len()),
    ensures
        sealed(receiver.0, receiver.1, plaintext) == sealed(sender.0, sender.1, plaintext),
        next_chain_key(sender.0) == next_chain_key(receiver.0),
{
}

/// The chain key after `k` steps from `key`.
pub open spec fn chain_after(key: Seq<u8>, k: nat) -> Seq<u8>
    decreases k,
{
    if k == 0 {
        key
    } else {
        next_chain_key(chain_after(key, (k - 1) as nat))
    }
}

/// One encryption or decryption step, as both state it: the chain key
/// moves on once and the index grows by one.
pub open spec fn ratchet_step(before: (Seq<u8>, u64), after: (Seq<u8>, u64)) -> bool {
    after == (next_chain_key(before.0), (before.1 + 1) as u64) && before.1 < u64::MAX
}

/// After `k` messages, encrypted or decrypted in any mix, a ratchet's
/// index has grown by `k` and its chain key has moved `k` steps.
pub proof fn lemma_ratchet_after_steps(states: Seq<(Seq<u8>, u64)>)
    requires
        states.len() >= 1,
        forall|i: int| 0 <= i < states.len() - 1 ==> #[trigger] ratchet_step(states[i], states[i + 1]),
    ensures
        forall|k: int| 0 <= k < states.len() ==> (#[trigger] states[k]).0 == chain_after(states[0].0, k as nat) && states[k].1 == states[0].1 + k,
    decreases states.len(),
{
    if states.len() > 1 {
        let init = states.drop_last();
        assert forall|i: int| 0 <= i < init.len() - 1 implies #[trigger] ratchet_step(init[i], init[i + 1]) by {
            assert(ratchet_step(states[i], states[i + 1]));
        }
        lemma_ratchet_after_steps(init);
        assert forall|k: int| 0 <= k < states.len() implies (#[trigger] states[k]).0 == chain_after(states[0].0, k as nat) && states[k].1 == states[0].1 + k by {
            if k < states.len() - 1 {
                assert(init[k] == states[k]);
            } else {
                let j = k - 1;
                assert(init[j] == states[j]);
                assert(ratchet_step(states[j], states[j + 1]));
                assert(chain_after(states[0].0, k as nat) == next_chain_key(chain_after(states[0].0, j as nat)));
            }
        }
    }
}

} // verus!
