//! X25519 key pairs and end-to-end encrypted sessions between two clients.
use vstd::prelude::*;
use crate::crypto::{
    hkdf_expand_32, hkdf_sha256_32, random_secret, x25519_dh, x25519_public, x25519_public_key,
    x25519_shared_secret,
};
use crate::ratchet::{root_chain_key, sealed, RatchetError, SymmetricRatchet};

verus! {

/// X25519 identity key pair held by each client; the public key is
/// published, the secret never leaves the device.
pub struct IdentityKeyPair {
    secret: [u8; 32],
    public: [u8; 32],
}

/// Ephemeral X25519 key pair, used for one session (forward secrecy).
pub struct EphemeralKeyPair {
    secret: [u8; 32],
    public: [u8; 32],
}

impl IdentityKeyPair {
    #[verifier::type_invariant]
    spec fn keys_match(self) -> bool {
        self.public@ == x25519_public_key(self.secret@)
    }

    /// The secret scalar bytes.
    pub closed spec fn secret_bytes(self) -> Seq<u8> {
        self.secret@
    }

    /// The public key bytes.
    pub closed spec fn public_bytes(self) -> Seq<u8> {
        self.public@
    }

    /// A fresh key pair from the operating system's random number generator.
    pub fn generate() -> (k: Self)
        ensures
            k.public_bytes() == x25519_public_key(k.secret_bytes()),
            k.secret_bytes().len() == 32,
    {
        let secret = random_secret();
        let public = x25519_public(&secret);
        IdentityKeyPair { secret, public }
    }

    /// The public key.
    pub fn public_key(&self) -> (p: [u8; 32])
        ensures
            p@ == self.public_bytes(),
            p@ == x25519_public_key(self.secret_bytes()),
            self.secret_bytes().len() == 32,
    {
        proof {
            use_type_invariant(self);
        }
        self.public
    }

    /// X25519 shared secret with a remote public key.
    pub fn dh(&self, remote_public: &[u8; 32]) -> (s: [u8; 32])
        ensures
            s@ == x25519_shared_secret(self.secret_bytes(), remote_public@),
            forall|b: Seq<u8>|
                b.len() == 32 && remote_public@ == #[trigger] x25519_public_key(b) ==> s@ == x25519_shared_secret(
                    b,
                    self.public_bytes(),
                ),
    {
        proof {
            use_type_invariant(self);
        }
        x25519_dh(&self.secret, remote_public)
    }
}

impl EphemeralKeyPair {
    #[verifier::type_invariant]
    spec fn keys_match(self) -> bool {
        self.public@ == x25519_public_key(self.secret@)
    }

    /// The secret scalar bytes.
    pub closed spec fn secret_bytes(self) -> Seq<u8> {
        self.secret@
    }

    /// The public key bytes.
    pub closed spec fn public_bytes(self) -> Seq<u8> {
        self.public@
    }

    /// A fresh key pair from the operating system's random number generator.
    pub fn generate() -> (k: Self)
        ensures
            k.public_bytes() == x25519_public_key(k.secret_bytes()),
            k.secret_bytes().len() == 32,
    {
        let secret = random_secret();
        let public = x25519_public(&secret);
        EphemeralKeyPair { secret, public }
    }

    /// The public key.
    pub fn public_key(&self) -> (p: [u8; 32])
        ensures
            p@ == self.public_bytes(),
            p@ == x25519_public_key(self.secret_bytes()),
            self.secret_bytes().len() == 32,
    {
        proof {
            use_type_invariant(self);
        }
        self.public
    }

    /// X25519 shared secret with a remote public key.
    pub fn dh(&self, remote_public: &[u8; 32]) -> (s: [u8; 32])
        ensures
            s@ == x25519_shared_secret(self.secret_bytes(), remote_public@),
            forall|b: Seq<u8>|
                b.len() == 32 && remote_public@ == #[trigger] x25519_public_key(b) ==> s@ == x25519_shared_secret(
                    b,
                    self.public_bytes(),
                ),
    {
        proof {
            use_type_invariant(self);
        }
        x25519_dh(&self.secret, remote_public)
    }
}

/// Context string of the session key derivation, `"draox-e2ee-session-v1"`.
pub open spec fn info_session() -> Seq<u8> {
    seq![100u8, 114, 97, 111, 120, 45, 101, 50, 101, 101, 45, 115, 101, 115, 115, 105, 111, 110, 45, 118, 49]
}

/// Shared secret of a session from its two Diffie-Hellman outputs.
pub open spec fn session_secret(dh1: Seq<u8>, dh2: Seq<u8>) -> Seq<u8> {
    hkdf_sha256_32(dh1 + dh2, info_session())
}

/// Ratchet state the initiator derives from its identity secret `id`, its
/// ephemeral secret `eph` and the peer's public identity and ephemeral keys.
pub open spec fn initiator_state(id: Seq<u8>, eph: Seq<u8>, peer_id_pub: Seq<u8>, peer_eph_pub: Seq<u8>) -> (Seq<u8>, u64) {
    (
        root_chain_key(
            session_secret(x25519_shared_secret(id, peer_eph_pub), x25519_shared_secret(eph, peer_id_pub)),
        ),
        0u64,
    )
}

/// Ratchet state the responder derives from its own secrets and the
/// initiator's public identity and ephemeral keys.
pub open spec fn responder_state(id: Seq<u8>, eph: Seq<u8>, init_id_pub: Seq<u8>, init_eph_pub: Seq<u8>) -> (Seq<u8>, u64) {
    (
        root_chain_key(
            session_secret(x25519_shared_secret(eph, init_id_pub), x25519_shared_secret(id, init_eph_pub)),
        ),
        0u64,
    )
}

/// Public half of a handshake: identity and ephemeral public keys.
#[derive(Debug, Clone, Copy)]
pub struct HandshakeBundle {
    /// Sender's identity public key.
    pub identity_key: [u8; 32],
    /// Ephemeral public key of this session.
    pub ephemeral_key: [u8; 32],
}

/// Wire format of an encrypted message.
#[derive(Debug, Clone)]
pub struct EncryptedMessage {
    pub ciphertext: Vec<u8>,
    /// Sender's ratchet index, for detecting out-of-order delivery.
    pub index: u64,
}

/// An established session: one ratchet per direction, both started from
/// the same chain key derived from the shared secret (so each side's
/// sending chain runs in step with the other side's receiving chain).
pub struct E2EESession {
    pub peer_id: String,
    send_ratchet: SymmetricRatchet,
    recv_ratchet: SymmetricRatchet,
}

fn info_session_bytes() -> (b: Vec<u8>)
    ensures
        b@ == info_session(),
{
    let b: Vec<u8> = vec![100u8, 114, 97, 111, 120, 45, 101, 50, 101, 101, 45, 115, 101, 115, 115, 105, 111, 110, 45, 118, 49];
    assert(b@ =~= info_session());
    b
}

fn concat_keys(a: &[u8; 32], b: &[u8; 32]) -> (m: Vec<u8>)
    ensures
        m@ == a@ + b@,
{
    let mut m: Vec<u8> = Vec::new();
    let mut i: usize = 0;
    while i < 32
        invariant
            i <= 32,
            a@.len() == 32,
            m@ == a@.subrange(0, i as int),
        decreases 32 - i,
    {
        m.push(a[i]);
        i = i + 1;
        assert(m@ =~= a@.subrange(0, i as int));
    }
    let mut j: usize = 0;
    while j < 32
        invariant
            j <= 32,
            a@.len() == 32,
            b@.len() == 32,
            m@ == a@ + b@.subrange(0, j as int),
        decreases 32 - j,
    {
        m.push(b[j]);
        j = j + 1;
        assert(m@ =~= a@ + b@.subrange(0, j as int));
    }
    assert(m@ =~= a@ + b@);
    m
}

impl E2EESession {
    /// Id of the peer.
    pub closed spec fn peer(self) -> Seq<char> {
        self.peer_id@
    }

    /// Ratchet state of the sending direction.
    pub closed spec fn send_state(self) -> (Seq<u8>, u64) {
        self.send_ratchet@
    }

    /// Ratchet state of the receiving direction.
    pub closed spec fn recv_state(self) -> (Seq<u8>, u64) {
        self.recv_ratchet@
    }

    /// Id of the peer.
    pub fn peer_name(&self) -> (p: &str)
        ensures
            p@ == self.peer(),
    {
        self.peer_id.as_str()
    }

    fn kdf(dh1: &[u8; 32], dh2: &[u8; 32]) -> (out: [u8; 32])
        ensures
            out@ == session_secret(dh1@, dh2@),
    {
        let master = concat_keys(dh1, dh2);
        let info = info_session_bytes();
        hkdf_expand_32(master.as_slice(), info.as_slice())
    }

    /// Session set up by the initiator from its keys and the peer's
    /// published identity and ephemeral public keys.
    pub fn initiate(
        peer_id: String,
        my_identity: &IdentityKeyPair,
        my_ephemeral: &EphemeralKeyPair,
        peer_identity_pub: &[u8; 32],
        peer_ephemeral_pub: &[u8; 32],
    ) -> (s: Self)
        ensures
            s.peer() == peer_id@,
            s.send_state() == initiator_state(
                my_identity.secret_bytes(),
                my_ephemeral.secret_bytes(),
                peer_identity_pub@,
                peer_ephemeral_pub@,
            ),
            s.recv_state() == s.send_state(),
    {
        let dh1 = my_identity.dh(peer_ephemeral_pub);
        let dh2 = my_ephemeral.dh(peer_identity_pub);
        let shared = Self::kdf(&dh1, &dh2);
        E2EESession {
            peer_id,
            send_ratchet: SymmetricRatchet::from_shared_secret(&shared),
            recv_ratchet: SymmetricRatchet::from_shared_secret(&shared),
        }
    }

    /// Session set up by the responder on receiving the initiator's bundle.
    ///
    /// Handshake agreement: when the initiator's public keys belong to the
    /// secrets `a` and `e`, the responder derives exactly the state the
    /// initiator derived from `a`, `e` and the responder's public keys.
    pub fn respond(
        peer_id: String,
        my_identity: &IdentityKeyPair,
        my_ephemeral: &EphemeralKeyPair,
        initiator_identity_pub: &[u8; 32],
        initiator_ephemeral_pub: &[u8; 32],
    ) -> (s: Self)
        ensures
            s.peer() == peer_id@,
            s.send_state() == responder_state(
                my_identity.secret_bytes(),
                my_ephemeral.secret_bytes(),
                initiator_identity_pub@,
                initiator_ephemeral_pub@,
            ),
            s.recv_state() == s.send_state(),
            forall|a: Seq<u8>, e: Seq<u8>|
                a.len() == 32 && e.len() == 32 && initiator_identity_pub@ == #[trigger] x25519_public_key(a)
                    && initiator_ephemeral_pub@ == #[trigger] x25519_public_key(e) ==> s.send_state()
                    == initiator_state(a, e, my_identity.public_bytes(), my_ephemeral.public_bytes()),
    {
        let dh1 = my_ephemeral.dh(initiator_identity_pub);
        let dh2 = my_identity.dh(initiator_ephemeral_pub);
        let shared = Self::kdf(&dh1, &dh2);
        E2EESession {
            peer_id,
            send_ratchet: SymmetricRatchet::from_shared_secret(&shared),
            recv_ratchet: SymmetricRatchet::from_shared_secret(&shared),
        }
    }

    /// Encrypts with the sending ratchet.
    pub fn encrypt(&mut self, plaintext: &[u8]) -> (r: Result<EncryptedMessage, RatchetError>)
        requires
            old(self).send_state().1 < u64::MAX,
        ensures
            final(self).peer() == old(self).peer(),
            final(self).recv_state() == old(self).recv_state(),
            final(self).send_state() == (
                crate::ratchet::next_chain_key(old(self).send_state().0),
                (old(self).send_state().1 + 1) as u64,
            ),
            r is Ok <==> crate::crypto::chacha_length_ok(plaintext@.len()),
            r matches Err(e) ==> e == RatchetError::Encrypt,
            r matches Ok(m) ==> m.index == old(self).send_state().1 && m.ciphertext@ == sealed(
                old(self).send_state().0,
                old(self).send_state().1,
                plaintext@,
            ),
    {
        match self.send_ratchet.encrypt(plaintext) {
            Ok((ciphertext, index)) => Ok(EncryptedMessage { ciphertext, index }),
            Err(e) => Err(e),
        }
    }

    /// Decrypts with the receiving ratchet: a message sealed by a sending
    /// ratchet in the same state opens to its plaintext.
    pub fn decrypt(&mut self, msg: &EncryptedMessage) -> (r: Result<Vec<u8>, RatchetError>)
        requires
            old(self).recv_state().1 < u64::MAX,
        ensures
            final(self).peer() == old(self).peer(),
            final(self).send_state() == old(self).send_state(),
            final(self).recv_state() == (
                crate::ratchet::next_chain_key(old(self).recv_state().0),
                (old(self).recv_state().1 + 1) as u64,
            ),
            r matches Err(e) ==> e == RatchetError::Decrypt,
            r matches Ok(p) ==> sealed(old(self).recv_state().0, old(self).recv_state().1, p@) == msg.ciphertext@,
            forall|p: Seq<u8>|
                #[trigger] sealed(old(self).recv_state().0, old(self).recv_state().1, p) == msg.ciphertext@
                    && crate::crypto::chacha_length_ok(p.len()) ==> (r matches Ok(q) && q@ == p),
    {
        self.recv_ratchet.decrypt(msg.ciphertext.as_slice())
    }
}

} // verus!
