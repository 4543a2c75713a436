//! Per-client end-to-end encryption manager: one identity key, one
//! published prekey, and one session per peer.
use vstd::prelude::*;
use crate::crypto::x25519_public_key;
use crate::ratchet::{next_chain_key, sealed, RatchetError};
use crate::session::{
    initiator_state, responder_state, E2EESession, EncryptedMessage, EphemeralKeyPair, HandshakeBundle,
    IdentityKeyPair,
};
use crate::text::str_equal;

verus! {

/// Errors of the encryption manager.
#[derive(Debug, Clone)]
pub enum E2EEError {
    /// No active session with the named peer.
    NoSession(String),
    /// The handshake bundle is invalid.
    InvalidHandshake,
    /// The ratchet failed.
    Ratchet(RatchetError),
    /// A public key could not be decoded.
    KeyDecode,
}

/// Per-client manager. Sessions are keyed by peer id; the prekey's public
/// half is published in [`E2EEManager::my_bundle`] and its secret completes
/// the exchange in [`E2EEManager::accept_session`].
pub struct E2EEManager {
    identity: IdentityKeyPair,
    prekey: EphemeralKeyPair,
    sessions: Vec<E2EESession>,
}

impl E2EEManager {
    /// No two sessions share a peer.
    pub closed spec fn wf(self) -> bool {
        forall|i: int, j: int|
            0 <= i < self.sessions@.len() && 0 <= j < self.sessions@.len() && i != j
                ==> self.sessions@[i].peer() != self.sessions@[j].peer()
    }

    /// Public identity key.
    pub closed spec fn identity_public(self) -> Seq<u8> {
        self.identity.public_bytes()
    }

    /// Secret identity key.
    pub closed spec fn identity_secret(self) -> Seq<u8> {
        self.identity.secret_bytes()
    }

    /// Public prekey.
    pub closed spec fn prekey_public(self) -> Seq<u8> {
        self.prekey.public_bytes()
    }

    /// Secret prekey.
    pub closed spec fn prekey_secret(self) -> Seq<u8> {
        self.prekey.secret_bytes()
    }

    /// Position of the session with `peer`.
    pub closed spec fn slot_of(self, peer: Seq<char>) -> int {
        choose|i: int| 0 <= i < self.sessions@.len() && self.sessions@[i].peer() == peer
    }

    /// There is a session with `peer`.
    pub closed spec fn has_peer(self, peer: Seq<char>) -> bool {
        exists|i: int| 0 <= i < self.sessions@.len() && self.sessions@[i].peer() == peer
    }

    /// Sending ratchet state of the session with `peer`.
    pub closed spec fn send_state_of(self, peer: Seq<char>) -> (Seq<u8>, u64) {
        self.sessions@[self.slot_of(peer)].send_state()
    }

    /// Receiving ratchet state of the session with `peer`.
    pub closed spec fn recv_state_of(self, peer: Seq<char>) -> (Seq<u8>, u64) {
        self.sessions@[self.slot_of(peer)].recv_state()
    }

    /// A manager with fresh identity and prekey pairs and no session.
    pub fn new() -> (m: Self)
        ensures
            m.wf(),
            forall|p: Seq<char>| !m.has_peer(p),
            m.identity_public() == x25519_public_key(m.identity_secret()),
            m.prekey_public() == x25519_public_key(m.prekey_secret()),
            m.identity_secret().len() == 32,
            m.prekey_secret().len() == 32,
    {
        E2EEManager {
            identity: IdentityKeyPair::generate(),
            prekey: EphemeralKeyPair::generate(),
            sessions: Vec::new(),
        }
    }

    /// This client's public handshake bundle: identity key and prekey.
    pub fn my_bundle(&self) -> (b: HandshakeBundle)
        ensures
            b.identity_key@ == self.identity_public(),
            b.ephemeral_key@ == self.prekey_public(),
    {
        HandshakeBundle { identity_key: self.identity.public_key(), ephemeral_key: self.prekey.public_key() }
    }

    /// This client's identity public key.
    pub fn identity_public_key(&self) -> (k: [u8; 32])
        ensures
            k@ == self.identity_public(),
    {
        self.identity.public_key()
    }

    fn find(&self, peer_id: &str) -> (r: Option<usize>)
        requires
            self.wf(),
        ensures
            r is None <==> !self.has_peer(peer_id@),
            r matches Some(i) ==> i < self.sessions@.len() && i == self.slot_of(peer_id@),
    {
        let mut i: usize = 0;
        while i < self.sessions.len()
            invariant
                self.wf(),
                i <= self.sessions@.len(),
                forall|k: int| 0 <= k < i ==> self.sessions@[k].peer() != peer_id@,
            decreases self.sessions.len() - i,
        {
            if str_equal(self.sessions[i].peer_name(), peer_id) {
                proof {
                    self.lemma_slot(peer_id@, i as int);
                }
                return Some(i);
            }
            i = i + 1;
        }
        None
    }

    /// Whether a session with `peer_id` exists.
    pub fn has_session(&self, peer_id: &str) -> (b: bool)
        requires
            self.wf(),
        ensures
            b == self.has_peer(peer_id@),
    {
        self.find(peer_id).is_some()
    }

    proof fn lemma_slot(self, p: Seq<char>, k: int)
        requires
            self.wf(),
            0 <= k < self.sessions@.len(),
            self.sessions@[k].peer() == p,
        ensures
            self.has_peer(p),
            self.slot_of(p) == k,
    {
        assert(self.has_peer(p));
    }

    /// Stores `session`, replacing the one with the same peer.
    fn put(&mut self, session: E2EESession)
        requires
            old(self).wf(),
        ensures
            final(self).wf(),
            final(self).identity == old(self).identity,
            final(self).prekey == old(self).prekey,
            final(self).has_peer(session.peer()),
            final(self).send_state_of(session.peer()) == session.send_state(),
            final(self).recv_state_of(session.peer()) == session.recv_state(),
            forall|p: Seq<char>| p != session.peer() ==> (final(self).has_peer(p) <==> old(self).has_peer(p)),
            forall|p: Seq<char>|
                p != session.peer() && old(self).has_peer(p) ==> final(self).send_state_of(p) == old(self).send_state_of(p)
                    && final(self).recv_state_of(p) == old(self).recv_state_of(p),
    {
        let ghost peer = session.peer();
        let ghost s0 = session;
        let ghost before = self.sessions@;
        let ghost old_self = *self;
        let pos: usize;
        match self.find(session.peer_name()) {
            Some(i) => {
                self.sessions.remove(i);
                self.sessions.insert(i, session);
                assert(self.sessions@ =~= before.update(i as int, s0));
                pos = i;
            },
            None => {
                self.sessions.push(session);
                pos = (self.sessions.len() - 1) as usize;
            },
        }
        proof {
            let after = self.sessions@;
            assert(after[pos as int] == s0);
            assert(forall|k: int| 0 <= k < after.len() && k != pos ==> after[k] == before[k]);
            assert forall|i: int, j: int|
                0 <= i < after.len() && 0 <= j < after.len() && i != j implies after[i].peer() != after[j].peer() by {
                if i == pos && j < before.len() {
                    if after[j].peer() == peer {
                        old_self.lemma_slot(peer, j);
                    }
                }
                if j == pos && i < before.len() {
                    if after[i].peer() == peer {
                        old_self.lemma_slot(peer, i);
                    }
                }
            }
            self.lemma_slot(peer, pos as int);
            assert forall|p: Seq<char>| p != peer implies (self.has_peer(p) <==> old_self.has_peer(p)) by {
                if self.has_peer(p) {
                    let k = choose|k: int| 0 <= k < after.len() && after[k].peer() == p;
                    assert(k != pos);
                    assert(before[k].peer() == p);
                }
                if old_self.has_peer(p) {
                    let k = choose|k: int| 0 <= k < before.len() && before[k].peer() == p;
                    if k == pos {
                        old_self.lemma_slot(peer, k);
                    }
                    assert(after[k].peer() == p);
                }
            }
            assert forall|p: Seq<char>| p != peer && old_self.has_peer(p) implies self.send_state_of(p)
                == old_self.send_state_of(p) && self.recv_state_of(p) == old_self.recv_state_of(p) by {
                let k = choose|k: int| 0 <= k < before.len() && before[k].peer() == p;
                old_self.lemma_slot(p, k);
                if k == pos {
                    old_self.lemma_slot(peer, k);
                }
                assert(after[k] == before[k]);
                self.lemma_slot(p, k);
            }
        }
    }

    /// Removes and returns the session at `i`.
    fn take(&mut self, i: usize) -> (s: E2EESession)
        requires
            old(self).wf(),
            i < old(self).sessions@.len(),
        ensures
            final(self).wf(),
            final(self).identity == old(self).identity,
            final(self).prekey == old(self).prekey,
            s == old(self).sessions@[i as int],
            !final(self).has_peer(s.peer()),
            forall|p: Seq<char>| p != s.peer() ==> (final(self).has_peer(p) <==> old(self).has_peer(p)),
            forall|p: Seq<char>|
                p != s.peer() && old(self).has_peer(p) ==> final(self).send_state_of(p) == old(self).send_state_of(p)
                    && final(self).recv_state_of(p) == old(self).recv_state_of(p),
    {
        let ghost before = self.sessions@;
        let ghost old_self = *self;
        let s = self.sessions.remove(i);
        proof {
            let after = self.sessions@;
            assert(after =~= before.remove(i as int));
            assert forall|a: int, b: int|
                0 <= a < after.len() && 0 <= b < after.len() && a != b implies after[a].peer() != after[b].peer() by {
                let fa = if a < i { a } else { a + 1 };
                let fb = if b < i { b } else { b + 1 };
                assert(after[a] == before[fa]);
                assert(after[b] == before[fb]);
            }
            if self.has_peer(s.peer()) {
                let k = choose|k: int| 0 <= k < after.len() && after[k].peer() == s.peer();
                let fk = if k < i { k } else { k + 1 };
                assert(after[k] == before[fk]);
            }
            assert forall|p: Seq<char>| p != s.peer() implies (self.has_peer(p) <==> old_self.has_peer(p)) by {
                if self.has_peer(p) {
                    let k = choose|k: int| 0 <= k < after.len() && after[k].peer() == p;
                    let fk = if k < i { k } else { k + 1 };
                    assert(after[k] == before[fk]);
                }
                if old_self.has_peer(p) {
                    let k = choose|k: int| 0 <= k < before.len() && before[k].peer() == p;
                    assert(k != i);
                    let ak = if k < i { k } else { k - 1 };
                    assert(after[ak] == before[k]);
                }
            }
            assert forall|p: Seq<char>| p != s.peer() && old_self.has_peer(p) implies self.send_state_of(p)
                == old_self.send_state_of(p) && self.recv_state_of(p) == old_self.recv_state_of(p) by {
                let k = choose|k: int| 0 <= k < before.len() && before[k].peer() == p;
                old_self.lemma_slot(p, k);
                assert(k != i);
                let ak = if k < i { k } else { k - 1 };
                assert(after[ak] == before[k]);
                self.lemma_slot(p, ak);
            }
        }
        s
    }

    /// Starts a session with `peer_id` from its published bundle, with a
    /// fresh ephemeral key pair, and returns the bundle the peer needs to
    /// accept it. An earlier session with the peer is replaced.
    pub fn initiate_session(&mut self, peer_id: String, peer_bundle: &HandshakeBundle) -> (r: Result<HandshakeBundle, E2EEError>)
        requires
            old(self).wf(),
        ensures
            final(self).wf(),
            final(self).identity_public() == old(self).identity_public(),
            final(self).identity_secret() == old(self).identity_secret(),
            final(self).prekey_public() == old(self).prekey_public(),
            final(self).prekey_secret() == old(self).prekey_secret(),
            r is Ok,
            r matches Ok(b) ==> {
                &&& b.identity_key@ == old(self).identity_public()
                &&& final(self).has_peer(peer_id@)
                &&& exists|e: Seq<u8>|
                    e.len() == 32 && b.ephemeral_key@ == #[trigger] x25519_public_key(e)
                        && final(self).send_state_of(peer_id@) == initiator_state(
                        old(self).identity_secret(),
                        e,
                        peer_bundle.identity_key@,
                        peer_bundle.ephemeral_key@,
                    )
                &&& final(self).recv_state_of(peer_id@) == final(self).send_state_of(peer_id@)
            },
            forall|p: Seq<char>| p != peer_id@ ==> (final(self).has_peer(p) <==> old(self).has_peer(p)),
            forall|p: Seq<char>|
                p != peer_id@ && old(self).has_peer(p) ==> final(self).send_state_of(p) == old(self).send_state_of(p)
                    && final(self).recv_state_of(p) == old(self).recv_state_of(p),
    {
        let my_eph = EphemeralKeyPair::generate();
        let my_eph_pub = my_eph.public_key();
        let session = E2EESession::initiate(
            peer_id,
            &self.identity,
            &my_eph,
            &peer_bundle.identity_key,
            &peer_bundle.ephemeral_key,
        );
        let identity_key = self.identity.public_key();
        self.put(session);
        Ok(HandshakeBundle { identity_key, ephemeral_key: my_eph_pub })
    }

    /// Accepts a session that `peer_id` started, completing the exchange
    /// with the identity key and the prekey.
    ///
    /// When the initiator's bundle holds the public keys of secrets `a` and
    /// `e`, the new session is in the state the initiator derived from `a`,
    /// `e` and this client's bundle, so the two sides agree.
    pub fn accept_session(&mut self, peer_id: String, initiator_bundle: &HandshakeBundle) -> (r: Result<(), E2EEError>)
        requires
            old(self).wf(),
        ensures
            final(self).wf(),
            final(self).identity_public() == old(self).identity_public(),
            final(self).identity_secret() == old(self).identity_secret(),
            final(self).prekey_public() == old(self).prekey_public(),
            final(self).prekey_secret() == old(self).prekey_secret(),
            r is Ok,
            final(self).has_peer(peer_id@),
            final(self).send_state_of(peer_id@) == responder_state(
                old(self).identity_secret(),
                old(self).prekey_secret(),
                initiator_bundle.identity_key@,
                initiator_bundle.ephemeral_key@,
            ),
            final(self).recv_state_of(peer_id@) == final(self).send_state_of(peer_id@),
            forall|a: Seq<u8>, e: Seq<u8>|
                a.len() == 32 && e.len() == 32 && initiator_bundle.identity_key@ == #[trigger] x25519_public_key(a)
                    && initiator_bundle.ephemeral_key@ == #[trigger] x25519_public_key(e) ==> final(self).send_state_of(
                    peer_id@,
                ) == initiator_state(a, e, old(self).identity_public(), old(self).prekey_public()),
            forall|p: Seq<char>| p != peer_id@ ==> (final(self).has_peer(p) <==> old(self).has_peer(p)),
            forall|p: Seq<char>|
                p != peer_id@ && old(self).has_peer(p) ==> final(self).send_state_of(p) == old(self).send_state_of(p)
                    && final(self).recv_state_of(p) == old(self).recv_state_of(p),
    {
        let session = E2EESession::respond(
            peer_id,
            &self.identity,
            &self.prekey,
            &initiator_bundle.identity_key,
            &initiator_bundle.ephemeral_key,
        );
        self.put(session);
        Ok(())
    }

    /// Encrypts `plaintext` for `peer_id` with that session's sending ratchet.
    pub fn encrypt(&mut self, peer_id: &str, plaintext: &[u8]) -> (r: Result<EncryptedMessage, E2EEError>)
        requires
            old(self).wf(),
            old(self).has_peer(peer_id@) ==> old(self).send_state_of(peer_id@).1 < u64::MAX,
        ensures
            final(self).wf(),
            !old(self).has_peer(peer_id@) ==> (r matches Err(E2EEError::NoSession(p)) && p@ == peer_id@)
                && *final(self) == *old(self),
            old(self).has_peer(peer_id@) ==> {
                let st = old(self).send_state_of(peer_id@);
                &&& final(self).has_peer(peer_id@)
                &&& final(self).send_state_of(peer_id@) == (next_chain_key(st.0), (st.1 + 1) as u64)
                &&& final(self).recv_state_of(peer_id@) == old(self).recv_state_of(peer_id@)
                &&& (r is Ok <==> crate::crypto::chacha_length_ok(plaintext@.len()))
                &&& (r matches Err(e) ==> e == E2EEError::Ratchet(RatchetError::Encrypt))
                &&& (r matches Ok(m) ==> m.index == st.1 && m.ciphertext@ == sealed(st.0, st.1, plaintext@))
            },
            forall|p: Seq<char>| p != peer_id@ ==> (final(self).has_peer(p) <==> old(self).has_peer(p)),
            forall|p: Seq<char>|
                p != peer_id@ && old(self).has_peer(p) ==> final(self).send_state_of(p) == old(self).send_state_of(p)
                    && final(self).recv_state_of(p) == old(self).recv_state_of(p),
    {
        match self.find(peer_id) {
            None => Err(E2EEError::NoSession(peer_id.to_string())),
            Some(i) => {
                let mut session = self.take(i);
                let r = session.encrypt(plaintext);
                self.put(session);
                match r {
                    Ok(m) => Ok(m),
                    Err(e) => Err(E2EEError::Ratchet(e)),
                }
            },
        }
    }

    /// Decrypts a message from `peer_id` with that session's receiving
    /// ratchet: a message sealed by a sending ratchet in the same state
    /// opens to its plaintext.
    pub fn decrypt(&mut self, peer_id: &str, msg: &EncryptedMessage) -> (r: Result<Vec<u8>, E2EEError>)
        requires
            old(self).wf(),
            old(self).has_peer(peer_id@) ==> old(self).recv_state_of(peer_id@).1 < u64::MAX,
        ensures
            final(self).wf(),
            !old(self).has_peer(peer_id@) ==> (r matches Err(E2EEError::NoSession(p)) && p@ == peer_id@)
                && *final(self) == *old(self),
            old(self).has_peer(peer_id@) ==> {
                let st = old(self).recv_state_of(peer_id@);
                &&& final(self).has_peer(peer_id@)
                &&& final(self).recv_state_of(peer_id@) == (next_chain_key(st.0), (st.1 + 1) as u64)
                &&& final(self).send_state_of(peer_id@) == old(self).send_state_of(peer_id@)
                &&& (r matches Err(e) ==> e == E2EEError::Ratchet(RatchetError::Decrypt))
                &&& (r matches Ok(p) ==> sealed(st.0, st.1, p@) == msg.ciphertext@)
                &&& forall|p: Seq<u8>|
                    #[trigger] sealed(st.0, st.1, p) == msg.ciphertext@ && crate::crypto::chacha_length_ok(p.len())
                        ==> (r matches Ok(q) && q@ == p)
            },
            forall|p: Seq<char>| p != peer_id@ ==> (final(self).has_peer(p) <==> old(self).has_peer(p)),
            forall|p: Seq<char>|
                p != peer_id@ && old(self).has_peer(p) ==> final(self).send_state_of(p) == old(self).send_state_of(p)
                    && final(self).recv_state_of(p) == old(self).recv_state_of(p),
    {
        match self.find(peer_id) {
            None => Err(E2EEError::NoSession(peer_id.to_string())),
            Some(i) => {
                let mut session = self.take(i);
                let r = session.decrypt(msg);
                self.put(session);
                match r {
                    Ok(p) => Ok(p),
                    Err(e) => Err(E2EEError::Ratchet(e)),
                }
            },
        }
    }

    /// Ends the session with `peer_id`, if there is one.
    pub fn remove_session(&mut self, peer_id: &str)
        requires
            old(self).wf(),
        ensures
            final(self).wf(),
            !final(self).has_peer(peer_id@),
            forall|p: Seq<char>| p != peer_id@ ==> (final(self).has_peer(p) <==> old(self).has_peer(p)),
            forall|p: Seq<char>|
                p != peer_id@ && old(self).has_peer(p) ==> final(self).send_state_of(p) == old(self).send_state_of(p)
                    && final(self).recv_state_of(p) == old(self).recv_state_of(p),
    {
        match self.find(peer_id) {
            None => {},
            Some(i) => {
                let _ = self.take(i);
            },
        }
    }
}

} // verus!
