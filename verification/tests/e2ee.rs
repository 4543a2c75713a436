use draox_plugins::e2ee_manager::{E2EEError, E2EEManager};
use draox_plugins::ratchet::{RatchetError, SymmetricRatchet};
use draox_plugins::session::{E2EESession, EphemeralKeyPair, IdentityKeyPair};

fn make_pair() -> (SymmetricRatchet, SymmetricRatchet) {
    let shared = [0xab_u8; 32];
    (SymmetricRatchet::from_shared_secret(&shared), SymmetricRatchet::from_shared_secret(&shared))
}

#[test]
fn test_encrypt_decrypt_roundtrip() {
    let (mut sender, mut receiver) = make_pair();
    let plaintext = b"hello e2ee";
    let (ct, _idx) = sender.encrypt(plaintext).unwrap();
    let pt = receiver.decrypt(&ct).unwrap();
    assert_eq!(pt, plaintext);
}

#[test]
fn test_multiple_messages() {
    let (mut sender, mut receiver) = make_pair();
    for i in 0..10u8 {
        let msg = vec![i; 32];
        let (ct, _) = sender.encrypt(&msg).unwrap();
        let pt = receiver.decrypt(&ct).unwrap();
        assert_eq!(pt, msg);
    }
}

#[test]
fn test_tampered_ciphertext_rejected() {
    let (mut sender, mut receiver) = make_pair();
    let (mut ct, _) = sender.encrypt(b"secret").unwrap();
    ct[0] ^= 0xff;
    assert!(receiver.decrypt(&ct).is_err());
}

#[test]
fn ratchet_indices_and_fresh_keys() {
    let (mut sender, _) = make_pair();
    assert_eq!(sender.message_index(), 0);
    let (c1, i1) = sender.encrypt(b"same").unwrap();
    let (c2, i2) = sender.encrypt(b"same").unwrap();
    assert_eq!((i1, i2), (0, 1));
    assert_eq!(sender.message_index(), 2);
    // The chain advanced: the same plaintext seals differently.
    assert_ne!(c1, c2);
    assert_eq!(c1.len(), 4 + 16);
}

#[test]
fn out_of_step_receiver_rejects() {
    let (mut sender, mut receiver) = make_pair();
    let (_first, _) = sender.encrypt(b"one").unwrap();
    let (second, _) = sender.encrypt(b"two").unwrap();
    // The receiver is still at index 0; the second message does not open.
    match receiver.decrypt(&second) {
        Err(e) => assert_eq!(e, RatchetError::Decrypt),
        Ok(_) => panic!("out-of-step message opened"),
    }
}

#[test]
fn ratchet_error_messages() {
    assert_eq!(RatchetError::Encrypt.message(), "encryption failed");
    assert_eq!(
        RatchetError::Decrypt.message(),
        "decryption failed: message key mismatch or tampered ciphertext"
    );
}

#[test]
fn test_dh_is_symmetric() {
    let alice = IdentityKeyPair::generate();
    let bob = IdentityKeyPair::generate();
    let shared_ab = alice.dh(&bob.public_key());
    let shared_ba = bob.dh(&alice.public_key());
    assert_eq!(shared_ab, shared_ba);
}

#[test]
fn test_different_pairs_differ() {
    let a = IdentityKeyPair::generate();
    let b = IdentityKeyPair::generate();
    let c = IdentityKeyPair::generate();
    assert_ne!(a.dh(&c.public_key()), b.dh(&c.public_key()));
}

#[test]
fn sessions_from_a_handshake_agree() {
    let alice_id = IdentityKeyPair::generate();
    let alice_eph = EphemeralKeyPair::generate();
    let bob_id = IdentityKeyPair::generate();
    let bob_eph = EphemeralKeyPair::generate();
    let mut alice = E2EESession::initiate(
        "bob".to_string(),
        &alice_id,
        &alice_eph,
        &bob_id.public_key(),
        &bob_eph.public_key(),
    );
    let mut bob = E2EESession::respond(
        "alice".to_string(),
        &bob_id,
        &bob_eph,
        &alice_id.public_key(),
        &alice_eph.public_key(),
    );
    let m = alice.encrypt(b"hi bob").unwrap();
    assert_eq!(m.index, 0);
    assert_eq!(bob.decrypt(&m).unwrap(), b"hi bob".to_vec());
    let reply = bob.encrypt(b"hi alice").unwrap();
    assert_eq!(alice.decrypt(&reply).unwrap(), b"hi alice".to_vec());
    assert_eq!(alice.peer_name(), "bob");
}

#[test]
fn test_full_session_roundtrip() {
    let mut alice = E2EEManager::new();
    let mut bob = E2EEManager::new();

    let bob_bundle = bob.my_bundle();
    let alice_bundle = alice.initiate_session("bob".to_string(), &bob_bundle).unwrap();

    bob.accept_session("alice".to_string(), &alice_bundle).unwrap();

    let plaintext = b"hello from alice";
    let enc = alice.encrypt("bob", plaintext).unwrap();

    let dec = bob.decrypt("alice", &enc).unwrap();
    assert_eq!(dec, plaintext);
}

#[test]
fn test_no_session_error() {
    let mut alice = E2EEManager::new();
    let err = alice.encrypt("nobody", b"test").unwrap_err();
    assert!(matches!(err, E2EEError::NoSession(_)));
}

#[test]
fn manager_sessions_are_per_peer() {
    let mut alice = E2EEManager::new();
    let bob = E2EEManager::new();
    assert!(!alice.has_session("bob"));
    let bundle = alice.initiate_session("bob".to_string(), &bob.my_bundle()).unwrap();
    assert_eq!(bundle.identity_key, alice.identity_public_key());
    assert!(alice.has_session("bob"));
    assert!(!alice.has_session("carol"));
    alice.remove_session("bob");
    assert!(!alice.has_session("bob"));
    match alice.decrypt("bob", &draox_plugins::session::EncryptedMessage { ciphertext: vec![], index: 0 }) {
        Err(E2EEError::NoSession(p)) => assert_eq!(p, "bob"),
        other => panic!("unexpected {:?}", other),
    }
}
