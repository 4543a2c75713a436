use draox_plugins::identity::IdentityError;
use draox_plugins::session_store::{hash_token, hex_encode, ActiveSession, SessionStore};

#[test]
fn test_store_and_validate_refresh_token() {
    let mut store = SessionStore::new(3600);
    let token = "my-refresh-token";
    store.store_refresh_token(token, "usr_1".to_string(), None).unwrap();
    let record = store.validate_refresh_token(token).unwrap();
    assert_eq!(record.user_id, "usr_1");
    assert!(!record.revoked);
}

#[test]
fn test_revoke_all_for_user() {
    let mut store = SessionStore::new(3600);
    store.store_refresh_token("tok1", "usr_1".to_string(), None).unwrap();
    store.store_refresh_token("tok2", "usr_1".to_string(), None).unwrap();
    store.revoke_all_for_user("usr_1");
    assert!(matches!(store.validate_refresh_token("tok1"), Err(IdentityError::TokenRevoked)));
}

#[test]
fn session_store_hash_is_hex_sha256() {
    assert_eq!(hash_token("abc"), "ba7816bf8f01cfea414140de5dae2223b00361a396177a9cb410ff61f20015ad");
    assert_eq!(hex_encode(&vec![0u8, 15, 16, 255]), "000f10ff");
}

#[test]
fn session_store_expiry_and_rotation() {
    let mut store = SessionStore::new(60);
    let rec = store.store_refresh_token_at("t", "u".to_string(), Some("dev".to_string()), 1_000);
    assert_eq!(rec.expires_at, 61_000);
    assert!(store.validate_refresh_token_at("t", 61_000).is_ok());
    assert!(matches!(store.validate_refresh_token_at("t", 61_001), Err(IdentityError::TokenExpired)));
    assert!(matches!(store.validate_refresh_token_at("other", 0), Err(IdentityError::TokenInvalid)));
    assert!(matches!(store.rotate_refresh_token_at("t", 70_000), Err(IdentityError::TokenInvalid)));
    let rotated = store.rotate_refresh_token_at("t", 2_000).unwrap();
    assert!(rotated.revoked);
    assert!(matches!(store.rotate_refresh_token_at("t", 2_000), Err(IdentityError::TokenInvalid)));
    assert!(matches!(store.validate_refresh_token_at("t", 2_000), Err(IdentityError::TokenRevoked)));
}

#[test]
fn session_store_revoke_device_only() {
    let mut store = SessionStore::new(60);
    store.store_refresh_token_at("a", "u".to_string(), Some("phone".to_string()), 0);
    store.store_refresh_token_at("b", "u".to_string(), Some("laptop".to_string()), 0);
    store.revoke_device("u", "phone");
    assert!(matches!(store.validate_refresh_token_at("a", 0), Err(IdentityError::TokenRevoked)));
    assert!(store.validate_refresh_token_at("b", 0).is_ok());
}

#[test]
fn session_store_sessions() {
    let mut store = SessionStore::new(60);
    let s = |id: &str, user: &str, exp: i64| ActiveSession {
        session_id: id.to_string(),
        user_id: user.to_string(),
        device_id: None,
        ip_address: None,
        created_at: 0,
        expires_at: exp,
    };
    store.create_session(s("s1", "u", 100));
    store.create_session(s("s2", "u", 10));
    store.create_session(s("s3", "v", 100));
    let open = store.get_sessions_for_user_at("u", 50);
    assert_eq!(open.len(), 1);
    assert_eq!(open[0].session_id, "s1");
    store.remove_session("s1");
    assert!(store.get_sessions_for_user_at("u", 50).is_empty());
    assert_eq!(store.get_sessions_for_user_at("v", 50).len(), 1);
}
