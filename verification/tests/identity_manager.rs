use draox_plugins::credentials::{hash_password, verify_password, TokenService};
use draox_plugins::identity::{
    authorization_url, authorization_url_with_state, oauth_exchange_endpoints, require_access_token,
    token_request_form, user_info_from_profile, AuthProvider, IdentityError, OAuthProviderConfig, OAuthUserInfo,
};
use draox_plugins::identity_manager::IdentityManager;

fn make_manager() -> IdentityManager {
    IdentityManager::new("test-secret", 3600, 86400)
}

#[test]
fn test_register_and_login() {
    let mut mgr = make_manager();
    mgr.register("alice".to_string(), "alice@example.com".to_string(), "pass123".to_string()).unwrap();
    let pair = mgr.login("alice@example.com", "pass123", None, None).unwrap();
    assert!(!pair.access_token.is_empty());
    assert!(!pair.refresh_token.is_empty());
}

#[test]
fn test_duplicate_email_rejected() {
    let mut mgr = make_manager();
    mgr.register("alice".to_string(), "alice@example.com".to_string(), "pass1".to_string()).unwrap();
    let result = mgr.register("alice2".to_string(), "alice@example.com".to_string(), "pass2".to_string());
    assert!(matches!(result, Err(IdentityError::EmailAlreadyExists)));
}

#[test]
fn test_wrong_password_rejected() {
    let mut mgr = make_manager();
    mgr.register("bob".to_string(), "bob@example.com".to_string(), "correct".to_string()).unwrap();
    let result = mgr.login("bob@example.com", "wrong", None, None);
    assert!(matches!(result, Err(IdentityError::InvalidCredentials)));
}

#[test]
fn test_token_refresh() {
    let mut mgr = make_manager();
    mgr.register("carol".to_string(), "carol@example.com".to_string(), "pw".to_string()).unwrap();
    let pair = mgr.login("carol@example.com", "pw", None, None).unwrap();
    let new_pair = mgr.refresh(&pair.refresh_token).unwrap();
    assert!(!new_pair.access_token.is_empty());
    // Old refresh token is now invalid
    assert!(mgr.refresh(&pair.refresh_token).is_err());
}

#[test]
fn test_verify_access_token() {
    let mut mgr = make_manager();
    mgr.register("dave".to_string(), "dave@example.com".to_string(), "pw".to_string()).unwrap();
    let pair = mgr.login("dave@example.com", "pw", None, None).unwrap();
    let uid = mgr.verify_access_token(&pair.access_token).unwrap();
    assert!(uid.starts_with("usr_"));
}

#[test]
fn test_hash_and_verify() {
    let hash = hash_password("secret123").unwrap();
    assert!(verify_password("secret123", &hash).unwrap());
    assert!(!verify_password("wrongpass", &hash).unwrap());
}

#[test]
fn unreadable_hash_is_an_internal_error() {
    assert!(matches!(verify_password("x", "not-a-phc-string"), Err(IdentityError::Internal(_))));
}

#[test]
fn test_access_token_roundtrip() {
    let svc = TokenService::new("test-secret-key", 3600, 86400);
    let uid = "usr_abc123".to_string();
    let token = svc.issue_access_token_at(&uid, 1_700_000_000_000, "jti-1".to_string()).unwrap();
    // issued "now" relative to the real clock, so it has not expired
    let fresh = svc.issue_access_token_at(&uid, chrono_now_ms(), "jti-2".to_string()).unwrap();
    let claims = svc.verify_token(&fresh).unwrap();
    assert_eq!(claims.sub, uid);
    assert_eq!(claims.token_type, "access");
    assert_eq!(claims.jti, "jti-2");
    assert_eq!(claims.exp - claims.iat, 3600);
    // a token issued in 2023 with a one-hour lifetime has expired
    assert!(matches!(svc.verify_token(&token), Err(IdentityError::TokenExpired)));
}

fn chrono_now_ms() -> i64 {
    chrono::Utc::now().timestamp_millis()
}

#[test]
fn test_expired_token_rejected() {
    let svc = TokenService::new("test-secret-key", 3600, 86400);
    // Manually issue a token with exp far in the past (Unix epoch + 1)
    let mut claims = serde_json::Map::new();
    claims.insert("sub".to_string(), serde_json::Value::from("usr_x"));
    claims.insert("exp".to_string(), serde_json::Value::from(1));
    claims.insert("iat".to_string(), serde_json::Value::from(0));
    claims.insert("jti".to_string(), serde_json::Value::from("test-jti"));
    claims.insert("token_type".to_string(), serde_json::Value::from("access"));
    let key = jsonwebtoken::EncodingKey::from_secret("test-secret-key".as_bytes());
    let token = jsonwebtoken::encode(&jsonwebtoken::Header::default(), &claims, &key).unwrap();
    let result = svc.verify_token(&token);
    assert!(matches!(result, Err(IdentityError::TokenExpired)));
}

#[test]
fn token_signed_with_another_secret_is_invalid() {
    let a = TokenService::new("one", 3600, 86400);
    let b = TokenService::new("two", 3600, 86400);
    let t = a.issue_access_token_at("usr_1", chrono_now_ms(), "j".to_string()).unwrap();
    assert!(matches!(b.verify_token(&t), Err(IdentityError::TokenInvalid)));
    assert!(matches!(b.verify_token("garbage"), Err(IdentityError::TokenInvalid)));
}

#[test]
fn token_missing_a_claim_is_invalid() {
    let svc = TokenService::new("k", 3600, 86400);
    let mut claims = serde_json::Map::new();
    claims.insert("sub".to_string(), serde_json::Value::from("usr_x"));
    claims.insert("exp".to_string(), serde_json::Value::from(chrono_now_ms() / 1000 + 600));
    let key = jsonwebtoken::EncodingKey::from_secret("k".as_bytes());
    let token = jsonwebtoken::encode(&jsonwebtoken::Header::default(), &claims, &key).unwrap();
    assert!(matches!(svc.verify_token(&token), Err(IdentityError::TokenInvalid)));
}

#[test]
fn login_refusals() {
    let mut mgr = make_manager();
    assert!(matches!(mgr.login("nobody@example.com", "pw", None, None), Err(IdentityError::UserNotFound)));
    let u = mgr.register("erin".to_string(), "erin@example.com".to_string(), "pw".to_string()).unwrap();
    assert!(u.id.starts_with("usr_") && u.id.len() == 36);
    assert!(u.is_active && !u.mfa_enabled);
    let uri = mgr.setup_mfa(&u.id).unwrap();
    assert!(uri.starts_with("otpauth://totp/"));
    assert!(matches!(mgr.login("erin@example.com", "pw", None, None), Err(IdentityError::MfaRequired)));
    assert!(matches!(
        mgr.login_with_mfa("erin@example.com", "pw", "000000", None, None).err().map(|e| e.message()),
        Some(_)
    ));
    mgr.disable_mfa(&u.id).unwrap();
    assert!(mgr.login("erin@example.com", "pw", None, None).is_ok());
    assert!(matches!(mgr.login_with_mfa("erin@example.com", "pw", "123456", None, None), Err(IdentityError::MfaCodeInvalid)));
    assert!(matches!(mgr.setup_mfa("usr_missing"), Err(IdentityError::UserNotFound)));
    assert!(matches!(mgr.disable_mfa("usr_missing"), Err(IdentityError::UserNotFound)));
}

#[test]
fn logout_and_logout_all() {
    let mut mgr = make_manager();
    let u = mgr.register("fred".to_string(), "fred@example.com".to_string(), "pw".to_string()).unwrap();
    let p1 = mgr.login("fred@example.com", "pw", Some("phone".to_string()), Some("10.0.0.1".to_string())).unwrap();
    assert_eq!(p1.token_type, "Bearer");
    assert_eq!(p1.expires_in, 3600);
    mgr.logout(&p1.refresh_token).unwrap();
    assert!(matches!(mgr.refresh(&p1.refresh_token), Err(IdentityError::TokenRevoked)));
    assert!(matches!(mgr.logout(&p1.refresh_token), Err(IdentityError::TokenInvalid)));
    let p2 = mgr.login("fred@example.com", "pw", None, None).unwrap();
    mgr.logout_all(&u.id);
    assert!(matches!(mgr.refresh(&p2.refresh_token), Err(IdentityError::TokenRevoked)));
    assert!(matches!(mgr.refresh("never-issued"), Err(IdentityError::TokenInvalid)));
}

#[test]
fn lookups_and_oauth_registration() {
    let mut mgr = make_manager();
    let info = OAuthUserInfo {
        provider: AuthProvider::Google,
        sub: "g-1".to_string(),
        email: "gina@example.com".to_string(),
        display_name: "Gina".to_string(),
        avatar_url: None,
    };
    let u = mgr.register_oauth(info.clone()).unwrap();
    assert_eq!(u.username, "Gina");
    assert_eq!(u.display_name, "gina@example.com");
    assert_eq!(u.provider_sub.as_deref(), Some("g-1"));
    assert!(u.password_hash.is_none());
    let again = mgr.register_oauth(info).unwrap();
    assert_eq!(again.id, u.id);
    assert_eq!(mgr.get_user_by_email("gina@example.com").unwrap(), u.id);
    assert_eq!(mgr.get_user_by_id(&u.id).unwrap().email, "gina@example.com");
    assert!(matches!(mgr.get_user_by_email("x@example.com"), Err(IdentityError::UserNotFound)));
    assert!(matches!(mgr.get_user_by_id("usr_x"), Err(IdentityError::UserNotFound)));
    // an OAuth account has no password
    assert!(matches!(mgr.login("gina@example.com", "pw", None, None), Err(IdentityError::InvalidCredentials)));
    assert!(matches!(
        mgr.register("g".to_string(), "gina@example.com".to_string(), "pw".to_string()),
        Err(IdentityError::EmailAlreadyExists)
    ));
}

fn config() -> OAuthProviderConfig {
    OAuthProviderConfig {
        client_id: "my client".to_string(),
        client_secret: "s3cret".to_string(),
        redirect_uri: "https://app.example/cb".to_string(),
    }
}

#[test]
fn oauth_authorization_urls() {
    let url = authorization_url_with_state(&AuthProvider::Discord, &config(), "st").unwrap();
    assert_eq!(
        url,
        "https://discord.com/api/oauth2/authorize?client_id=my%20client&redirect_uri=https%3A%2F%2Fapp.example%2Fcb&response_type=code&scope=identify%20email&state=st"
    );
    let g = authorization_url(&AuthProvider::Google, &config()).unwrap();
    assert!(g.starts_with("https://accounts.google.com/o/oauth2/v2/auth?client_id=my%20client&"));
    assert!(g.contains("&scope=openid%20email%20profile&state="));
    assert_eq!(g.len() - g.rfind("&state=").unwrap() - 7, 36);
    match authorization_url(&AuthProvider::Steam, &config()) {
        Err(IdentityError::Internal(m)) => assert_eq!(m, "unsupported OAuth provider"),
        _ => panic!("steam has no browser flow"),
    }
    assert!(authorization_url(&AuthProvider::Local, &config()).is_err());
}

#[test]
fn oauth_exchange_pieces() {
    let (t, u) = oauth_exchange_endpoints(&AuthProvider::Discord).unwrap();
    assert_eq!(t, "https://discord.com/api/oauth2/token");
    assert_eq!(u, "https://discord.com/api/users/@me");
    assert!(oauth_exchange_endpoints(&AuthProvider::Apple).is_err());
    let form = token_request_form(&config(), "abc");
    assert_eq!(form[2], ("code".to_string(), "abc".to_string()));
    assert_eq!(form[3].1, "authorization_code");
    assert!(matches!(require_access_token(None), Err(IdentityError::Internal(_))));
    assert_eq!(require_access_token(Some("t".to_string())).unwrap(), "t");
    let info = user_info_from_profile(
        AuthProvider::Discord,
        None,
        Some("42".to_string()),
        Some("d@example.com".to_string()),
        None,
        Some("dee".to_string()),
        None,
        Some("av.png".to_string()),
    );
    assert_eq!(info.sub, "42");
    assert_eq!(info.display_name, "dee");
    assert_eq!(info.avatar_url.as_deref(), Some("av.png"));
    let bare = user_info_from_profile(AuthProvider::Google, None, None, Some("e@x".to_string()), None, None, None, None);
    assert_eq!(bare.sub, "");
    assert_eq!(bare.display_name, "e@x");
}
