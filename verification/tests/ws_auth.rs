use draox_plugins::ws_auth::ws_claims_from_decoded;
use draox_plugins::credentials::claims_from_decoded;
use draox_plugins::identity::IdentityError;
use draox_plugins::credentials::TokenService;
use draox_plugins::lifecycle::HostError;
use draox_plugins::ws_auth::{build_identity, validate_ws_jwt, Identity, PluginWsDispatcher, SessionAuth, WsRoute};

fn ws_token(secret: &str, sub: &str, role: &str, exp: i64) -> String {
    let mut claims = serde_json::Map::new();
    claims.insert("sub".to_string(), serde_json::Value::from(sub));
    claims.insert("role".to_string(), serde_json::Value::from(role));
    claims.insert("exp".to_string(), serde_json::Value::from(exp));
    let key = jsonwebtoken::EncodingKey::from_secret(secret.as_bytes());
    jsonwebtoken::encode(&jsonwebtoken::Header::default(), &claims, &key).unwrap()
}

fn now_secs() -> i64 {
    chrono::Utc::now().timestamp()
}

#[test]
fn identity_of_sessions() {
    assert_eq!(build_identity(None), Identity::Anonymous);
    let a = SessionAuth { user_id: "u1".to_string(), roles: vec![] };
    assert_eq!(build_identity(Some(&a)), Identity::User { user_id: "u1".to_string(), role: "viewer".to_string() });
    let b = SessionAuth { user_id: "u2".to_string(), roles: vec!["admin".to_string(), "x".to_string()] };
    assert_eq!(build_identity(Some(&b)), Identity::User { user_id: "u2".to_string(), role: "admin".to_string() });
}

#[test]
fn anonymous_actions_refused_when_required() {
    let d = PluginWsDispatcher::new_with_auth("s".to_string(), true);
    assert!(matches!(d.route("auth", None), Ok(WsRoute::Auth)));
    match d.route("messaging.send", None) {
        Err(HostError::Unauthorized(m)) => assert_eq!(m, "role 'anonymous' only allows 'auth' and 'ping'"),
        _ => panic!("anonymous action must be refused"),
    }
    let a = SessionAuth { user_id: "u".to_string(), roles: vec!["member".to_string()] };
    assert!(matches!(d.route("messaging.send", Some(&a)), Ok(WsRoute::Plugin(Identity::User { .. }))));
    let open = PluginWsDispatcher::new();
    assert!(matches!(open.route("messaging.send", None), Ok(WsRoute::Plugin(Identity::Anonymous))));
}

#[test]
fn auth_action_outcomes() {
    let none = PluginWsDispatcher::new();
    assert!(matches!(none.authenticate(Some("t"), Some("s".to_string())), Err(HostError::Config(_))));
    let d = PluginWsDispatcher::new_with_auth("secret".to_string(), true);
    assert!(matches!(d.authenticate(None, Some("s".to_string())), Err(HostError::AuthFailed(m)) if m == "missing 'token' in auth payload"));
    assert!(matches!(d.authenticate(Some("garbage"), Some("s".to_string())), Err(HostError::AuthFailed(_))));
    let t = ws_token("secret", "alice", "admin", now_secs() + 600);
    assert!(matches!(d.authenticate(Some(&t), None), Err(HostError::SessionNotFound(_))));
    let (sid, info) = d.authenticate_at(Some(&t), Some("sess-1".to_string()), 42).unwrap();
    assert_eq!(sid, "sess-1");
    assert_eq!(info.user_id, "alice");
    assert_eq!(info.roles, vec!["admin".to_string()]);
    assert_eq!(info.authenticated_at, 42);
    assert_eq!(info.token_hash.len(), 64);
    let expired = ws_token("secret", "alice", "admin", 1);
    assert!(matches!(d.authenticate(Some(&expired), Some("s".to_string())), Err(HostError::AuthFailed(_))));
    let other = ws_token("other", "alice", "admin", now_secs() + 600);
    assert!(matches!(d.authenticate(Some(&other), Some("s".to_string())), Err(HostError::AuthFailed(_))));
}

#[test]
fn ws_token_validation() {
    assert_eq!(validate_ws_jwt("x", "").unwrap_err(), "no JWT secret configured");
    let t = ws_token("k", "bob", "viewer", now_secs() + 60);
    let c = validate_ws_jwt(&t, "k").unwrap();
    assert_eq!(c.sub, "bob");
    assert_eq!(c.role, "viewer");
    // an identity access token has no role claim
    let svc = TokenService::new("k", 3600, 86400);
    let access = svc.issue_access_token_at("usr_1", now_secs() * 1000, "j".to_string()).unwrap();
    assert!(validate_ws_jwt(&access, "k").is_err());
}

#[test]
fn ws_claims_follow_the_decoded_fields() {
    let ok = ws_claims_from_decoded(Ok((Some("bob".to_string()), None, None, Some("mod".to_string()), Some(5), None))).unwrap();
    assert_eq!(ok.sub, "bob");
    assert_eq!(ok.role, "mod");
    assert_eq!(ok.exp, 5);
    let neg = ws_claims_from_decoded(Ok((Some("bob".to_string()), None, None, Some("mod".to_string()), Some(-1), None)));
    assert_eq!(neg.unwrap_err(), "missing or mistyped claim (sub, role, exp)");
    let no_role = ws_claims_from_decoded(Ok((Some("bob".to_string()), None, None, None, Some(5), None)));
    assert!(no_role.is_err());
    assert_eq!(ws_claims_from_decoded(Err((true, "ExpiredSignature".to_string()))).unwrap_err(), "ExpiredSignature");
}

#[test]
fn token_claims_follow_the_decoded_fields() {
    let c = claims_from_decoded(Ok((Some("u".to_string()), Some("j".to_string()), Some("access".to_string()), None, Some(20), Some(10)))).unwrap();
    assert_eq!((c.sub.as_str(), c.jti.as_str(), c.token_type.as_str(), c.exp, c.iat), ("u", "j", "access", 20, 10));
    assert!(matches!(claims_from_decoded(Err((true, String::new()))), Err(IdentityError::TokenExpired)));
    assert!(matches!(claims_from_decoded(Err((false, String::new()))), Err(IdentityError::TokenInvalid)));
    assert!(matches!(claims_from_decoded(Ok((Some("u".to_string()), None, Some("access".to_string()), None, Some(20), Some(10)))), Err(IdentityError::TokenInvalid)));
}

#[test]
fn issuing_a_token_never_fails_and_is_deterministic() {
    let svc = TokenService::new("test-secret-key", 3600, 86400);
    let t = svc.issue_access_token_at("usr_1", 1_700_000_000_000, "jti-1".to_string()).unwrap();
    let payload = t.split('.').nth(1).unwrap().to_string();
    assert!(!payload.is_empty());
    let claims = svc.verify_token(&t);
    // The token was issued long ago, so it is expired now.
    assert!(claims.is_err());
    let t2 = svc.issue_access_token_at("usr_1", 1_700_000_000_000, "jti-1".to_string()).unwrap();
    assert_eq!(t, t2);
}
