use draox_plugins::identity::{access_token_from_response, encode, fingerprint, fingerprint_from_hash, user_info_from_response, AuthProvider, IdentityError, TokenPair};
use std::collections::HashMap;

#[test]
fn token_pair_is_bearer() {
    let t = TokenPair::new("a".to_string(), "r".to_string(), 900);
    assert_eq!(t.token_type, "Bearer");
    assert_eq!(t.access_token, "a");
    assert_eq!(t.refresh_token, "r");
    assert_eq!(t.expires_in, 900);
}

#[test]
fn url_encoding() {
    assert_eq!(encode("abc-XYZ_0.9~"), "abc-XYZ_0.9~");
    assert_eq!(encode("a b&c=d"), "a%20b%26c%3Dd");
    assert_eq!(encode("https://x.io/cb"), "https%3A%2F%2Fx.io%2Fcb");
    assert_eq!(encode("\n"), "%0A");
    assert_eq!(encode("é"), "é");
    assert_eq!(encode("€"), "%20AC");
    assert_eq!(encode(""), "");
}

#[test]
fn identity_error_messages() {
    assert_eq!(IdentityError::UserNotFound.message(), "user not found");
    assert_eq!(IdentityError::MfaCodeInvalid.message(), "MFA code invalid");
    assert_eq!(IdentityError::Internal("db down".to_string()).message(), "internal error: db down");
}

#[test]
fn test_fingerprint_deterministic() {
    let extra = HashMap::new();
    let fp1 = fingerprint(Some("Mozilla/5.0"), Some("192.168.1.1"), &extra);
    let fp2 = fingerprint(Some("Mozilla/5.0"), Some("192.168.1.1"), &extra);
    assert_eq!(fp1, fp2);
}

#[test]
fn test_fingerprint_differs_on_change() {
    let extra = HashMap::new();
    let fp1 = fingerprint(Some("Mozilla/5.0"), Some("192.168.1.1"), &extra);
    let fp2 = fingerprint(Some("Mozilla/5.0"), Some("10.0.0.1"), &extra);
    assert_ne!(fp1, fp2);
}

#[test]
fn fingerprint_shape_and_extra_order() {
    let mut a = HashMap::new();
    a.insert("screen".to_string(), "1920x1080".to_string());
    a.insert("lang".to_string(), "en".to_string());
    let mut b = HashMap::new();
    b.insert("lang".to_string(), "en".to_string());
    b.insert("screen".to_string(), "1920x1080".to_string());
    let fa = fingerprint(None, Some("1.2.3.4"), &a);
    assert_eq!(fa, fingerprint(None, Some("1.2.3.4"), &b));
    assert!(fa.starts_with("dev_"));
    assert_eq!(fa.len(), 20);
    assert!(fa[4..].chars().all(|c| c.is_ascii_hexdigit() && !c.is_ascii_uppercase()));
}

#[test]
fn fingerprint_text_of_hash() {
    assert_eq!(fingerprint_from_hash(0xabc), "dev_0000000000000abc");
    assert_eq!(fingerprint_from_hash(u64::MAX), "dev_ffffffffffffffff");
}

use draox_plugins::mfa::TotpService;

#[test]
fn test_generate_secret_not_empty() {
    let secret = TotpService::generate_secret();
    assert!(!secret.is_empty());
}

#[test]
fn test_provisioning_uri_format() {
    let secret = TotpService::generate_secret();
    let uri = TotpService::provisioning_uri(&secret, "user@example.com", "Draox").unwrap();
    assert!(uri.starts_with("otpauth://totp/"));
}

#[test]
fn totp_rejects_bad_secrets_and_names() {
    match TotpService::provisioning_uri("not base32!", "user", "Draox") {
        Err(IdentityError::Internal(m)) => assert_eq!(m, "Could not decode base32 secret."),
        other => panic!("unexpected {:?}", other),
    }
    // 8 bytes is below the 128-bit minimum.
    assert!(TotpService::provisioning_uri("JBSWY3DPEHPK3PXP", "user", "Draox").is_err());
    let secret = TotpService::generate_secret();
    assert!(TotpService::provisioning_uri(&secret, "a:b", "Draox").is_err());
    assert!(TotpService::provisioning_uri(&secret, "user", "Dra:ox").is_err());
    assert!(TotpService::verify_code(&secret, "000000", "user", "Draox").is_ok());
}

#[test]
fn generated_secret_gives_provisioning_uri() {
    let secret = TotpService::generate_secret();
    let uri = TotpService::provisioning_uri(&secret, "user@example.com", "Draox").unwrap();
    assert!(uri.starts_with("otpauth://totp/"));
}

#[test]
fn totp_codes_checked_at_a_given_time() {
    // RFC 6238 SHA-1 secret "12345678901234567890" in base32.
    let secret = "GEZDGNBVGY3TQOJQGEZDGNBVGY3TQOJQ";
    assert!(matches!(TotpService::verify_code_at(secret, "287082", "user", "Draox", 59), Ok(true)));
    assert!(matches!(TotpService::verify_code_at(secret, "081804", "user", "Draox", 1111111109), Ok(true)));
    assert!(matches!(TotpService::verify_code_at(secret, "081805", "user", "Draox", 1111111109), Ok(false)));
    assert!(matches!(TotpService::verify_code_at("not base32!", "000000", "user", "Draox", 59), Err(IdentityError::Internal(_))));
}

#[test]
fn provisioning_uri_names_issuer_and_account() {
    let secret = "GEZDGNBVGY3TQOJQGEZDGNBVGY3TQOJQ";
    let uri = TotpService::provisioning_uri(secret, "user@example.com", "Draox").unwrap();
    assert_eq!(uri, "otpauth://totp/Draox:user%40example.com?secret=GEZDGNBVGY3TQOJQGEZDGNBVGY3TQOJQ&issuer=Draox");
}

#[test]
fn access_token_read_from_token_response() {
    assert_eq!(access_token_from_response(br#"{"access_token":"abc","token_type":"Bearer"}"#).unwrap(), "abc");
    match access_token_from_response(br#"{"token_type":"Bearer"}"#) {
        Err(IdentityError::Internal(m)) => assert_eq!(m, "missing access_token"),
        other => panic!("unexpected {:?}", other),
    }
    assert!(matches!(access_token_from_response(br#"{"access_token":7}"#), Err(IdentityError::Internal(_))));
    assert!(matches!(access_token_from_response(b"not json"), Err(IdentityError::Internal(_))));
}

#[test]
fn user_info_read_with_fallbacks() {
    let google = user_info_from_response(
        AuthProvider::Google,
        br#"{"sub":"g-1","email":"a@b.c","name":"Ann","picture":"https://p/1.png"}"#,
    )
    .unwrap();
    assert_eq!(google.sub, "g-1");
    assert_eq!(google.email, "a@b.c");
    assert_eq!(google.display_name, "Ann");
    assert_eq!(google.avatar_url.as_deref(), Some("https://p/1.png"));
    let discord = user_info_from_response(AuthProvider::Discord, br#"{"id":"d-9","username":"dd","avatar":"h"}"#).unwrap();
    assert_eq!(discord.sub, "d-9");
    assert_eq!(discord.email, "");
    assert_eq!(discord.display_name, "dd");
    assert_eq!(discord.avatar_url.as_deref(), Some("h"));
    let bare = user_info_from_response(AuthProvider::Google, br#"{"email":"x@y.z"}"#).unwrap();
    assert_eq!(bare.sub, "");
    assert_eq!(bare.display_name, "x@y.z");
    assert!(bare.avatar_url.is_none());
    assert!(user_info_from_response(AuthProvider::Google, b"[").is_err());
}
