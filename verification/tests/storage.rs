use draox_plugins::storage::{BackendCacheHandle, InMemoryStorageHandle};

#[test]
fn storage_set_get_delete() {
    let mut s = InMemoryStorageHandle::new("test.plugin".to_string());
    assert_eq!(s.scoped_key("key1"), "test.plugin:key1");
    s.set("key1", "{\"name\":\"test\"}".to_string());
    assert_eq!(s.get("key1").as_deref(), Some("{\"name\":\"test\"}"));
    assert!(s.get("nope").is_none());
    s.set("key1", "2".to_string());
    assert_eq!(s.get("key1").as_deref(), Some("2"));
    assert!(s.delete("key1"));
    assert!(!s.delete("key1"));
    assert!(s.get("key1").is_none());
}

#[test]
fn storage_list_keys_by_prefix() {
    let mut s = InMemoryStorageHandle::new("p".to_string());
    s.set("users:alice", "1".to_string());
    s.set("users:bob", "2".to_string());
    s.set("settings:theme", "\"dark\"".to_string());
    let users = s.list_keys("users:");
    assert_eq!(users, vec!["users:alice".to_string(), "users:bob".to_string()]);
    assert_eq!(s.list_keys("").len(), 3);
    assert!(s.list_keys("zzz").is_empty());
}

#[test]
fn cache_keys_are_scoped() {
    let c = BackendCacheHandle::new("io.draox.test".to_string());
    assert_eq!(c.scoped_key("k"), "plugin:io.draox.test:k");
}

#[test]
fn issued_now_tokens_verify() {
    let svc = draox_plugins::credentials::TokenService::new("s", 60, 120);
    let a = svc.issue_access_token("usr_1").unwrap();
    let r = svc.issue_refresh_token("usr_1").unwrap();
    let ca = svc.verify_token(&a).unwrap();
    let cr = svc.verify_token(&r).unwrap();
    assert_eq!(ca.token_type, "access");
    assert_eq!(cr.token_type, "refresh");
    assert_eq!(cr.exp - cr.iat, 120);
    assert_ne!(ca.jti, cr.jti);
}
