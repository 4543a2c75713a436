use draox_plugins::host_types::{PluginPermission, RouteDefinition};
use draox_plugins::permissions::PermissionEnforcer;
use draox_plugins::routes::RouteRegistry;

fn make_route(method: &str, path: &str, plugin_id: &str) -> RouteDefinition {
    RouteDefinition {
        method: method.to_string(),
        path: path.to_string(),
        plugin_id: plugin_id.to_string(),
        description: None,
    }
}

#[test]
fn test_register_and_find_route() {
    let mut rr = RouteRegistry::new();
    rr.register("io.draox.clans", make_route("GET", "/api/clans", "io.draox.clans")).unwrap();
    let found = rr.find_route("GET", "/api/clans").unwrap();
    assert_eq!(found.plugin_id, "io.draox.clans");
    assert_eq!(found.path, "/api/clans");
}

#[test]
fn test_conflict_detected_on_different_plugin() {
    let mut rr = RouteRegistry::new();
    rr.register("io.draox.a", make_route("POST", "/api/data", "io.draox.a")).unwrap();
    let result = rr.register("io.draox.b", make_route("POST", "/api/data", "io.draox.b"));
    assert!(result.is_err(), "should report conflict");
    let msg = result.unwrap_err();
    assert!(msg.contains("conflict"));
    assert_eq!(msg, "route conflict: POST /api/data is already owned by plugin 'io.draox.a'");
}

#[test]
fn test_unregister_route() {
    let mut rr = RouteRegistry::new();
    rr.register("io.draox.clans", make_route("GET", "/api/clans/{id}", "io.draox.clans")).unwrap();
    assert!(rr.has_conflict("GET", "/api/clans/{id}"));
    assert!(!rr.unregister("io.draox.other", "GET", "/api/clans/{id}"));
    let removed = rr.unregister("io.draox.clans", "GET", "/api/clans/{id}");
    assert!(removed);
    assert!(!rr.has_conflict("GET", "/api/clans/{id}"));
    assert!(rr.get_routes("io.draox.clans").is_empty());
}

#[test]
fn test_unregister_all_returns_count() {
    let mut rr = RouteRegistry::new();
    let pid = "io.draox.messaging";
    rr.register(pid, make_route("GET", "/api/messages", pid)).unwrap();
    rr.register(pid, make_route("POST", "/api/messages", pid)).unwrap();
    rr.register(pid, make_route("DELETE", "/api/messages/{id}", pid)).unwrap();
    let count = rr.unregister_all(pid);
    assert_eq!(count, 3);
    assert_eq!(rr.get_routes(pid).len(), 0);
    assert_eq!(rr.all_routes().len(), 0);
    assert_eq!(rr.unregister_all(pid), 0);
}

#[test]
fn test_get_routes_per_plugin() {
    let mut rr = RouteRegistry::new();
    rr.register("io.draox.a", make_route("GET", "/a/1", "io.draox.a")).unwrap();
    rr.register("io.draox.a", make_route("GET", "/a/2", "io.draox.a")).unwrap();
    rr.register("io.draox.b", make_route("GET", "/b/1", "io.draox.b")).unwrap();
    assert_eq!(rr.get_routes("io.draox.a").len(), 2);
    assert_eq!(rr.get_routes("io.draox.b").len(), 1);
    assert_eq!(rr.all_routes().len(), 3);
}

#[test]
fn test_method_case_normalization() {
    let mut rr = RouteRegistry::new();
    rr.register("io.draox.a", make_route("get", "/api/items", "io.draox.a")).unwrap();
    assert!(rr.find_route("GET", "/api/items").is_some());
    assert!(rr.has_conflict("GET", "/api/items"));
}

#[test]
fn test_same_plugin_re_register_is_ok() {
    let mut rr = RouteRegistry::new();
    let pid = "io.draox.a";
    rr.register(pid, make_route("GET", "/api/x", pid)).unwrap();
    let result = rr.register(pid, make_route("GET", "/api/x", pid));
    assert!(result.is_ok());
    assert_eq!(rr.all_routes().len(), 1);
}

fn enforcer_with_plugin(plugin_id: &str, perms: &[PluginPermission]) -> PermissionEnforcer {
    let mut enforcer = PermissionEnforcer::new();
    enforcer.grant(plugin_id, perms.to_vec());
    enforcer
}

#[test]
fn test_grant_and_check_permission() {
    let enforcer = enforcer_with_plugin("io.draox.clans", &[PluginPermission::Storage, PluginPermission::Events]);
    assert!(enforcer.check("io.draox.clans", &PluginPermission::Storage));
    assert!(enforcer.check("io.draox.clans", &PluginPermission::Events));
    assert!(!enforcer.check("io.draox.clans", &PluginPermission::Admin));
}

#[test]
fn test_check_unknown_plugin_returns_false() {
    let enforcer = PermissionEnforcer::new();
    assert!(!enforcer.check("unknown.plugin", &PluginPermission::Network));
}

#[test]
fn test_revoke_single_permission() {
    let mut enforcer = enforcer_with_plugin("io.draox.messaging", &[PluginPermission::Cache, PluginPermission::Network]);
    enforcer.revoke("io.draox.messaging", &PluginPermission::Network);
    assert!(enforcer.check("io.draox.messaging", &PluginPermission::Cache));
    assert!(!enforcer.check("io.draox.messaging", &PluginPermission::Network));
}

#[test]
fn test_revoke_all_removes_every_permission() {
    let mut enforcer = enforcer_with_plugin(
        "io.draox.clans",
        &[PluginPermission::Storage, PluginPermission::Cache, PluginPermission::Admin],
    );
    enforcer.revoke_all("io.draox.clans");
    assert!(!enforcer.check("io.draox.clans", &PluginPermission::Storage));
    assert!(!enforcer.check("io.draox.clans", &PluginPermission::Cache));
    assert!(!enforcer.check("io.draox.clans", &PluginPermission::Admin));
    assert!(enforcer.get_permissions("io.draox.clans").is_empty());
}

#[test]
fn test_get_permissions_returns_full_set() {
    let expected = vec![PluginPermission::Storage, PluginPermission::Scheduler, PluginPermission::Connections];
    let mut enforcer = PermissionEnforcer::new();
    enforcer.grant("io.draox.a", expected.clone());
    let got: std::collections::HashSet<PluginPermission> = enforcer.get_permissions("io.draox.a").into_iter().collect();
    let want: std::collections::HashSet<PluginPermission> = expected.into_iter().collect();
    assert_eq!(got, want);
}

#[test]
fn test_multiple_plugins_isolated() {
    let mut enforcer = PermissionEnforcer::new();
    enforcer.grant("io.draox.a", vec![PluginPermission::Admin]);
    enforcer.grant("io.draox.b", vec![PluginPermission::FileSystem]);
    assert!(!enforcer.check("io.draox.a", &PluginPermission::FileSystem));
    assert!(!enforcer.check("io.draox.b", &PluginPermission::Admin));
    assert!(enforcer.check("io.draox.a", &PluginPermission::Admin));
    assert!(enforcer.check("io.draox.b", &PluginPermission::FileSystem));
}

#[test]
fn re_registering_a_route_counts_it_once() {
    let mut rr = RouteRegistry::new();
    let pid = "io.draox.a";
    assert!(rr.register(pid, make_route("GET", "/api/x", pid)).is_ok());
    assert!(rr.register(pid, make_route("GET", "/api/x", pid)).is_ok());
    assert_eq!(rr.get_routes(pid).len(), 1);
    assert_eq!(rr.unregister_all(pid), 1);
    assert!(rr.all_routes().is_empty());
    assert!(rr.get_routes(pid).is_empty());
}
