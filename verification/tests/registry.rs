use draox_plugins::lifecycle::{HostError, PluginState};
use draox_plugins::registry::{
    activation_timed_out, restart_allowed, select_ws_target, PluginRegistry, RestartTracker, RestartWindow,
};

fn registry_with(ids: &[(&str, &str)]) -> PluginRegistry {
    let mut registry = PluginRegistry::new();
    for (id, name) in ids {
        registry.register_builtin(id.to_string(), name.to_string(), "1.0.0".to_string()).unwrap();
    }
    registry
}

fn activate(registry: &mut PluginRegistry, id: &str) {
    registry.begin_activate(id).unwrap();
    registry.finish_activate(id);
}

fn plugin_message(e: HostError) -> (String, String) {
    match e {
        HostError::Plugin { plugin_id, message } => (plugin_id, message),
        other => panic!("unexpected error {:?}", other),
    }
}

#[test]
fn test_register_builtin() {
    let registry = registry_with(&[("io.draox.test", "Test")]);
    assert_eq!(registry.count(), 1);
    let state = registry.get_state("io.draox.test").unwrap();
    assert_eq!(state, PluginState::Installed);
}

#[test]
fn test_duplicate_register_fails() {
    let mut registry = registry_with(&[("io.draox.test", "Test")]);
    let dup = registry.register_builtin("io.draox.test".to_string(), "Test Dup".to_string(), "1.0.0".to_string());
    assert!(dup.is_err());
    let (plugin, message) = plugin_message(dup.unwrap_err());
    assert_eq!(plugin, "io.draox.test");
    assert_eq!(message, "plugin already registered");
}

#[test]
fn test_activate_plugin() {
    let mut registry = registry_with(&[("io.draox.test", "Test")]);
    activate(&mut registry, "io.draox.test");
    assert_eq!(registry.get_state("io.draox.test").unwrap(), PluginState::ActiveEnabled);
    assert!(registry.get_info("io.draox.test").unwrap().activated_at.is_some());
}

#[test]
fn test_full_lifecycle() {
    let mut registry = registry_with(&[("io.draox.test", "Test")]);
    let id = "io.draox.test";

    activate(&mut registry, id);
    assert_eq!(registry.get_state(id).unwrap(), PluginState::ActiveEnabled);

    registry.begin_disable(id).unwrap();
    registry.finish_disable(id);
    assert_eq!(registry.get_state(id).unwrap(), PluginState::ActiveDisabled);

    registry.begin_enable(id).unwrap();
    registry.finish_enable(id);
    assert_eq!(registry.get_state(id).unwrap(), PluginState::ActiveEnabled);

    registry.begin_deactivate(id).unwrap();
    registry.finish_deactivate(id);
    assert_eq!(registry.get_state(id).unwrap(), PluginState::Installed);
    assert!(registry.get_info(id).unwrap().activated_at.is_none());
}

#[test]
fn test_invalid_transition() {
    let registry = registry_with(&[("io.draox.test", "Test")]);
    // Can't disable an installed plugin
    let e = registry.begin_disable("io.draox.test").unwrap_err();
    assert_eq!(plugin_message(e).1, "disable requires ActiveEnabled state, got Installed");
    // Can't enable an installed plugin
    let e = registry.begin_enable("io.draox.test").unwrap_err();
    assert_eq!(plugin_message(e).1, "enable requires ActiveDisabled state, got Installed");
    // Nor deactivate it
    let e = registry.begin_deactivate("io.draox.test").unwrap_err();
    assert_eq!(plugin_message(e).1, "invalid state transition: Installed → Installed");
}

#[test]
fn test_get_info() {
    let registry = registry_with(&[("io.draox.test", "Test")]);
    let info = registry.get_info("io.draox.test").unwrap();
    assert_eq!(info.name, "Test");
    assert_eq!(info.version, "1.0.0");
    assert_eq!(info.state, PluginState::Installed);
    assert!(matches!(registry.get_info("io.draox.none"), Err(HostError::PluginNotFound(id)) if id == "io.draox.none"));
}

#[test]
fn test_deactivate_all() {
    let mut registry = registry_with(&[("io.draox.p1", "P1"), ("io.draox.p2", "P2"), ("io.draox.p3", "P3")]);
    activate(&mut registry, "io.draox.p1");
    activate(&mut registry, "io.draox.p2");

    let active = registry.active_ids();
    assert_eq!(active, vec!["io.draox.p1".to_string(), "io.draox.p2".to_string()]);
    for id in &active {
        registry.begin_deactivate(id).unwrap();
        registry.finish_deactivate(id);
    }
    assert_eq!(registry.get_state("io.draox.p1").unwrap(), PluginState::Installed);
    assert_eq!(registry.get_state("io.draox.p2").unwrap(), PluginState::Installed);
    assert!(registry.active_ids().is_empty());
}

#[test]
fn test_list_plugins() {
    let registry = registry_with(&[("io.draox.a", "A"), ("io.draox.b", "B")]);
    let list = registry.list();
    assert_eq!(list.len(), 2);
    assert_eq!(list[0].id, "io.draox.a");
    assert_eq!(list[1].id, "io.draox.b");
    assert_eq!(list[0].name, "");
}

#[test]
fn test_restart_plugin() {
    let mut registry = registry_with(&[("io.draox.test", "Test")]);
    activate(&mut registry, "io.draox.test");
    registry.begin_restart("io.draox.test").unwrap();
    registry.begin_deactivate("io.draox.test").unwrap();
    registry.finish_deactivate("io.draox.test");
    activate(&mut registry, "io.draox.test");
    assert_eq!(registry.get_state("io.draox.test").unwrap(), PluginState::ActiveEnabled);
}

#[test]
fn test_restart_inactive_fails() {
    let registry = registry_with(&[("io.draox.test", "Test")]);
    let e = registry.begin_restart("io.draox.test").unwrap_err();
    assert_eq!(plugin_message(e).1, "cannot restart: plugin is not active");
}

#[test]
fn test_unregister_plugin() {
    let mut registry = registry_with(&[("io.draox.test", "Test")]);
    assert_eq!(registry.count(), 1);
    registry.unregister("io.draox.test").unwrap();
    assert_eq!(registry.count(), 0);
    assert!(registry.get_state("io.draox.test").is_err());
}

#[test]
fn test_unregister_active_fails() {
    let mut registry = registry_with(&[("io.draox.test", "Test")]);
    activate(&mut registry, "io.draox.test");
    let result = registry.unregister("io.draox.test");
    assert!(result.is_err());
    assert_eq!(
        plugin_message(result.unwrap_err()).1,
        "cannot unregister: plugin is still active, deactivate first"
    );
    assert_eq!(registry.count(), 1);
}

#[test]
fn test_restart_with_policy_succeeds_first_time() {
    let mut tracker = RestartTracker::new();
    let now = 1_000_000_000u64;
    let cooldown = 60_000_000_000u64;
    let w = tracker.open_window("io.draox.test", now, cooldown);
    assert_eq!(w, RestartWindow { attempts_in_window: 0, last_attempt: None, total: 0 });
    assert!(restart_allowed(&w, 3, now, 0));
    tracker.record_restart("io.draox.test", now, w.total);
    assert_eq!(tracker.restart_count("io.draox.test"), 1);
}

#[test]
fn test_restart_with_policy_max_attempts_blocked() {
    let mut tracker = RestartTracker::new();
    let hour = 3_600_000_000_000u64;
    let w1 = tracker.open_window("p", 10, hour);
    assert!(restart_allowed(&w1, 1, 10, 0));
    tracker.record_restart("p", 10, w1.total);
    let w2 = tracker.open_window("p", 20, hour);
    assert_eq!(w2.attempts_in_window, 1);
    assert!(!restart_allowed(&w2, 1, 20, 0));
}

#[test]
fn test_restart_with_policy_backoff_blocked() {
    let mut tracker = RestartTracker::new();
    let hour = 3_600_000_000_000u64;
    let w1 = tracker.open_window("p", 10, hour);
    assert!(restart_allowed(&w1, 5, 10, hour));
    tracker.record_restart("p", 10, w1.total);
    // the second attempt needs cooldown * 2^1 = two hours after the first
    let w2 = tracker.open_window("p", 20, hour);
    assert_eq!(w2.last_attempt, Some(10));
    assert!(!restart_allowed(&w2, 5, 20, 2 * hour));
    assert!(restart_allowed(&w2, 5, 10 + 2 * hour, 2 * hour));
}

#[test]
fn restart_window_forgets_old_attempts() {
    let mut tracker = RestartTracker::new();
    for t in [100u64, 200, 300] {
        let w = tracker.open_window("p", t, 1_000);
        tracker.record_restart("p", t, w.total);
    }
    let w = tracker.open_window("p", 1_250, 1_000);
    assert_eq!(w.attempts_in_window, 1);
    assert_eq!(w.last_attempt, Some(300));
    assert_eq!(w.total, 3);
    assert_eq!(tracker.restart_count("p"), 3);
    assert_eq!(tracker.restart_count("other"), 0);
}

#[test]
fn ws_target_prefers_longest_then_first_prefix() {
    let candidates = vec![
        ("io.a".to_string(), "chat.".to_string()),
        ("io.b".to_string(), "chat.room.".to_string()),
        ("io.c".to_string(), "chat.room.".to_string()),
        ("io.d".to_string(), "game.".to_string()),
    ];
    assert_eq!(select_ws_target("chat.room.join", &candidates).unwrap(), "io.b");
    assert_eq!(select_ws_target("chat.send", &candidates).unwrap(), "io.a");
    let e = select_ws_target("clans.list", &candidates).unwrap_err();
    let (plugin, message) = plugin_message(e);
    assert_eq!(plugin, "unknown");
    assert_eq!(message, "no active plugin handles action: clans.list");
}

#[test]
fn activation_timeout_message() {
    match activation_timed_out("io.draox.slow", 5000) {
        HostError::PluginActivation { plugin_id, reason } => {
            assert_eq!(plugin_id, "io.draox.slow");
            assert_eq!(reason, "activation timed out after 5000ms");
        }
        other => panic!("unexpected {:?}", other),
    }
}
