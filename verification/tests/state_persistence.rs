use draox_plugins::state_persistence::{PersistedPluginState, StatePersistence};

fn make_state(plugin_id: &str, state: &str) -> PersistedPluginState {
    PersistedPluginState {
        plugin_id: plugin_id.to_string(),
        state: state.to_string(),
        config: Vec::new(),
        saved_at: 0,
    }
}

#[test]
fn save_one_inserts_then_updates() {
    let sp = StatePersistence::new("data/plugin_states.json".to_string());
    assert_eq!(sp.path(), "data/plugin_states.json");
    let all = sp.save_one(Vec::new(), make_state("io.draox.a", "Installed"));
    let all = sp.save_one(all, make_state("io.draox.b", "ActiveEnabled"));
    assert_eq!(all.len(), 2);
    let all = sp.save_one(all, make_state("io.draox.a", "ActiveEnabled"));
    assert_eq!(all.len(), 2);
    assert_eq!(all[0].plugin_id, "io.draox.a");
    assert_eq!(all[0].state, "ActiveEnabled");
    assert_eq!(all[1].plugin_id, "io.draox.b");
}

#[test]
fn remove_plugin_state() {
    let sp = StatePersistence::new("states.json".to_string());
    let all = vec![make_state("io.draox.a", "ActiveEnabled"), make_state("io.draox.b", "Installed")];
    let kept = sp.remove(all, "io.draox.a").expect("a record was removed");
    assert_eq!(kept.len(), 1);
    assert_eq!(kept[0].plugin_id, "io.draox.b");
    assert!(sp.remove(kept, "io.draox.zzz").is_none());
}
