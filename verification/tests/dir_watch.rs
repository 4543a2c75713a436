use draox_plugins::dir_watch::{is_dxp_path, plugin_file_event, FsChange};
use draox_plugins::host_types::PluginFileEvent;

#[test]
fn dxp_paths() {
    assert!(is_dxp_path("/plugins/test-plugin.dxp"));
    assert!(is_dxp_path("relative/name.DXP"));
    assert!(is_dxp_path("a.b.Dxp"));
    assert!(is_dxp_path("/plugins/x.dxp/"));
    assert!(!is_dxp_path("/plugins/readme.txt"));
    assert!(!is_dxp_path("/plugins/.dxp"));
    assert!(!is_dxp_path("/plugins/dxp"));
    assert!(!is_dxp_path("/plugins.dxp/file"));
    assert!(!is_dxp_path("x.dxpp"));
    assert!(!is_dxp_path(""));
}

#[test]
fn test_non_dxp_files_ignored() {
    assert!(plugin_file_event("/tmp/notes.txt".to_string(), FsChange::Create).is_none());
    assert!(plugin_file_event("/tmp/p.dxp".to_string(), FsChange::Other).is_none());
}

#[test]
fn dxp_changes_become_events() {
    match plugin_file_event("/tmp/test-plugin.dxp".to_string(), FsChange::Create) {
        Some(PluginFileEvent::Created(p)) => assert_eq!(p, "/tmp/test-plugin.dxp"),
        _ => panic!("expected a created event"),
    }
    assert!(matches!(plugin_file_event("/tmp/a.dxp".to_string(), FsChange::Modify), Some(PluginFileEvent::Modified(_))));
    assert!(matches!(plugin_file_event("/tmp/a.dxp".to_string(), FsChange::Remove), Some(PluginFileEvent::Removed(_))));
}
