use draox_plugins::lifecycle::HostError;
use draox_plugins::package::{DxpPackage, PluginLoader};
use draox_plugins::plugin_manifest::{
    messaging_manifest, ActivationEvent, PluginContributions, PluginManifest, PluginPermissions, WasmSection,
};

fn manifest(id: &str, name: &str, version: &str, plugin_type: &str) -> PluginManifest {
    PluginManifest {
        id: id.to_string(),
        name: name.to_string(),
        version: version.to_string(),
        author: "Test".to_string(),
        description: String::new(),
        plugin_type: plugin_type.to_string(),
        activation: ActivationEvent::OnStartup,
        min_server_version: None,
        dependencies: Vec::new(),
        contributions: PluginContributions { commands: vec![], routes: vec![], events: vec![], settings: vec![] },
        permissions: PluginPermissions {
            storage: false,
            cache: false,
            connections: false,
            events: false,
            scheduler: false,
            network: false,
            filesystem: false,
        },
        wasm: None,
    }
}

fn test_package() -> DxpPackage {
    DxpPackage::from_parsed_manifest(manifest("io.draox.test", "Test", "1.0.0", "builtin"))
}

#[test]
fn test_install_package() {
    let mut loader = PluginLoader::new(false);
    let pkg = test_package();
    let id = loader.install(pkg, b"{}").unwrap();
    assert_eq!(loader.installed_count(), 1);
    assert!(loader.get_package(&id).is_some());
}

#[test]
fn test_duplicate_install_fails() {
    let mut loader = PluginLoader::new(false);
    loader.install(test_package(), b"{}").unwrap();
    assert!(loader.install(test_package(), b"{}").is_err());
}

#[test]
fn test_uninstall() {
    let mut loader = PluginLoader::new(false);
    let id = loader.install(test_package(), b"{}").unwrap();
    loader.uninstall(&id).unwrap();
    assert_eq!(loader.installed_count(), 0);
}

#[test]
fn test_uninstall_not_found() {
    let mut loader = PluginLoader::new(false);
    let id = "io.draox.nonexistent".to_string();
    assert!(loader.uninstall(&id).is_err());
}

#[test]
fn test_require_signature_blocks_unsigned() {
    let mut loader = PluginLoader::new(true);
    let pkg = test_package();
    assert!(!pkg.is_signed());
    let result = loader.install(pkg, b"{}");
    assert!(result.is_err());
}

#[test]
fn test_list_installed() {
    let mut loader = PluginLoader::new(false);
    loader.install(test_package(), b"{}").unwrap();
    let pkg2 = DxpPackage::from_parsed_manifest(manifest("io.draox.other", "Other", "2.0.0", "builtin"));
    loader.install(pkg2, b"{}").unwrap();
    let list = loader.list_installed();
    assert_eq!(list.len(), 2);
}

#[test]
fn test_validate_builtin() {
    let pkg = DxpPackage::from_parsed_manifest(manifest("io.draox.test-pkg", "Test Package", "1.0.0", "builtin"));
    assert!(pkg.validate().is_ok());
}

#[test]
fn test_validate_wasm_missing_bytes() {
    let mut m = manifest("io.draox.wasm-pkg", "WASM Pkg", "1.0.0", "wasm");
    m.wasm = Some(WasmSection { module: "plugin.wasm".to_string() });
    let pkg = DxpPackage::from_parsed_manifest(m);
    assert!(pkg.validate().is_err());
}

#[test]
fn test_set_signature() {
    let mut pkg = DxpPackage::from_parsed_manifest(manifest("io.draox.test-pkg", "Test Package", "1.0.0", "builtin"));
    assert!(!pkg.is_signed());
    pkg.set_signature(vec![0u8; 64]);
    assert!(pkg.is_signed());
}

fn plugin_message(e: HostError) -> String {
    match e {
        HostError::Plugin { message, .. } => message,
        _ => panic!("expected a plugin error"),
    }
}

#[test]
fn signature_outcomes_when_required() {
    let mut loader = PluginLoader::new(true);
    let mut pkg = test_package();
    pkg.set_signature(vec![0u8; 64]);
    // no trusted key yet
    assert_eq!(
        plugin_message(loader.install(pkg.clone(), b"{}").unwrap_err()),
        "signature verification error: no trusted keys configured"
    );
    loader.add_trusted_key(vec![1u8; 31]);
    assert_eq!(plugin_message(loader.install(pkg.clone(), b"{}").unwrap_err()), "package signature verification failed");
    let mut short = test_package();
    short.set_signature(vec![0u8; 10]);
    assert_eq!(
        plugin_message(loader.install(short, b"{}").unwrap_err()),
        "signature verification error: invalid signature length: 10 (expected 64)"
    );
    loader.add_trusted_key(vec![2u8; 32]);
    assert_eq!(loader.install(pkg, b"{}").unwrap(), "io.draox.test");
    assert_eq!(plugin_message(loader.install(test_package(), b"{}").unwrap_err()), "plugin already installed");
    let unsigned = DxpPackage::from_parsed_manifest(manifest("io.draox.u", "U", "1.0.0", "builtin"));
    assert_eq!(
        plugin_message(loader.install(unsigned, b"{}").unwrap_err()),
        "package signature required but not provided"
    );
}

#[test]
fn wasm_package_with_module_installs() {
    let mut loader = PluginLoader::new(false);
    let mut pkg = DxpPackage::from_parsed_manifest(manifest("io.draox.w", "W", "1.0.0", "wasm"));
    assert!(pkg.is_wasm());
    assert_eq!(
        plugin_message(loader.install(pkg.clone(), b"{}").unwrap_err()),
        "WASM plugin package missing wasm module"
    );
    pkg.wasm_bytes = Some(vec![0, 97, 115, 109]);
    assert_eq!(loader.install(pkg, b"{}").unwrap(), "io.draox.w");
    assert_eq!(loader.get_package("io.draox.w").unwrap().plugin_id(), "io.draox.w");
    assert!(loader.get_package("io.draox.x").is_none());
}

#[test]
fn test_manifest_fields() {
    let manifest = messaging_manifest();

    assert_eq!(manifest.id, "io.draox.messaging");
    assert_eq!(manifest.name, "Messaging");
    assert_eq!(manifest.plugin_type, "builtin");
    assert_eq!(manifest.activation, ActivationEvent::OnStartup);
    assert!(manifest.wasm.is_none(), "builtin plugins have no wasm section");

    // Permissions
    assert!(manifest.permissions.storage);
    assert!(manifest.permissions.cache);
    assert!(manifest.permissions.connections);
    assert!(manifest.permissions.events);
    assert!(!manifest.permissions.network);
    assert!(!manifest.permissions.filesystem);

    // Contributions
    assert!(!manifest.contributions.commands.is_empty());
    assert!(!manifest.contributions.routes.is_empty());
    assert!(!manifest.contributions.events.is_empty());
    assert!(!manifest.contributions.settings.is_empty());

    // All declared events must be namespaced under "messaging."
    for event in &manifest.contributions.events {
        assert!(
            event.starts_with("messaging."),
            "event '{}' should be namespaced under 'messaging.'",
            event
        );
    }
}

#[test]
fn messaging_manifest_tables() {
    let m = messaging_manifest();
    assert_eq!(m.contributions.commands.len(), 5);
    assert_eq!(m.contributions.routes[5].path, "/api/channels/{id}/messages");
    assert_eq!(m.contributions.events.len(), 11);
    assert_eq!(m.contributions.settings[0].default.as_deref(), Some("100000"));
    assert_eq!(m.min_server_version.as_deref(), Some("0.1.0"));
    assert!(!m.permissions.scheduler);
}
