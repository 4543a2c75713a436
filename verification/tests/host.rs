use draox_plugins::host_types::{ConnectionError, NoopConnectionHandle, NoopRouterHandle, NoopSchedulerHandle};
use draox_plugins::lifecycle::{validate_transition, HostError, PluginState};
use draox_plugins::signature::SignatureVerifier;

#[test]
fn test_valid_transitions() {
    assert!(validate_transition(PluginState::Installed, PluginState::ActiveEnabled).is_ok());
    assert!(validate_transition(PluginState::ActiveEnabled, PluginState::ActiveDisabled).is_ok());
    assert!(validate_transition(PluginState::ActiveDisabled, PluginState::ActiveEnabled).is_ok());
    assert!(validate_transition(PluginState::ActiveEnabled, PluginState::Installed).is_ok());
    assert!(validate_transition(PluginState::ActiveDisabled, PluginState::Installed).is_ok());
    assert!(validate_transition(PluginState::Installed, PluginState::Uninstalled).is_ok());
    assert!(validate_transition(PluginState::ActiveEnabled, PluginState::Uninstalled).is_ok());
}

#[test]
fn test_invalid_transitions() {
    assert!(validate_transition(PluginState::Installed, PluginState::ActiveDisabled).is_err());
    assert!(validate_transition(PluginState::Uninstalled, PluginState::Installed).is_err());
    assert!(validate_transition(PluginState::Uninstalled, PluginState::ActiveEnabled).is_err());
    assert!(validate_transition(PluginState::ActiveEnabled, PluginState::ActiveEnabled).is_err());
}

#[test]
fn refused_transition_names_both_states() {
    match validate_transition(PluginState::Installed, PluginState::ActiveDisabled) {
        Err(HostError::Plugin { plugin_id, message }) => {
            assert_eq!(plugin_id, "");
            assert_eq!(message, "invalid state transition: Installed → ActiveDisabled");
        }
        other => panic!("transition should be refused: {:?}", other),
    }
}

#[test]
fn uninstalled_is_final() {
    for to in [PluginState::Installed, PluginState::ActiveEnabled, PluginState::ActiveDisabled] {
        assert!(validate_transition(PluginState::Uninstalled, to).is_err());
    }
    assert!(validate_transition(PluginState::Uninstalled, PluginState::Uninstalled).is_ok());
    assert!(validate_transition(PluginState::ActiveDisabled, PluginState::Uninstalled).is_ok());
    assert!(validate_transition(PluginState::ActiveEnabled, PluginState::ActiveEnabled).is_err());
}

#[test]
fn active_states() {
    assert!(PluginState::ActiveEnabled.is_active());
    assert!(PluginState::ActiveDisabled.is_active());
    assert!(!PluginState::Installed.is_active());
    assert!(!PluginState::Uninstalled.is_active());
}

#[test]
fn test_new_verifier_has_no_keys() {
    let verifier = SignatureVerifier::new();
    assert_eq!(verifier.trusted_key_count(), 0);
}

#[test]
fn test_verify_no_keys_returns_error() {
    let verifier = SignatureVerifier::new();
    let result = verifier.verify(b"data", &[0u8; 64]);
    assert!(result.is_err());
}

#[test]
fn test_verify_invalid_signature_length() {
    let mut verifier = SignatureVerifier::new();
    verifier.add_trusted_key(vec![0u8; 32]);
    let result = verifier.verify(b"data", b"short");
    assert!(result.is_err());
}

#[test]
fn test_verify_with_valid_key() {
    let mut verifier = SignatureVerifier::new();
    verifier.add_trusted_key(vec![1u8; 32]);
    let result = verifier.verify(b"data", &[0u8; 64]).unwrap();
    assert!(result);
}

#[test]
fn test_add_trusted_key() {
    let mut verifier = SignatureVerifier::new();
    verifier.add_trusted_key(vec![0u8; 32]);
    verifier.add_trusted_key(vec![1u8; 32]);
    assert_eq!(verifier.trusted_key_count(), 2);
}

#[test]
fn verify_error_messages() {
    let verifier = SignatureVerifier::new();
    match verifier.verify(b"data", &[0u8; 64]) {
        Err(HostError::Plugin { message, .. }) => assert_eq!(message, "no trusted keys configured"),
        other => panic!("unexpected {:?}", other),
    }
    let mut verifier = SignatureVerifier::new();
    verifier.add_trusted_key(vec![0u8; 32]);
    match verifier.verify(b"data", b"short") {
        Err(HostError::Plugin { message, .. }) => assert_eq!(message, "invalid signature length: 5 (expected 64)"),
        other => panic!("unexpected {:?}", other),
    }
}

#[test]
fn verify_without_usable_key_is_false() {
    let mut verifier = SignatureVerifier::new();
    verifier.add_trusted_key(vec![1u8; 16]);
    assert_eq!(verifier.verify(b"data", &[0u8; 64]).unwrap(), false);
}

#[test]
fn test_noop_connection_handle_count() {
    let handle = NoopConnectionHandle;
    assert_eq!(handle.connection_count(), 0);
}

#[test]
fn noop_connection_handle_refuses_sends() {
    let handle = NoopConnectionHandle;
    match handle.send_to_connection("conn-1", vec![1, 2]) {
        Err(ConnectionError::Connection(m)) => assert_eq!(m, "no connection layer available for conn-1"),
        Ok(()) => panic!("send should fail"),
    }
    match handle.send_to_session("s-9", vec![]) {
        Err(ConnectionError::Connection(m)) => assert_eq!(m, "no connection layer available for session s-9"),
        Ok(()) => panic!("send should fail"),
    }
    assert!(handle.disconnect("conn-1", "bye").is_err());
}

#[test]
fn test_noop_router_handle() {
    let handle = NoopRouterHandle;
    assert!(handle.register_route("GET", "/test", "handler1").is_ok());
    assert!(handle.unregister_route("/test").is_ok());
}

#[test]
fn test_noop_scheduler_handle() {
    let handle = NoopSchedulerHandle;
    assert!(handle.schedule_once(60, "task1").is_ok());
    assert!(handle.schedule_interval(30, "task2").is_ok());
    assert!(handle.cancel("task1").is_ok());
}
