//! Plugin lifecycle states and the rules for moving between them.
use vstd::prelude::*;
use crate::text::push_str;

verus! {

/// Lifecycle state of a plugin.
#[derive(Debug, Clone, Copy, PartialEq, Eq, Structural)]
pub enum PluginState {
    /// Installed on disk but not running.
    Installed,
    /// Running and enabled.
    ActiveEnabled,
    /// Running but disabled.
    ActiveDisabled,
    /// Removed from the server.
    Uninstalled,
}

/// Errors raised by the plugin host.
#[derive(Debug, Clone)]
pub enum HostError {
    /// A plugin operation failed.
    Plugin { plugin_id: String, message: String },
    /// No plugin with this id is registered.
    PluginNotFound(String),
    /// A plugin failed to activate.
    PluginActivation { plugin_id: String, reason: String },
    /// The server is not configured for the request.
    Config(String),
    /// Authentication failed.
    AuthFailed(String),
    /// No session is bound to the connection.
    SessionNotFound(String),
    /// The caller may not do this.
    Unauthorized(String),
}

/// `e` is a plugin error with no plugin id and the message `msg`.
pub open spec fn anonymous_plugin_error(e: HostError, msg: Seq<char>) -> bool {
    match e {
        HostError::Plugin { plugin_id, message } => plugin_id@ == Seq::<char>::empty() && message@ == msg,
        _ => false,
    }
}

/// The transitions the host accepts:
/// activate, disable, enable, deactivate, and uninstall from any state.
pub open spec fn transition_allowed(from: PluginState, to: PluginState) -> bool {
    match (from, to) {
        (PluginState::Installed, PluginState::ActiveEnabled) => true,
        (PluginState::ActiveEnabled, PluginState::ActiveDisabled) => true,
        (PluginState::ActiveDisabled, PluginState::ActiveEnabled) => true,
        (PluginState::ActiveEnabled, PluginState::Installed) => true,
        (PluginState::ActiveDisabled, PluginState::Installed) => true,
        (_, PluginState::Uninstalled) => true,
        _ => false,
    }
}

/// Name of a state as it appears in messages.
pub open spec fn state_name(s: PluginState) -> Seq<char> {
    match s {
        PluginState::Installed => "Installed"@,
        PluginState::ActiveEnabled => "ActiveEnabled"@,
        PluginState::ActiveDisabled => "ActiveDisabled"@,
        PluginState::Uninstalled => "Uninstalled"@,
    }
}

/// Message of a refused transition.
pub open spec fn transition_message(from: PluginState, to: PluginState) -> Seq<char> {
    "invalid state transition: "@ + state_name(from) + " → "@ + state_name(to)
}

impl PluginState {
    /// The state's name.
    pub fn name(&self) -> (s: &'static str)
        ensures
            s@ == state_name(*self),
    {
        match self {
            PluginState::Installed => "Installed",
            PluginState::ActiveEnabled => "ActiveEnabled",
            PluginState::ActiveDisabled => "ActiveDisabled",
            PluginState::Uninstalled => "Uninstalled",
        }
    }

    /// Whether the plugin is running (enabled or disabled).
    pub fn is_active(&self) -> (b: bool)
        ensures
            b <==> (*self == PluginState::ActiveEnabled || *self == PluginState::ActiveDisabled),
    {
        match self {
            PluginState::ActiveEnabled | PluginState::ActiveDisabled => true,
            _ => false,
        }
    }
}

/// Checks a lifecycle transition: `Ok` exactly for the allowed ones, otherwise
/// a plugin error with an empty plugin id and a message naming both states.
pub fn validate_transition(from: PluginState, to: PluginState) -> (r: Result<(), HostError>)
    ensures
        r is Ok <==> transition_allowed(from, to),
        r matches Err(e) ==> anonymous_plugin_error(e, transition_message(from, to)),
{
    let valid = match (from, to) {
        (PluginState::Installed, PluginState::ActiveEnabled) => true,
        (PluginState::ActiveEnabled, PluginState::ActiveDisabled) => true,
        (PluginState::ActiveDisabled, PluginState::ActiveEnabled) => true,
        (PluginState::ActiveEnabled, PluginState::Installed) => true,
        (PluginState::ActiveDisabled, PluginState::Installed) => true,
        (_, PluginState::Uninstalled) => true,
        _ => false,
    };
    if valid {
        Ok(())
    } else {
        let mut message = String::new();
        push_str(&mut message, "invalid state transition: ");
        push_str(&mut message, from.name());
        push_str(&mut message, " → ");
        push_str(&mut message, to.name());
        Err(HostError::Plugin { plugin_id: String::new(), message })
    }
}

/// Uninstalling is final: no transition leads from `Uninstalled` to
/// another state.
pub proof fn lemma_uninstalled_is_final(to: PluginState)
    requires
        to != PluginState::Uninstalled,
    ensures
        !transition_allowed(PluginState::Uninstalled, to),
{
}

/// Every state may be uninstalled directly.
pub proof fn lemma_uninstall_from_any_state(from: PluginState)
    ensures
        transition_allowed(from, PluginState::Uninstalled),
{
}

/// Apart from uninstalling, a transition never leads from a state to
/// itself.
pub proof fn lemma_no_self_transition(s: PluginState)
    requires
        s != PluginState::Uninstalled,
    ensures
        !transition_allowed(s, s),
{
}

/// A transition into a running state is an activation (`Installed →
/// ActiveEnabled`), an enable, or a disable.
pub proof fn lemma_activation_paths(from: PluginState, to: PluginState)
    requires
        transition_allowed(from, to),
        to == PluginState::ActiveEnabled || to == PluginState::ActiveDisabled,
    ensures
        (from == PluginState::Installed && to == PluginState::ActiveEnabled)
            || (from == PluginState::ActiveDisabled && to == PluginState::ActiveEnabled)
            || (from == PluginState::ActiveEnabled && to == PluginState::ActiveDisabled),
{
}

} // verus!
