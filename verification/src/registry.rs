//! The plugin registry: registered plugins and their lifecycle states, the
//! checks made before each lifecycle call into a plugin and the
//! bookkeeping after it, the choice of the plugin that handles a WebSocket
//! action, and the history kept by the restart policy.
use vstd::prelude::*;
use crate::keyed::{
    distinct_idents, entry_for, find_in, find_key, lemma_entry_at, lemma_entry_none, lemma_entry_push, lemma_entry_set,
    lemma_position_at, lemma_push_new, lemma_remove_at, lemma_update_same_ident, position_in, unique_keys, Identified,
};
use crate::lifecycle::{anonymous_plugin_error, state_name, transition_allowed, transition_message, validate_transition, HostError, PluginState};
use crate::messaging_types::now_millis;
use crate::text::{chars_has_prefix, chars_of, has_prefix, push_str, str_equal};
use crate::version::{dec_str, push_decimal};

verus! {

/// Summary of a registered plugin. Times are milliseconds since the Unix
/// epoch.
#[derive(Debug, Clone)]
pub struct PluginInfo {
    pub id: String,
    pub name: String,
    pub version: String,
    pub state: PluginState,
    pub registered_at: i64,
    pub activated_at: Option<i64>,
}

impl Identified for PluginInfo {
    open spec fn ident(&self) -> Seq<char> {
        self.id@
    }
}

impl PluginInfo {
    /// A copy of the summary.
    pub fn duplicate(&self) -> (r: Self)
        ensures
            r == *self,
    {
        PluginInfo {
            id: self.id.clone(),
            name: self.name.clone(),
            version: self.version.clone(),
            state: self.state,
            registered_at: self.registered_at,
            activated_at: self.activated_at,
        }
    }
}

/// `e` is a plugin error of plugin `id` with message `msg`.
pub open spec fn plugin_error(e: HostError, id: Seq<char>, msg: Seq<char>) -> bool {
    match e {
        HostError::Plugin { plugin_id, message } => plugin_id@ == id && message@ == msg,
        _ => false,
    }
}

/// `e` says that no plugin `id` is registered.
pub open spec fn not_found(e: HostError, id: Seq<char>) -> bool {
    match e {
        HostError::PluginNotFound(i) => i@ == id,
        _ => false,
    }
}

fn plugin_err(id: &str, message: &str) -> (e: HostError)
    ensures
        plugin_error(e, id@, message@),
{
    HostError::Plugin { plugin_id: id.to_string(), message: message.to_string() }
}

/// The activation error raised when a plugin does not finish activating
/// within `timeout_ms` milliseconds.
pub fn activation_timed_out(id: &str, timeout_ms: u64) -> (e: HostError)
    ensures
        e matches HostError::PluginActivation { plugin_id, reason } && plugin_id@ == id@
            && reason@ == "activation timed out after "@ + dec_str(timeout_ms as nat) + "ms"@,
{
    let mut reason = String::new();
    push_str(&mut reason, "activation timed out after ");
    push_decimal(&mut reason, timeout_ms);
    push_str(&mut reason, "ms");
    HostError::PluginActivation { plugin_id: id.to_string(), reason }
}

/// Whether a plugin in state `s` is running.
pub open spec fn is_running(s: PluginState) -> bool {
    s == PluginState::ActiveEnabled || s == PluginState::ActiveDisabled
}

/// Ids of the running plugins of `s`, in order.
pub open spec fn running_ids(s: Seq<PluginInfo>) -> Seq<Seq<char>>
    decreases s.len(),
{
    if s.len() == 0 {
        Seq::empty()
    } else {
        let r = running_ids(s.drop_last());
        if is_running(s.last().state) { r.push(s.last().id@) } else { r }
    }
}

/// The running ids are exactly the ids of the plugins that are enabled or
/// disabled but still active; installed and uninstalled plugins are not
/// listed.
pub proof fn lemma_running_ids_members(s: Seq<PluginInfo>, id: Seq<char>)
    ensures
        running_ids(s).contains(id) <==> exists|k: int| 0 <= k < s.len() && (#[trigger] s[k]).id@ == id
            && (s[k].state == PluginState::ActiveEnabled || s[k].state == PluginState::ActiveDisabled),
    decreases s.len(),
{
    if s.len() > 0 {
        let init = s.drop_last();
        lemma_running_ids_members(init, id);
        let r = running_ids(init);
        if running_ids(s).contains(id) {
            let j = choose|j: int| 0 <= j < running_ids(s).len() && running_ids(s)[j] == id;
            if j < r.len() {
                assert(running_ids(s)[j] == r[j]);
                assert(r.contains(id));
                let k = choose|k: int| 0 <= k < init.len() && (#[trigger] init[k]).id@ == id
                    && (init[k].state == PluginState::ActiveEnabled || init[k].state == PluginState::ActiveDisabled);
                assert(s[k] == init[k]);
            } else {
                assert(s[s.len() - 1] == s.last());
            }
        }
        if exists|k: int| 0 <= k < s.len() && (#[trigger] s[k]).id@ == id
            && (s[k].state == PluginState::ActiveEnabled || s[k].state == PluginState::ActiveDisabled) {
            let k = choose|k: int| 0 <= k < s.len() && (#[trigger] s[k]).id@ == id
                && (s[k].state == PluginState::ActiveEnabled || s[k].state == PluginState::ActiveDisabled);
            if k < s.len() - 1 {
                assert(init[k] == s[k]);
                assert(r.contains(id));
                let j = choose|j: int| 0 <= j < r.len() && r[j] == id;
                assert(running_ids(s)[j] == r[j]);
            } else {
                assert(running_ids(s)[r.len() as int] == id);
            }
        }
    }
}

/// Registry of the plugins known to the host.
pub struct PluginRegistry {
    plugins: Vec<PluginInfo>,
}

impl PluginRegistry {
    /// The registered plugins, in registration order.
    pub closed spec fn entries(self) -> Seq<PluginInfo> {
        self.plugins@
    }

    /// The registry's invariant: no id is registered twice.
    pub closed spec fn wf(self) -> bool {
        distinct_idents(self.plugins@)
    }

    /// The plugin registered under `id`, if any.
    pub open spec fn entry(self, id: Seq<char>) -> Option<PluginInfo> {
        find_in(self.entries(), id)
    }

    /// A well-formed registry holds each id once.
    pub proof fn lemma_wf(self)
        requires
            self.wf(),
        ensures
            distinct_idents(self.entries()),
    {
    }

    /// An empty registry.
    pub fn new() -> (r: Self)
        ensures
            r.wf(),
            r.entries().len() == 0,
    {
        PluginRegistry { plugins: Vec::new() }
    }

    fn find(&self, id: &str) -> (r: Option<usize>)
        requires
            self.wf(),
        ensures
            r is None ==> self.entry(id@) is None,
            r matches Some(i) ==> i < self.entries().len() && self.entries()[i as int].id@ == id@ && position_in(self.entries(), id@) == Some(i as int),
    {
        let mut i: usize = 0;
        while i < self.plugins.len()
            invariant
                self.wf(),
                i <= self.plugins@.len(),
                forall|k: int| 0 <= k < i ==> (#[trigger] self.plugins@[k]).id@ != id@,
            decreases self.plugins.len() - i,
        {
            if str_equal(self.plugins[i].id.as_str(), id) {
                proof {
                    lemma_position_at(self.plugins@, i as int);
                }
                return Some(i);
            }
            i = i + 1;
        }
        None
    }

    /// Registers a built-in plugin, installed at `now`; fails when the id
    /// is taken.
    pub fn register_builtin_at(&mut self, id: String, name: String, version: String, now: i64) -> (r: Result<(), HostError>)
        requires
            old(self).wf(),
        ensures
            final(self).wf(),
            r is Err <==> old(self).entry(id@) is Some,
            r matches Err(e) ==> plugin_error(e, id@, "plugin already registered"@) && *final(self) == *old(self),
            r is Ok ==> final(self).entries() == old(self).entries().push(
                PluginInfo { id, name, version, state: PluginState::Installed, registered_at: now, activated_at: None },
            ),
    {
        match self.find(id.as_str()) {
            Some(_) => Err(plugin_err(id.as_str(), "plugin already registered")),
            None => {
                let info = PluginInfo { id, name, version, state: PluginState::Installed, registered_at: now, activated_at: None };
                let ghost g = info;
                let ghost before = self.plugins@;
                self.plugins.push(info);
                proof {
                    lemma_push_new(before, g);
                }
                Ok(())
            },
        }
    }

    /// Registers a built-in plugin, installed now; fails when the id is
    /// taken.
    pub fn register_builtin(&mut self, id: String, name: String, version: String) -> (r: Result<(), HostError>)
        requires
            old(self).wf(),
        ensures
            final(self).wf(),
            r is Err <==> old(self).entry(id@) is Some,
            r matches Err(e) ==> plugin_error(e, id@, "plugin already registered"@) && *final(self) == *old(self),
            r is Ok ==> final(self).entries() == old(self).entries().push(
                PluginInfo {
                    id,
                    name,
                    version,
                    state: PluginState::Installed,
                    registered_at: final(self).entries().last().registered_at,
                    activated_at: None,
                },
            ),
    {
        let now = now_millis();
        self.register_builtin_at(id, name, version, now)
    }

    /// The state of plugin `id`; fails when it is not registered.
    pub fn get_state(&self, id: &str) -> (r: Result<PluginState, HostError>)
        requires
            self.wf(),
        ensures
            r is Ok <==> self.entry(id@) is Some,
            r matches Ok(s) ==> s == self.entry(id@)->Some_0.state,
            r matches Err(e) ==> not_found(e, id@),
    {
        match self.find(id) {
            Some(i) => Ok(self.plugins[i].state),
            None => Err(HostError::PluginNotFound(id.to_string())),
        }
    }

    /// Checks, before the plugin is called, that plugin `id` may move to
    /// `to`.
    fn check_transition(&self, id: &str, to: PluginState) -> (r: Result<(), HostError>)
        requires
            self.wf(),
        ensures
            match self.entry(id@) {
                None => r matches Err(e) && not_found(e, id@),
                Some(p) => (r is Ok <==> transition_allowed(p.state, to)) && (r matches Err(e) ==> anonymous_plugin_error(
                    e,
                    transition_message(p.state, to),
                )),
            },
    {
        let current = self.get_state(id)?;
        validate_transition(current, to)
    }

    /// Checks that plugin `id` may move to `ActiveEnabled` by activation
    /// (from `Installed`, or from `ActiveDisabled`).
    pub fn begin_activate(&self, id: &str) -> (r: Result<(), HostError>)
        requires
            self.wf(),
        ensures
            match self.entry(id@) {
                None => r matches Err(e) && not_found(e, id@),
                Some(p) => (r is Ok <==> (p.state == PluginState::Installed || p.state == PluginState::ActiveDisabled)) && (r matches Err(e) ==> anonymous_plugin_error(
                    e,
                    transition_message(p.state, PluginState::ActiveEnabled),
                )),
            },
    {
        self.check_transition(id, PluginState::ActiveEnabled)
    }

    /// Checks that plugin `id` may be deactivated (from a running state to
    /// `Installed`).
    pub fn begin_deactivate(&self, id: &str) -> (r: Result<(), HostError>)
        requires
            self.wf(),
        ensures
            match self.entry(id@) {
                None => r matches Err(e) && not_found(e, id@),
                Some(p) => (r is Ok <==> is_running(p.state)) && (r matches Err(e) ==> anonymous_plugin_error(
                    e,
                    transition_message(p.state, PluginState::Installed),
                )),
            },
    {
        self.check_transition(id, PluginState::Installed)
    }

    /// Checks that plugin `id` may be enabled: it must be disabled.
    pub fn begin_enable(&self, id: &str) -> (r: Result<(), HostError>)
        requires
            self.wf(),
        ensures
            match self.entry(id@) {
                None => r matches Err(e) && not_found(e, id@),
                Some(p) => (r is Ok <==> p.state == PluginState::ActiveDisabled) && (r matches Err(e) ==> plugin_error(
                    e,
                    id@,
                    "enable requires ActiveDisabled state, got "@ + state_name(p.state),
                )),
            },
    {
        let current = self.get_state(id)?;
        if current != PluginState::ActiveDisabled {
            let mut message = String::new();
            push_str(&mut message, "enable requires ActiveDisabled state, got ");
            push_str(&mut message, current.name());
            return Err(HostError::Plugin { plugin_id: id.to_string(), message });
        }
        validate_transition(current, PluginState::ActiveEnabled)
    }

    /// Checks that plugin `id` may be disabled: it must be enabled.
    pub fn begin_disable(&self, id: &str) -> (r: Result<(), HostError>)
        requires
            self.wf(),
        ensures
            match self.entry(id@) {
                None => r matches Err(e) && not_found(e, id@),
                Some(p) => (r is Ok <==> p.state == PluginState::ActiveEnabled) && (r matches Err(e) ==> plugin_error(
                    e,
                    id@,
                    "disable requires ActiveEnabled state, got "@ + state_name(p.state),
                )),
            },
    {
        let current = self.get_state(id)?;
        if current != PluginState::ActiveEnabled {
            let mut message = String::new();
            push_str(&mut message, "disable requires ActiveEnabled state, got ");
            push_str(&mut message, current.name());
            return Err(HostError::Plugin { plugin_id: id.to_string(), message });
        }
        validate_transition(current, PluginState::ActiveDisabled)
    }

    /// Checks that plugin `id` may be restarted: it must be running.
    pub fn begin_restart(&self, id: &str) -> (r: Result<(), HostError>)
        requires
            self.wf(),
        ensures
            match self.entry(id@) {
                None => r matches Err(e) && not_found(e, id@),
                Some(p) => (r is Ok <==> is_running(p.state)) && (r matches Err(e) ==> plugin_error(
                    e,
                    id@,
                    "cannot restart: plugin is not active"@,
                )),
            },
    {
        let current = self.get_state(id)?;
        if !current.is_active() {
            return Err(plugin_err(id, "cannot restart: plugin is not active"));
        }
        Ok(())
    }

    /// Replaces the summary at position `i` (same id).
    fn set_entry(&mut self, i: usize, info: PluginInfo)
        requires
            old(self).wf(),
            i < old(self).entries().len(),
            info.id@ == old(self).entries()[i as int].id@,
        ensures
            final(self).wf(),
            final(self).entries() == old(self).entries().update(i as int, info),
    {
        let ghost before = self.plugins@;
        let ghost g = info;
        self.plugins.set(i, info);
        proof {
            lemma_update_same_ident(before, i as int, g);
        }
    }

    /// Records that plugin `id` was activated at `now`.
    pub fn finish_activate_at(&mut self, id: &str, now: i64)
        requires
            old(self).wf(),
        ensures
            final(self).wf(),
            final(self).entries() == match position_in(old(self).entries(), id@) {
                Some(k) => old(self).entries().update(
                    k,
                    PluginInfo { state: PluginState::ActiveEnabled, activated_at: Some(now), ..old(self).entries()[k] },
                ),
                None => old(self).entries(),
            },
    {
        if let Some(i) = self.find(id) {
            let mut info = self.plugins[i].duplicate();
            info.state = PluginState::ActiveEnabled;
            info.activated_at = Some(now);
            self.set_entry(i, info);
        }
    }

    /// Records that plugin `id` was activated now.
    pub fn finish_activate(&mut self, id: &str)
        requires
            old(self).wf(),
        ensures
            final(self).wf(),
            match position_in(old(self).entries(), id@) {
                Some(k) => {
                    &&& final(self).entries()[k].activated_at is Some
                    &&& final(self).entries() == old(self).entries().update(
                        k,
                        PluginInfo {
                            state: PluginState::ActiveEnabled,
                            activated_at: final(self).entries()[k].activated_at,
                            ..old(self).entries()[k]
                        },
                    )
                },
                None => final(self).entries() == old(self).entries(),
            },
    {
        let now = now_millis();
        self.finish_activate_at(id, now);
    }

    /// Records that plugin `id` was deactivated.
    pub fn finish_deactivate(&mut self, id: &str)
        requires
            old(self).wf(),
        ensures
            final(self).wf(),
            final(self).entries() == match position_in(old(self).entries(), id@) {
                Some(k) => old(self).entries().update(
                    k,
                    PluginInfo { state: PluginState::Installed, activated_at: None, ..old(self).entries()[k] },
                ),
                None => old(self).entries(),
            },
    {
        if let Some(i) = self.find(id) {
            let mut info = self.plugins[i].duplicate();
            info.state = PluginState::Installed;
            info.activated_at = None;
            self.set_entry(i, info);
        }
    }

    /// Records that plugin `id` moved to `state` (used after enabling and
    /// disabling).
    fn finish_state(&mut self, id: &str, state: PluginState)
        requires
            old(self).wf(),
        ensures
            final(self).wf(),
            final(self).entries() == match position_in(old(self).entries(), id@) {
                Some(k) => old(self).entries().update(k, PluginInfo { state, ..old(self).entries()[k] }),
                None => old(self).entries(),
            },
    {
        if let Some(i) = self.find(id) {
            let mut info = self.plugins[i].duplicate();
            info.state = state;
            self.set_entry(i, info);
        }
    }

    /// Records that plugin `id` was enabled.
    pub fn finish_enable(&mut self, id: &str)
        requires
            old(self).wf(),
        ensures
            final(self).wf(),
            final(self).entries() == match position_in(old(self).entries(), id@) {
                Some(k) => old(self).entries().update(k, PluginInfo { state: PluginState::ActiveEnabled, ..old(self).entries()[k] }),
                None => old(self).entries(),
            },
    {
        self.finish_state(id, PluginState::ActiveEnabled);
    }

    /// Records that plugin `id` was disabled.
    pub fn finish_disable(&mut self, id: &str)
        requires
            old(self).wf(),
        ensures
            final(self).wf(),
            final(self).entries() == match position_in(old(self).entries(), id@) {
                Some(k) => old(self).entries().update(k, PluginInfo { state: PluginState::ActiveDisabled, ..old(self).entries()[k] }),
                None => old(self).entries(),
            },
    {
        self.finish_state(id, PluginState::ActiveDisabled);
    }

    /// Summaries of all plugins, in registration order, without name and
    /// version (which only the plugin itself reports).
    pub fn list(&self) -> (r: Vec<PluginInfo>)
        ensures
            r@.len() == self.entries().len(),
            forall|k: int| 0 <= k < r@.len() ==> {
                let e = self.entries()[k];
                &&& (#[trigger] r@[k]).id == e.id
                &&& r@[k].name@.len() == 0
                &&& r@[k].version@.len() == 0
                &&& r@[k].state == e.state
                &&& r@[k].registered_at == e.registered_at
                &&& r@[k].activated_at == e.activated_at
            },
    {
        let mut out: Vec<PluginInfo> = Vec::new();
        let mut i: usize = 0;
        while i < self.plugins.len()
            invariant
                i <= self.plugins@.len(),
                out@.len() == i,
                forall|k: int| 0 <= k < i ==> {
                    let e = self.plugins@[k];
                    &&& (#[trigger] out@[k]).id == e.id
                    &&& out@[k].name@.len() == 0
                    &&& out@[k].version@.len() == 0
                    &&& out@[k].state == e.state
                    &&& out@[k].registered_at == e.registered_at
                    &&& out@[k].activated_at == e.activated_at
                },
            decreases self.plugins.len() - i,
        {
            let e = &self.plugins[i];
            out.push(PluginInfo {
                id: e.id.clone(),
                name: String::new(),
                version: String::new(),
                state: e.state,
                registered_at: e.registered_at,
                activated_at: e.activated_at,
            });
            i = i + 1;
        }
        out
    }

    /// The summary of plugin `id`; fails when it is not registered.
    pub fn get_info(&self, id: &str) -> (r: Result<PluginInfo, HostError>)
        requires
            self.wf(),
        ensures
            r is Ok <==> self.entry(id@) is Some,
            r matches Ok(info) ==> self.entry(id@) == Some(info),
            r matches Err(e) ==> not_found(e, id@),
    {
        match self.find(id) {
            Some(i) => Ok(self.plugins[i].duplicate()),
            None => Err(HostError::PluginNotFound(id.to_string())),
        }
    }

    /// Number of registered plugins.
    pub fn count(&self) -> (n: usize)
        ensures
            n == self.entries().len(),
    {
        self.plugins.len()
    }

    /// Removes plugin `id`; fails when it is not registered or still
    /// running.
    pub fn unregister(&mut self, id: &str) -> (r: Result<(), HostError>)
        requires
            old(self).wf(),
        ensures
            final(self).wf(),
            match old(self).entry(id@) {
                None => r matches Err(e) && not_found(e, id@) && *final(self) == *old(self),
                Some(p) => if is_running(p.state) {
                    r matches Err(e) && plugin_error(e, id@, "cannot unregister: plugin is still active, deactivate first"@)
                        && *final(self) == *old(self)
                } else {
                    &&& r is Ok
                    &&& final(self).entries() == old(self).entries().remove(position_in(old(self).entries(), id@)->Some_0)
                    &&& final(self).entry(id@) is None
                    &&& forall|u: Seq<char>| u != id@ ==> #[trigger] final(self).entry(u) == old(self).entry(u)
                },
            },
    {
        match self.find(id) {
            None => Err(HostError::PluginNotFound(id.to_string())),
            Some(i) => {
                if self.plugins[i].state.is_active() {
                    return Err(plugin_err(id, "cannot unregister: plugin is still active, deactivate first"));
                }
                let ghost before = self.plugins@;
                self.plugins.remove(i);
                proof {
                    lemma_remove_at(before, i as int);
                }
                Ok(())
            },
        }
    }

    /// Ids of the running plugins, in registration order.
    pub fn active_ids(&self) -> (r: Vec<String>)
        ensures
            r@.map_values(|s: String| s@) == running_ids(self.entries()),
    {
        let mut out: Vec<String> = Vec::new();
        let mut i: usize = 0;
        while i < self.plugins.len()
            invariant
                i <= self.plugins@.len(),
                out@.map_values(|s: String| s@) == running_ids(self.plugins@.take(i as int)),
            decreases self.plugins.len() - i,
        {
            proof {
                assert(self.plugins@.take(i + 1).drop_last() =~= self.plugins@.take(i as int));
                assert(self.plugins@.take(i + 1).last() == self.plugins@[i as int]);
            }
            if self.plugins[i].state.is_active() {
                let ghost ob = out@;
                out.push(self.plugins[i].id.clone());
                assert(out@.map_values(|s: String| s@) =~= ob.map_values(|s: String| s@).push(self.plugins@[i as int].id@));
            }
            i = i + 1;
        }
        assert(self.plugins@.take(self.plugins@.len() as int) =~= self.plugins@);
        out
    }
}

/// Candidate `k` claims `action`: its prefix starts the action.
pub open spec fn claims(action: Seq<char>, candidates: Seq<(String, String)>, k: int) -> bool {
    has_prefix(action, candidates[k].1@)
}

/// Candidate `k` is the handler of `action`: it claims the action with the
/// longest prefix, and is the first to do so with that length.
pub open spec fn is_handler(action: Seq<char>, candidates: Seq<(String, String)>, k: int) -> bool {
    &&& 0 <= k < candidates.len()
    &&& claims(action, candidates, k)
    &&& forall|j: int| 0 <= j < candidates.len() && claims(action, candidates, j) ==> (#[trigger] candidates[j]).1@.len() <= candidates[k].1@.len()
    &&& forall|j: int| 0 <= j < k && claims(action, candidates, j) ==> (#[trigger] candidates[j]).1@.len() < candidates[k].1@.len()
}

/// Picks the plugin that handles a WebSocket action among `candidates`, the
/// running plugins with an action prefix as `(plugin id, prefix)` in
/// registry order: the longest prefix that starts the action wins, the
/// first one on a tie. Fails when no prefix starts the action.
pub fn select_ws_target(action: &str, candidates: &Vec<(String, String)>) -> (r: Result<String, HostError>)
    ensures
        r is Ok <==> exists|k: int| 0 <= k < candidates@.len() && claims(action@, candidates@, k),
        r matches Ok(id) ==> exists|k: int| is_handler(action@, candidates@, k) && id == candidates@[k].0,
        r matches Err(e) ==> plugin_error(e, "unknown"@, "no active plugin handles action: "@ + action@),
{
    let a = chars_of(action);
    let mut best: Option<usize> = None;
    let mut i: usize = 0;
    while i < candidates.len()
        invariant
            i <= candidates@.len(),
            a@ == action@,
            best is None ==> forall|j: int| 0 <= j < i ==> !claims(action@, candidates@, j),
            best matches Some(b) ==> b < i && claims(action@, candidates@, b as int)
                && (forall|j: int| 0 <= j < i && claims(action@, candidates@, j) ==> (#[trigger] candidates@[j]).1@.len() <= candidates@[b as int].1@.len())
                && (forall|j: int| 0 <= j < b && claims(action@, candidates@, j) ==> (#[trigger] candidates@[j]).1@.len() < candidates@[b as int].1@.len()),
        decreases candidates.len() - i,
    {
        let p = chars_of(candidates[i].1.as_str());
        if chars_has_prefix(&a, &p) {
            let better = match best {
                None => true,
                Some(b) => candidates[i].1.unicode_len() > candidates[b].1.unicode_len(),
            };
            if better {
                best = Some(i);
            }
        }
        i = i + 1;
    }
    match best {
        Some(b) => {
            assert(is_handler(action@, candidates@, b as int));
            Ok(candidates[b].0.clone())
        },
        None => {
            let mut message = String::new();
            push_str(&mut message, "no active plugin handles action: ");
            push_str(&mut message, action);
            Err(HostError::Plugin { plugin_id: "unknown".to_string(), message })
        },
    }
}

/// Restart history of one plugin: when it was restarted (nanoseconds on a
/// monotonic clock), and how many restarts there were in all.
#[derive(Debug, Clone)]
pub struct RestartHistory {
    pub attempts: Vec<u64>,
    pub total_restarts: u32,
}

/// What the restart policy reads of a plugin's history at one moment.
#[derive(Debug, Clone, Copy, PartialEq, Eq)]
pub struct RestartWindow {
    /// Restarts within the cooldown window.
    pub attempts_in_window: u32,
    /// The latest of them, if any.
    pub last_attempt: Option<u64>,
    /// Restarts ever recorded.
    pub total: u32,
}

/// Time from `t` to `now`; zero when `t` is later.
pub open spec fn elapsed(now: u64, t: u64) -> nat {
    if now >= t { (now - t) as nat } else { 0 }
}

/// The attempts less than `cooldown` before `now`, in order.
pub open spec fn in_window(attempts: Seq<u64>, now: u64, cooldown: u64) -> Seq<u64>
    decreases attempts.len(),
{
    if attempts.len() == 0 {
        attempts
    } else {
        let r = in_window(attempts.drop_last(), now, cooldown);
        if elapsed(now, attempts.last()) < cooldown { r.push(attempts.last()) } else { r }
    }
}

/// Whether restarts were recorded in time order.
pub open spec fn in_time_order(attempts: Seq<u64>) -> bool {
    forall|i: int, j: int| 0 <= i <= j < attempts.len() ==> attempts[i] <= attempts[j]
}

/// The restart window holds exactly the recorded restarts that lie less
/// than `cooldown` before `now`, in the order they were recorded; when
/// they were recorded in time order, its last entry is the latest of them.
pub proof fn lemma_window_is_recent_restarts(attempts: Seq<u64>, now: u64, cooldown: u64)
    ensures
        in_window(attempts, now, cooldown) == attempts.filter(|t: u64| elapsed(now, t) < cooldown),
        forall|i: int| 0 <= i < in_window(attempts, now, cooldown).len() ==> attempts.contains(#[trigger] in_window(attempts, now, cooldown)[i]),
        in_time_order(attempts) ==> in_time_order(in_window(attempts, now, cooldown)),
        in_time_order(attempts) && in_window(attempts, now, cooldown).len() > 0 ==> forall|i: int|
            0 <= i < in_window(attempts, now, cooldown).len() ==> #[trigger] in_window(attempts, now, cooldown)[i] <= in_window(attempts, now, cooldown).last(),
    decreases attempts.len(),
{
    reveal(Seq::filter);
    let kept = in_window(attempts, now, cooldown);
    if attempts.len() > 0 {
        let init = attempts.drop_last();
        lemma_window_is_recent_restarts(init, now, cooldown);
        let before = in_window(init, now, cooldown);
        assert forall|i: int| 0 <= i < kept.len() implies attempts.contains(#[trigger] kept[i]) by {
            if i < before.len() {
                assert(init.contains(before[i]));
                let j = choose|j: int| 0 <= j < init.len() && init[j] == before[i];
                assert(attempts[j] == init[j]);
            } else {
                assert(attempts[attempts.len() - 1] == attempts.last());
            }
        }
        if in_time_order(attempts) {
            assert(in_time_order(init)) by {
                assert forall|i: int, j: int| 0 <= i <= j < init.len() implies init[i] <= init[j] by {
                    assert(init[i] == attempts[i] && init[j] == attempts[j]);
                }
            }
            assert forall|i: int| 0 <= i < before.len() implies #[trigger] before[i] <= attempts.last() by {
                assert(init.contains(before[i]));
                let j = choose|j: int| 0 <= j < init.len() && init[j] == before[i];
                assert(attempts[j] == init[j]);
                assert(attempts[attempts.len() - 1] == attempts.last());
            }
            assert forall|i: int, j: int| 0 <= i <= j < kept.len() implies kept[i] <= kept[j] by {
                if j < before.len() {
                } else {
                    assert(kept[j] == attempts.last());
                    if i < before.len() {
                        assert(kept[i] == before[i]);
                    }
                }
            }
        }
    }
}

/// The attempts of `attempts` kept in the window before `now`.
fn prune(attempts: &Vec<u64>, now: u64, cooldown: u64) -> (r: Vec<u64>)
    ensures
        r@ == in_window(attempts@, now, cooldown),
{
    let mut kept: Vec<u64> = Vec::new();
    let mut i: usize = 0;
    while i < attempts.len()
        invariant
            i <= attempts@.len(),
            kept@ == in_window(attempts@.take(i as int), now, cooldown),
        decreases attempts.len() - i,
    {
        proof {
            assert(attempts@.take(i + 1).drop_last() =~= attempts@.take(i as int));
            assert(attempts@.take(i + 1).last() == attempts@[i as int]);
        }
        let t = attempts[i];
        let since = if now >= t { now - t } else { 0 };
        if since < cooldown {
            kept.push(t);
        }
        i = i + 1;
    }
    assert(attempts@.take(attempts@.len() as int) =~= attempts@);
    kept
}

/// What a restart table holds: plugin id to its recorded restarts and its
/// restart count.
pub uninterp spec fn restart_table(m: dashmap::DashMap<String, RestartHistory>) -> Map<Seq<char>, (Seq<u64>, u32)>;

/// Calls `DashMap::new`. Claimed: the table is empty.
#[verifier::external_body]
fn histories_new() -> (r: dashmap::DashMap<String, RestartHistory>)
    ensures
        forall|k: Seq<char>| !restart_table(r).contains_key(k),
{
    dashmap::DashMap::new()
}

/// Calls `DashMap::get` and copies the history found. Claimed: the copy
/// is the entry of `key`, `None` when there is none.
#[verifier::external_body]
fn histories_get(m: &dashmap::DashMap<String, RestartHistory>, key: &str) -> (r: Option<(Vec<u64>, u32)>)
    ensures
        r is Some <==> restart_table(*m).contains_key(key@),
        r matches Some(h) ==> (h.0@, h.1) == restart_table(*m)[key@],
{
    m.get(key).map(|e| (e.value().attempts.clone(), e.value().total_restarts))
}

/// Calls `DashMap::insert` with an owned copy of `key` and a history of
/// the given restarts and count. Claimed: the entry of `key` becomes
/// those, the others stay.
#[verifier::external_body]
fn histories_insert(m: &mut dashmap::DashMap<String, RestartHistory>, key: &str, attempts: Vec<u64>, total: u32)
    ensures
        restart_table(*final(m)) == restart_table(*old(m)).insert(key@, (attempts@, total)),
{
    m.insert(key.to_string(), RestartHistory { attempts, total_restarts: total });
}

/// Restart histories of the plugins restarted through the policy.
pub struct RestartTracker {
    histories: dashmap::DashMap<String, RestartHistory>,
}

impl RestartTracker {
    /// Whether plugin `id` has a history.
    pub closed spec fn has_history(self, id: Seq<char>) -> bool {
        restart_table(self.histories).contains_key(id)
    }

    /// The recorded restarts of plugin `id` (none without a history).
    pub closed spec fn attempts_of(self, id: Seq<char>) -> Seq<u64> {
        if restart_table(self.histories).contains_key(id) {
            restart_table(self.histories)[id].0
        } else {
            Seq::empty()
        }
    }

    /// Restarts ever recorded for plugin `id`.
    pub closed spec fn total_of(self, id: Seq<char>) -> u32 {
        if restart_table(self.histories).contains_key(id) {
            restart_table(self.histories)[id].1
        } else {
            0
        }
    }

    /// A tracker with no history.
    pub fn new() -> (t: Self)
        ensures
            forall|id: Seq<char>| !(#[trigger] t.has_history(id)),
            forall|id: Seq<char>| #[trigger] t.attempts_of(id) == Seq::<u64>::empty(),
            forall|id: Seq<char>| #[trigger] t.total_of(id) == 0,
    {
        RestartTracker { histories: histories_new() }
    }

    /// Forgets the restarts of plugin `id` that are `cooldown` or more
    /// before `now` (starting its history if it has none), and reports what
    /// is left.
    pub fn open_window(&mut self, id: &str, now: u64, cooldown: u64) -> (w: RestartWindow)
        ensures
            ({
                let kept = in_window(old(self).attempts_of(id@), now, cooldown);
                &&& final(self).attempts_of(id@) == kept
                &&& w.attempts_in_window == kept.len() as u32
                &&& w.last_attempt == if kept.len() > 0 { Some(kept.last()) } else { None::<u64> }
            }),
            final(self).has_history(id@),
            final(self).total_of(id@) == old(self).total_of(id@),
            w.total == old(self).total_of(id@),
            forall|u: Seq<char>| u != id@ ==> #[trigger] final(self).has_history(u) == old(self).has_history(u),
            forall|u: Seq<char>| u != id@ ==> #[trigger] final(self).attempts_of(u) == old(self).attempts_of(u),
            forall|u: Seq<char>| u != id@ ==> #[trigger] final(self).total_of(u) == old(self).total_of(u),
    {
        match histories_get(&self.histories, id) {
            Some((attempts, total)) => {
                let kept = prune(&attempts, now, cooldown);
                let w = RestartWindow { attempts_in_window: kept_len(&kept), last_attempt: last_of(&kept), total };
                histories_insert(&mut self.histories, id, kept, total);
                w
            },
            None => {
                proof {
                    assert(in_window(Seq::<u64>::empty(), now, cooldown) =~= Seq::<u64>::empty());
                }
                histories_insert(&mut self.histories, id, Vec::new(), 0);
                RestartWindow { attempts_in_window: 0, last_attempt: None, total: 0 }
            },
        }
    }

    /// Records a restart of plugin `id` at `now`; `total` is the count the
    /// window reported, and the new count is one more.
    pub fn record_restart(&mut self, id: &str, now: u64, total: u32)
        requires
            total < u32::MAX,
        ensures
            final(self).has_history(id@),
            final(self).attempts_of(id@) == old(self).attempts_of(id@).push(now),
            final(self).total_of(id@) == total + 1,
            forall|u: Seq<char>| u != id@ ==> #[trigger] final(self).has_history(u) == old(self).has_history(u),
            forall|u: Seq<char>| u != id@ ==> #[trigger] final(self).attempts_of(u) == old(self).attempts_of(u),
            forall|u: Seq<char>| u != id@ ==> #[trigger] final(self).total_of(u) == old(self).total_of(u),
    {
        match histories_get(&self.histories, id) {
            Some((mut attempts, _)) => {
                attempts.push(now);
                histories_insert(&mut self.histories, id, attempts, total + 1);
            },
            None => {
                let attempts = vec![now];
                proof {
                    assert(attempts@ =~= Seq::<u64>::empty().push(now));
                }
                histories_insert(&mut self.histories, id, attempts, total + 1);
            },
        }
    }

    /// Restarts ever recorded for plugin `id` (0 without a history).
    pub fn restart_count(&self, id: &str) -> (n: u32)
        ensures
            n == self.total_of(id@),
    {
        match histories_get(&self.histories, id) {
            Some((_, total)) => total,
            None => 0,
        }
    }
}

#[verifier::truncate]
fn kept_len(v: &Vec<u64>) -> (n: u32)
    ensures
        n == v@.len() as u32,
{
    v.len() as u32
}

fn last_of(v: &Vec<u64>) -> (r: Option<u64>)
    ensures
        r == if v@.len() > 0 { Some(v@.last()) } else { None::<u64> },
{
    if v.len() > 0 {
        Some(v[v.len() - 1])
    } else {
        None
    }
}

/// The restart policy's decision: a restart may go ahead when fewer than
/// `max_attempts` restarts lie in the window and, after the latest of them,
/// at least `required_backoff` has passed.
pub fn restart_allowed(window: &RestartWindow, max_attempts: u32, now: u64, required_backoff: u64) -> (b: bool)
    ensures
        b == (window.attempts_in_window < max_attempts && match window.last_attempt {
            Some(t) => elapsed(now, t) >= required_backoff,
            None => true,
        }),
{
    if window.attempts_in_window >= max_attempts {
        return false;
    }
    match window.last_attempt {
        Some(t) => {
            let since = if now >= t { now - t } else { 0 };
            since >= required_backoff
        },
        None => true,
    }
}

} // verus!
