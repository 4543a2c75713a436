//! Small data types of the plugin host: permissions, routes, package assets,
//! directory events, and the stand-in handles given to plugins when a
//! subsystem is absent.
use vstd::prelude::*;
use crate::lifecycle::HostError;

verus! {

/// A permission a plugin may request in its manifest.
#[derive(Debug, Clone, Copy, PartialEq, Eq, Hash, Structural)]
pub enum PluginPermission {
    /// Read/write to the server's data store.
    Storage,
    /// Access the shared cache layer.
    Cache,
    /// Inspect or manage client connections.
    Connections,
    /// Subscribe to and emit server events.
    Events,
    /// Make outbound network requests.
    Network,
    /// Read or write files on the host.
    FileSystem,
    /// Schedule recurring or deferred tasks.
    Scheduler,
    /// Call administrative endpoints.
    Admin,
}

/// An HTTP route contributed by a plugin.
#[derive(Debug, Clone)]
pub struct RouteDefinition {
    /// HTTP method (e.g. "GET").
    pub method: String,
    /// Route path, e.g. "/api/clans/{id}".
    pub path: String,
    /// Id of the plugin that owns the route.
    pub plugin_id: String,
    /// Description shown in documentation.
    pub description: Option<String>,
}

impl RouteDefinition {
    /// A copy of the definition.
    pub fn duplicate(&self) -> (r: Self)
        ensures
            r == *self,
    {
        RouteDefinition {
            method: self.method.clone(),
            path: self.path.clone(),
            plugin_id: self.plugin_id.clone(),
            description: match &self.description {
                Some(d) => Some(d.clone()),
                None => None,
            },
        }
    }
}

/// An asset file in a plugin package.
#[derive(Debug, Clone)]
pub struct PackageAsset {
    pub path: String,
    pub size: u64,
}

/// A change to a `.dxp` file in the watched plugins directory.
#[derive(Debug, Clone)]
pub enum PluginFileEvent {
    Created(String),
    Modified(String),
    Removed(String),
}

/// Connection handle for a host without a connection layer.
pub struct NoopConnectionHandle;

/// Error of every connection operation of [`NoopConnectionHandle`].
pub open spec fn no_connection_layer(what: Seq<char>) -> Seq<char> {
    "no connection layer available for "@ + what
}

/// Errors of the connection layer.
#[derive(Debug, Clone)]
pub enum ConnectionError {
    /// The connection operation failed.
    Connection(String),
}

impl NoopConnectionHandle {
    /// Sending to a connection always fails.
    pub fn send_to_connection(&self, connection_id: &str, data: Vec<u8>) -> (r: Result<(), ConnectionError>)
        ensures
            r matches Err(ConnectionError::Connection(m)) && m@ == no_connection_layer(connection_id@),
    {
        let mut m = String::new();
        crate::text::push_str(&mut m, "no connection layer available for ");
        crate::text::push_str(&mut m, connection_id);
        Err(ConnectionError::Connection(m))
    }

    /// Sending to a session always fails.
    pub fn send_to_session(&self, session_id: &str, data: Vec<u8>) -> (r: Result<(), ConnectionError>)
        ensures
            r matches Err(ConnectionError::Connection(m)) && m@ == no_connection_layer("session "@ + session_id@),
    {
        let mut m = String::new();
        crate::text::push_str(&mut m, "no connection layer available for session ");
        crate::text::push_str(&mut m, session_id);
        proof {
            assert(m@ =~= no_connection_layer("session "@ + session_id@)) by {
                reveal_strlit("no connection layer available for session ");
                reveal_strlit("no connection layer available for ");
                reveal_strlit("session ");
            }
        }
        Err(ConnectionError::Connection(m))
    }

    /// Disconnecting always fails.
    pub fn disconnect(&self, connection_id: &str, reason: &str) -> (r: Result<(), ConnectionError>)
        ensures
            r matches Err(ConnectionError::Connection(m)) && m@ == no_connection_layer(connection_id@),
    {
        self.send_to_connection(connection_id, Vec::new())
    }

    /// No connection is ever open.
    pub fn connection_count(&self) -> (n: usize)
        ensures
            n == 0,
    {
        0
    }
}

/// Router handle that accepts every registration and keeps none.
pub struct NoopRouterHandle;

impl NoopRouterHandle {
    /// Accepts the route.
    pub fn register_route(&self, method: &str, path: &str, handler_id: &str) -> (r: Result<(), HostError>)
        ensures
            r is Ok,
    {
        Ok(())
    }

    /// Accepts the removal.
    pub fn unregister_route(&self, path: &str) -> (r: Result<(), HostError>)
        ensures
            r is Ok,
    {
        Ok(())
    }
}

/// Scheduler handle that accepts every request and schedules nothing.
pub struct NoopSchedulerHandle;

impl NoopSchedulerHandle {
    /// Accepts the one-shot task.
    pub fn schedule_once(&self, delay_secs: u64, task_id: &str) -> (r: Result<(), HostError>)
        ensures
            r is Ok,
    {
        Ok(())
    }

    /// Accepts the recurring task.
    pub fn schedule_interval(&self, interval_secs: u64, task_id: &str) -> (r: Result<(), HostError>)
        ensures
            r is Ok,
    {
        Ok(())
    }

    /// Accepts the cancellation.
    pub fn cancel(&self, task_id: &str) -> (r: Result<(), HostError>)
        ensures
            r is Ok,
    {
        Ok(())
    }
}

} // verus!
