//! Plugin manifests: what a plugin declares about itself (identity,
//! activation, contributions and permissions), and the manifest of the
//! built-in messaging plugin.
use vstd::prelude::*;
use crate::text::has_prefix;
use crate::events::{event_kind, event_tag, lemma_event_tags_distinct, MessagingEvent};

verus! {

/// When the host activates a plugin.
#[derive(Debug, Clone, Copy, PartialEq, Eq, Structural)]
pub enum ActivationEvent {
    /// As soon as the server starts.
    OnStartup,
}

/// A command a plugin offers.
#[derive(Debug, Clone)]
pub struct CommandContribution {
    pub name: String,
    pub description: String,
}

/// An HTTP route a plugin serves.
#[derive(Debug, Clone)]
pub struct RouteContribution {
    pub method: String,
    pub path: String,
    pub description: String,
}

/// A setting a plugin reads; `default` is a JSON value.
#[derive(Debug, Clone)]
pub struct SettingContribution {
    pub key: String,
    pub description: String,
    pub value_type: String,
    pub default: Option<String>,
}

/// Everything a plugin contributes to the host.
#[derive(Debug, Clone)]
pub struct PluginContributions {
    pub commands: Vec<CommandContribution>,
    pub routes: Vec<RouteContribution>,
    pub events: Vec<String>,
    pub settings: Vec<SettingContribution>,
}

/// Host services a plugin may use.
#[derive(Debug, Clone, Copy, PartialEq, Eq, Structural)]
pub struct PluginPermissions {
    pub storage: bool,
    pub cache: bool,
    pub connections: bool,
    pub events: bool,
    pub scheduler: bool,
    pub network: bool,
    pub filesystem: bool,
}

/// The WebAssembly module of a plugin.
#[derive(Debug, Clone)]
pub struct WasmSection {
    pub module: String,
}

/// What a plugin declares about itself.
#[derive(Debug, Clone)]
pub struct PluginManifest {
    pub id: String,
    pub name: String,
    pub version: String,
    pub author: String,
    pub description: String,
    /// `builtin` or `wasm`.
    pub plugin_type: String,
    pub activation: ActivationEvent,
    pub min_server_version: Option<String>,
    /// Required plugins and their version requirements.
    pub dependencies: Vec<(String, String)>,
    pub contributions: PluginContributions,
    pub permissions: PluginPermissions,
    pub wasm: Option<WasmSection>,
}

/// Description of the messaging plugin.
pub open spec fn messaging_description() -> Seq<char> {
    "Built-in plugin providing direct, channel, and broadcast messaging with presence tracking, typing indicators, read receipts, and file attachments."@
}

/// Names and descriptions of the commands of the messaging plugin.
pub open spec fn messaging_command_table() -> Seq<(Seq<char>, Seq<char>)> {
    seq![
        ("messaging.send"@, "Send a direct or channel message"@),
        ("messaging.delete"@, "Delete a message by ID"@),
        ("messaging.channel.create"@, "Create a new messaging channel"@),
        ("messaging.channel.delete"@, "Delete a messaging channel"@),
        ("messaging.presence.set"@, "Set the current user's presence status"@),
    ]
}

/// Methods, paths and descriptions of the routes of the messaging plugin.
pub open spec fn messaging_route_table() -> Seq<(Seq<char>, Seq<char>, Seq<char>)> {
    seq![
        ("POST"@, "/api/messages/send"@, "Send a message"@),
        ("GET"@, "/api/messages/{id}"@, "Get message by ID"@),
        ("DELETE"@, "/api/messages/{id}"@, "Delete a message"@),
        ("POST"@, "/api/channels"@, "Create a channel"@),
        ("GET"@, "/api/channels"@, "List channels"@),
        ("GET"@, "/api/channels/{id}/messages"@, "Get channel messages"@),
        ("GET"@, "/api/presence/{user_id}"@, "Get user presence"@),
        ("POST"@, "/api/files/upload"@, "Upload a file"@),
    ]
}

/// Events the messaging plugin publishes.
pub open spec fn messaging_event_names() -> Seq<Seq<char>> {
    seq![
        "messaging.message_sent"@,
        "messaging.message_delivered"@,
        "messaging.message_read"@,
        "messaging.message_deleted"@,
        "messaging.channel_created"@,
        "messaging.channel_deleted"@,
        "messaging.user_joined_channel"@,
        "messaging.user_left_channel"@,
        "messaging.presence_changed"@,
        "messaging.typing_started"@,
        "messaging.file_uploaded"@,
    ]
}

/// An event of the variant at position `k` of the declaration.
pub open spec fn event_of_kind(k: int) -> MessagingEvent {
    let s: String = vstd::pervasive::arbitrary();
    if k == 0 { MessagingEvent::MessageSent { message_id: s, from: s, to: s, channel_id: None } }
    else if k == 1 { MessagingEvent::MessageDelivered { message_id: s, to: s } }
    else if k == 2 { MessagingEvent::MessageRead { message_id: s, by: s } }
    else if k == 3 { MessagingEvent::MessageDeleted { message_id: s, by: s } }
    else if k == 4 { MessagingEvent::ChannelCreated { channel_id: s, name: s, channel_type: s } }
    else if k == 5 { MessagingEvent::ChannelDeleted { channel_id: s } }
    else if k == 6 { MessagingEvent::UserJoinedChannel { channel_id: s, user_id: s } }
    else if k == 7 { MessagingEvent::UserLeftChannel { channel_id: s, user_id: s } }
    else if k == 8 { MessagingEvent::PresenceChanged { user_id: s, status: s } }
    else if k == 9 { MessagingEvent::TypingStarted { channel_id: s, user_id: s } }
    else { MessagingEvent::FileUploaded { file_id: s, user_id: s, filename: s } }
}

/// The messaging manifest declares exactly the events the plugin can emit:
/// one name per event variant, in declaration order, no name twice, and
/// the name of every event is among them.
pub proof fn lemma_manifest_events_are_event_tags(e: MessagingEvent)
    ensures
        messaging_event_names().len() == 11,
        messaging_event_names()[event_kind(e) as int] == event_tag(e),
        forall|k: int| 0 <= k < 11 ==> messaging_event_names()[k] == event_tag(#[trigger] event_of_kind(k)),
        messaging_event_names().no_duplicates(),
{
    let names = messaging_event_names();
    assert forall|k: int| 0 <= k < 11 implies names[k] == event_tag(#[trigger] event_of_kind(k)) by {}
    assert forall|a: int, b: int| 0 <= a < names.len() && 0 <= b < names.len() && a != b implies names[a] != names[b] by {
        assert(names[a] == event_tag(event_of_kind(a)));
        assert(names[b] == event_tag(event_of_kind(b)));
        assert(event_kind(event_of_kind(a)) == a);
        assert(event_kind(event_of_kind(b)) == b);
        lemma_event_tags_distinct(event_of_kind(a), event_of_kind(b));
    }
}

/// Keys and default values of the settings of the messaging plugin.
pub open spec fn messaging_setting_table() -> Seq<(Seq<char>, Seq<char>, Seq<char>)> {
    seq![
        ("messaging.max_messages"@, "100000"@, "Maximum number of messages to retain in memory"@),
        ("messaging.max_offline_queue"@, "100"@, "Maximum queued messages per offline user"@),
        ("messaging.typing_timeout_secs"@, "5"@, "Seconds before a typing indicator expires automatically"@),
        ("messaging.moderation.max_messages_per_minute"@, "60"@, "Rate limit: maximum messages a user can send per minute"@),
    ]
}

fn command(name: &str, description: &str) -> (c: CommandContribution)
    ensures
        c.name@ == name@,
        c.description@ == description@,
{
    CommandContribution { name: name.to_string(), description: description.to_string() }
}

fn route(method: &str, path: &str, description: &str) -> (r: RouteContribution)
    ensures
        r.method@ == method@,
        r.path@ == path@,
        r.description@ == description@,
{
    RouteContribution { method: method.to_string(), path: path.to_string(), description: description.to_string() }
}

fn number_setting(key: &str, description: &str, default: &str) -> (s: SettingContribution)
    ensures
        s.key@ == key@,
        s.value_type@ == "number"@,
        s.default matches Some(d) && d@ == default@,
        s.description@ == description@,
{
    SettingContribution {
        key: key.to_string(),
        description: description.to_string(),
        value_type: "number".to_string(),
        default: Some(default.to_string()),
    }
}

/// The manifest of the built-in messaging plugin: a `builtin` plugin
/// activated on start-up, with its commands, routes, events and settings,
/// allowed storage, cache, connections and events but no scheduler,
/// network or file system. Every event it declares is under `messaging.`.
pub fn messaging_manifest() -> (m: PluginManifest)
    ensures
        m.id@ == "io.draox.messaging"@,
        m.name@ == "Messaging"@,
        m.version@ == "0.1.0"@,
        m.author@ == "Draox Team"@,
        m.plugin_type@ == "builtin"@,
        m.activation == ActivationEvent::OnStartup,
        m.min_server_version matches Some(v) && v@ == "0.1.0"@,
        m.dependencies@.len() == 0,
        m.description@ == messaging_description(),
        m.contributions.commands@.map_values(|c: CommandContribution| (c.name@, c.description@)) == messaging_command_table(),
        m.contributions.routes@.map_values(|r: RouteContribution| (r.method@, r.path@, r.description@)) == messaging_route_table(),
        m.contributions.events@.map_values(|e: String| e@) == messaging_event_names(),
        m.contributions.settings@.map_values(|s: SettingContribution| (s.key@, s.default->Some_0@, s.description@)) == messaging_setting_table(),
        forall|k: int| 0 <= k < m.contributions.settings@.len() ==> (#[trigger] m.contributions.settings@[k]).value_type@ == "number"@
            && m.contributions.settings@[k].default is Some,
        forall|k: int| 0 <= k < m.contributions.events@.len() ==> has_prefix((#[trigger] m.contributions.events@[k])@, "messaging."@),
        m.permissions == (PluginPermissions {
            storage: true,
            cache: true,
            connections: true,
            events: true,
            scheduler: false,
            network: false,
            filesystem: false,
        }),
        m.wasm is None,
{
    let mut commands: Vec<CommandContribution> = Vec::new();
    commands.push(command("messaging.send", "Send a direct or channel message"));
    commands.push(command("messaging.delete", "Delete a message by ID"));
    commands.push(command("messaging.channel.create", "Create a new messaging channel"));
    commands.push(command("messaging.channel.delete", "Delete a messaging channel"));
    commands.push(command("messaging.presence.set", "Set the current user's presence status"));
    let mut routes: Vec<RouteContribution> = Vec::new();
    routes.push(route("POST", "/api/messages/send", "Send a message"));
    routes.push(route("GET", "/api/messages/{id}", "Get message by ID"));
    routes.push(route("DELETE", "/api/messages/{id}", "Delete a message"));
    routes.push(route("POST", "/api/channels", "Create a channel"));
    routes.push(route("GET", "/api/channels", "List channels"));
    routes.push(route("GET", "/api/channels/{id}/messages", "Get channel messages"));
    routes.push(route("GET", "/api/presence/{user_id}", "Get user presence"));
    routes.push(route("POST", "/api/files/upload", "Upload a file"));
    let mut events: Vec<String> = Vec::new();
    events.push("messaging.message_sent".to_string());
    events.push("messaging.message_delivered".to_string());
    events.push("messaging.message_read".to_string());
    events.push("messaging.message_deleted".to_string());
    events.push("messaging.channel_created".to_string());
    events.push("messaging.channel_deleted".to_string());
    events.push("messaging.user_joined_channel".to_string());
    events.push("messaging.user_left_channel".to_string());
    events.push("messaging.presence_changed".to_string());
    events.push("messaging.typing_started".to_string());
    events.push("messaging.file_uploaded".to_string());
    let mut settings: Vec<SettingContribution> = Vec::new();
    settings.push(number_setting("messaging.max_messages", "Maximum number of messages to retain in memory", "100000"));
    settings.push(number_setting("messaging.max_offline_queue", "Maximum queued messages per offline user", "100"));
    settings.push(number_setting("messaging.typing_timeout_secs", "Seconds before a typing indicator expires automatically", "5"));
    settings.push(number_setting(
        "messaging.moderation.max_messages_per_minute",
        "Rate limit: maximum messages a user can send per minute",
        "60",
    ));
    proof {
        assert(commands@.map_values(|c: CommandContribution| (c.name@, c.description@)) =~= messaging_command_table());
        assert(routes@.map_values(|r: RouteContribution| (r.method@, r.path@, r.description@)) =~= messaging_route_table());
        assert(events@.map_values(|e: String| e@) =~= messaging_event_names());
        assert(settings@.map_values(|s: SettingContribution| (s.key@, s.default->Some_0@, s.description@)) =~= messaging_setting_table());
        reveal_strlit("messaging.");
        reveal_strlit("messaging.message_sent");
        reveal_strlit("messaging.message_delivered");
        reveal_strlit("messaging.message_read");
        reveal_strlit("messaging.message_deleted");
        reveal_strlit("messaging.channel_created");
        reveal_strlit("messaging.channel_deleted");
        reveal_strlit("messaging.user_joined_channel");
        reveal_strlit("messaging.user_left_channel");
        reveal_strlit("messaging.presence_changed");
        reveal_strlit("messaging.typing_started");
        reveal_strlit("messaging.file_uploaded");
        assert forall|k: int| 0 <= k < events@.len() implies has_prefix((#[trigger] events@[k])@, "messaging."@) by {
            assert(events@[k]@ == messaging_event_names()[k]);
            assert(events@[k]@.subrange(0, 10) =~= "messaging."@);
        }
    }
    PluginManifest {
        id: "io.draox.messaging".to_string(),
        name: "Messaging".to_string(),
        version: "0.1.0".to_string(),
        author: "Draox Team".to_string(),
        description: String::from_str("Built-in plugin providing direct, channel, and broadcast messaging with presence tracking, typing indicators, read receipts, and file attachments."),
        plugin_type: "builtin".to_string(),
        activation: ActivationEvent::OnStartup,
        min_server_version: Some("0.1.0".to_string()),
        dependencies: Vec::new(),
        contributions: PluginContributions { commands, routes, events, settings },
        permissions: PluginPermissions {
            storage: true,
            cache: true,
            connections: true,
            events: true,
            scheduler: false,
            network: false,
            filesystem: false,
        },
        wasm: None,
    }
}

} // verus!
