//! Domain events emitted by the messaging plugin onto the server event bus.
use vstd::prelude::*;

verus! {

/// A messaging event.
#[derive(Debug, Clone)]
pub enum MessagingEvent {
    /// A new message was sent.
    MessageSent { message_id: String, from: String, to: String, channel_id: Option<String> },
    /// A message was delivered to the target client.
    MessageDelivered { message_id: String, to: String },
    /// A message was read by a user.
    MessageRead { message_id: String, by: String },
    /// A message was deleted.
    MessageDeleted { message_id: String, by: String },
    /// A new channel was created.
    ChannelCreated { channel_id: String, name: String, channel_type: String },
    /// A channel was deleted.
    ChannelDeleted { channel_id: String },
    /// A user joined a channel.
    UserJoinedChannel { channel_id: String, user_id: String },
    /// A user left a channel.
    UserLeftChannel { channel_id: String, user_id: String },
    /// A user's presence status changed (`status` is e.g. "online").
    PresenceChanged { user_id: String, status: String },
    /// A user started typing in a channel.
    TypingStarted { channel_id: String, user_id: String },
    /// A file was uploaded.
    FileUploaded { file_id: String, user_id: String, filename: String },
}

/// Stable tag of an event.
pub open spec fn event_tag(e: MessagingEvent) -> Seq<char> {
    match e {
        MessagingEvent::MessageSent { .. } => "messaging.message_sent"@,
        MessagingEvent::MessageDelivered { .. } => "messaging.message_delivered"@,
        MessagingEvent::MessageRead { .. } => "messaging.message_read"@,
        MessagingEvent::MessageDeleted { .. } => "messaging.message_deleted"@,
        MessagingEvent::ChannelCreated { .. } => "messaging.channel_created"@,
        MessagingEvent::ChannelDeleted { .. } => "messaging.channel_deleted"@,
        MessagingEvent::UserJoinedChannel { .. } => "messaging.user_joined_channel"@,
        MessagingEvent::UserLeftChannel { .. } => "messaging.user_left_channel"@,
        MessagingEvent::PresenceChanged { .. } => "messaging.presence_changed"@,
        MessagingEvent::TypingStarted { .. } => "messaging.typing_started"@,
        MessagingEvent::FileUploaded { .. } => "messaging.file_uploaded"@,
    }
}

/// Position of the event's variant in the declaration.
pub open spec fn event_kind(e: MessagingEvent) -> nat {
    match e {
        MessagingEvent::MessageSent { .. } => 0,
        MessagingEvent::MessageDelivered { .. } => 1,
        MessagingEvent::MessageRead { .. } => 2,
        MessagingEvent::MessageDeleted { .. } => 3,
        MessagingEvent::ChannelCreated { .. } => 4,
        MessagingEvent::ChannelDeleted { .. } => 5,
        MessagingEvent::UserJoinedChannel { .. } => 6,
        MessagingEvent::UserLeftChannel { .. } => 7,
        MessagingEvent::PresenceChanged { .. } => 8,
        MessagingEvent::TypingStarted { .. } => 9,
        MessagingEvent::FileUploaded { .. } => 10,
    }
}

impl MessagingEvent {
    /// Stable string tag identifying the event type, for routing and filtering.
    pub fn event_type(&self) -> (t: &'static str)
        ensures
            t@ == event_tag(*self),
    {
        match self {
            MessagingEvent::MessageSent { .. } => "messaging.message_sent",
            MessagingEvent::MessageDelivered { .. } => "messaging.message_delivered",
            MessagingEvent::MessageRead { .. } => "messaging.message_read",
            MessagingEvent::MessageDeleted { .. } => "messaging.message_deleted",
            MessagingEvent::ChannelCreated { .. } => "messaging.channel_created",
            MessagingEvent::ChannelDeleted { .. } => "messaging.channel_deleted",
            MessagingEvent::UserJoinedChannel { .. } => "messaging.user_joined_channel",
            MessagingEvent::UserLeftChannel { .. } => "messaging.user_left_channel",
            MessagingEvent::PresenceChanged { .. } => "messaging.presence_changed",
            MessagingEvent::TypingStarted { .. } => "messaging.typing_started",
            MessagingEvent::FileUploaded { .. } => "messaging.file_uploaded",
        }
    }
}

/// Every event tag lies in the `messaging.` namespace.
pub proof fn lemma_event_tag_namespaced(e: MessagingEvent)
    ensures
        event_tag(e).len() > 10,
        event_tag(e).subrange(0, 10) == "messaging."@,
{
    reveal_strlit("messaging.");
    match e {
        MessagingEvent::MessageSent { .. } => { reveal_strlit("messaging.message_sent"); },
        MessagingEvent::MessageDelivered { .. } => { reveal_strlit("messaging.message_delivered"); },
        MessagingEvent::MessageRead { .. } => { reveal_strlit("messaging.message_read"); },
        MessagingEvent::MessageDeleted { .. } => { reveal_strlit("messaging.message_deleted"); },
        MessagingEvent::ChannelCreated { .. } => { reveal_strlit("messaging.channel_created"); },
        MessagingEvent::ChannelDeleted { .. } => { reveal_strlit("messaging.channel_deleted"); },
        MessagingEvent::UserJoinedChannel { .. } => { reveal_strlit("messaging.user_joined_channel"); },
        MessagingEvent::UserLeftChannel { .. } => { reveal_strlit("messaging.user_left_channel"); },
        MessagingEvent::PresenceChanged { .. } => { reveal_strlit("messaging.presence_changed"); },
        MessagingEvent::TypingStarted { .. } => { reveal_strlit("messaging.typing_started"); },
        MessagingEvent::FileUploaded { .. } => { reveal_strlit("messaging.file_uploaded"); },
    }
    assert(event_tag(e).subrange(0, 10) =~= "messaging."@);
}

/// Length and two distinguishing characters of each tag.
spec fn tag_key(k: nat) -> (nat, char, char) {
    if k == 0 { (22, 'm', 's') }
    else if k == 1 { (27, 'm', 'd') }
    else if k == 2 { (22, 'm', 'r') }
    else if k == 3 { (25, 'm', 'd') }
    else if k == 4 { (25, 'c', 'c') }
    else if k == 5 { (25, 'c', 'd') }
    else if k == 6 { (29, 'u', 'n') }
    else if k == 7 { (27, 'u', 't') }
    else if k == 8 { (26, 'p', '_') }
    else if k == 9 { (24, 't', 't') }
    else { (23, 'f', 'o') }
}

proof fn lemma_tag_key(e: MessagingEvent)
    ensures
        event_tag(e).len() > 18,
        tag_key(event_kind(e)) == (event_tag(e).len(), event_tag(e)[10], event_tag(e)[18]),
{
    match e {
        MessagingEvent::MessageSent { .. } => { reveal_strlit("messaging.message_sent"); },
        MessagingEvent::MessageDelivered { .. } => { reveal_strlit("messaging.message_delivered"); },
        MessagingEvent::MessageRead { .. } => { reveal_strlit("messaging.message_read"); },
        MessagingEvent::MessageDeleted { .. } => { reveal_strlit("messaging.message_deleted"); },
        MessagingEvent::ChannelCreated { .. } => { reveal_strlit("messaging.channel_created"); },
        MessagingEvent::ChannelDeleted { .. } => { reveal_strlit("messaging.channel_deleted"); },
        MessagingEvent::UserJoinedChannel { .. } => { reveal_strlit("messaging.user_joined_channel"); },
        MessagingEvent::UserLeftChannel { .. } => { reveal_strlit("messaging.user_left_channel"); },
        MessagingEvent::PresenceChanged { .. } => { reveal_strlit("messaging.presence_changed"); },
        MessagingEvent::TypingStarted { .. } => { reveal_strlit("messaging.typing_started"); },
        MessagingEvent::FileUploaded { .. } => { reveal_strlit("messaging.file_uploaded"); },
    }
}

/// Events of different variants carry different tags.
pub proof fn lemma_event_tags_distinct(a: MessagingEvent, b: MessagingEvent)
    requires
        event_kind(a) != event_kind(b),
    ensures
        event_tag(a) != event_tag(b),
{
    lemma_tag_key(a);
    lemma_tag_key(b);
}

} // verus!
