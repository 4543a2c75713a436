//! Value types of the messaging plugin: message, channel, presence,
//! delivery and moderation outcomes.
use vstd::prelude::*;
use crate::text::push_str;
use crate::session_store::{hex_encode, hex_text, lemma_hex_len};

verus! {

/// Kind of a message.
#[derive(Debug, Clone, Copy, PartialEq, Eq, Structural)]
pub enum MessageType {
    /// Direct message between two clients.
    Direct,
    /// Message to a channel.
    Channel,
    /// Broadcast to all connected clients.
    Broadcast,
    /// System notification.
    System,
}

/// Delivery status of a message.
#[derive(Debug, Clone, Copy, PartialEq, Eq, Structural)]
pub enum MessageStatus {
    Sent,
    Delivered,
    Read,
    Failed,
}

/// Content type of a message payload.
#[derive(Debug, Clone, Copy, PartialEq, Eq, Structural)]
pub enum ContentType {
    Text,
    Image,
    File,
    Embed,
    System,
}

impl Default for ContentType {
    /// Plain text.
    fn default() -> (c: Self)
        ensures
            c == ContentType::Text,
    {
        ContentType::Text
    }
}

/// An emoji reaction with the users who reacted with it.
#[derive(Debug, Clone)]
pub struct MessageReaction {
    pub emoji: String,
    pub users: Vec<String>,
}

/// Kind of a channel.
#[derive(Debug, Clone, Copy, PartialEq, Eq, Structural)]
pub enum ChannelType {
    Public,
    Private,
    Direct,
    Announcement,
}

impl Default for ChannelType {
    /// A public channel.
    fn default() -> (c: Self)
        ensures
            c == ChannelType::Public,
    {
        ChannelType::Public
    }
}

impl ChannelType {
    /// Name of the channel type as the HTTP API shows it.
    pub fn label(&self) -> (s: &'static str)
        ensures
            s@ == match self {
                ChannelType::Public => "Public"@,
                ChannelType::Private => "Private"@,
                ChannelType::Direct => "Direct"@,
                ChannelType::Announcement => "Announcement"@,
            },
    {
        match self {
            ChannelType::Public => "Public",
            ChannelType::Private => "Private",
            ChannelType::Direct => "Direct",
            ChannelType::Announcement => "Announcement",
        }
    }
}

/// Presence status of a user.
#[derive(Debug, Clone, Copy, PartialEq, Eq, Structural)]
pub enum PresenceStatus {
    Online,
    Away,
    DoNotDisturb,
    Offline,
}

impl Default for PresenceStatus {
    /// Offline.
    fn default() -> (s: Self)
        ensures
            s == PresenceStatus::Offline,
    {
        PresenceStatus::Offline
    }
}

/// A message envelope routed to one client.
#[derive(Debug, Clone)]
pub struct DeliveryMessage {
    /// Id of the message being delivered.
    pub message_id: String,
    /// Target client.
    pub target_id: String,
    /// Serialised message content.
    pub content: String,
    /// Message type tag (e.g. "direct", "channel", "system").
    pub message_type: String,
}

/// Outcome of a delivery attempt.
#[derive(Debug, Clone, PartialEq, Eq)]
pub enum DeliveryResult {
    /// Placed into the client's buffer.
    Delivered,
    /// The client is offline; the caller should queue the message.
    Queued,
    /// Delivery failed for the given reason (e.g. buffer full).
    Failed(String),
}

/// Outcome of a moderation check.
#[derive(Debug, Clone, PartialEq, Eq)]
pub enum ModerationAction {
    Allow,
    Block(String),
    Warn(String),
}

/// Draws a random version-4 UUID (`uuid::Uuid::new_v4`) and returns its
/// sixteen bytes. Nothing else is stated of them: they are random.
#[verifier::external_body]
fn uuid_v4_bytes() -> (b: Vec<u8>)
    ensures
        b@.len() == 16,
{
    uuid::Uuid::new_v4().as_bytes().to_vec()
}

fn byte_range(b: &Vec<u8>, lo: usize, hi: usize) -> (r: Vec<u8>)
    requires
        lo <= hi <= b@.len(),
    ensures
        r@ == b@.subrange(lo as int, hi as int),
{
    let mut r: Vec<u8> = Vec::new();
    let mut i = lo;
    while i < hi
        invariant
            lo <= i <= hi <= b@.len(),
            r@ == b@.subrange(lo as int, i as int),
        decreases hi - i,
    {
        r.push(b[i]);
        i = i + 1;
        proof {
            assert(r@ =~= b@.subrange(lo as int, i as int));
        }
    }
    r
}

/// The simple text of a UUID: its bytes in lower-case hexadecimal.
pub open spec fn uuid_simple_text(b: Seq<u8>) -> Seq<char> {
    hex_text(b)
}

/// The hyphenated text of a UUID: groups of 8, 4, 4, 4 and 12 lower-case
/// hexadecimal digits.
pub open spec fn uuid_hyphenated_text(b: Seq<u8>) -> Seq<char> {
    hex_text(b.subrange(0, 4)) + "-"@ + hex_text(b.subrange(4, 6)) + "-"@ + hex_text(b.subrange(6, 8)) + "-"@
        + hex_text(b.subrange(8, 10)) + "-"@ + hex_text(b.subrange(10, 16))
}

/// A random UUID in the simple format (32 hexadecimal digits).
pub(crate) fn random_uuid_simple() -> (s: String)
    ensures
        s@.len() == 32,
        exists|b: Seq<u8>| b.len() == 16 && s@ == uuid_simple_text(b),
{
    let b = uuid_v4_bytes();
    let s = hex_encode(&b);
    proof {
        lemma_hex_len(b@);
    }
    s
}

/// A random UUID in the hyphenated format (36 characters).
pub(crate) fn random_uuid() -> (s: String)
    ensures
        s@.len() == 36,
        exists|b: Seq<u8>| b.len() == 16 && s@ == uuid_hyphenated_text(b),
{
    let b = uuid_v4_bytes();
    let mut s = hex_encode(&byte_range(&b, 0, 4));
    push_str(&mut s, "-");
    push_str(&mut s, hex_encode(&byte_range(&b, 4, 6)).as_str());
    push_str(&mut s, "-");
    push_str(&mut s, hex_encode(&byte_range(&b, 6, 8)).as_str());
    push_str(&mut s, "-");
    push_str(&mut s, hex_encode(&byte_range(&b, 8, 10)).as_str());
    push_str(&mut s, "-");
    push_str(&mut s, hex_encode(&byte_range(&b, 10, 16)).as_str());
    proof {
        reveal_strlit("-");
        lemma_hex_len(b@.subrange(0, 4));
        lemma_hex_len(b@.subrange(4, 6));
        lemma_hex_len(b@.subrange(6, 8));
        lemma_hex_len(b@.subrange(8, 10));
        lemma_hex_len(b@.subrange(10, 16));
        assert(s@ =~= uuid_hyphenated_text(b@));
    }
    s
}

/// Calls `chrono::Utc::now()` and returns milliseconds since the Unix
/// epoch. Of the value only its range is stated: `Utc::now` refuses a
/// system time before the epoch, and a `DateTime<Utc>` lies within years
/// -262144..=262142, far below 10^16 milliseconds from the epoch.
#[verifier::external_body]
pub(crate) fn now_millis() -> (t: i64)
    ensures
        0 <= t < 10_000_000_000_000_000,
{
    chrono::Utc::now().timestamp_millis()
}

/// A message envelope. Times are milliseconds since the Unix epoch.
#[derive(Debug, Clone)]
pub struct Message {
    pub id: String,
    pub message_type: MessageType,
    pub from: String,
    pub to: String,
    pub content: String,
    pub timestamp: i64,
    pub status: MessageStatus,
    pub content_type: ContentType,
    pub reactions: Vec<MessageReaction>,
    pub reply_to: Option<String>,
    pub edited: bool,
    pub edited_at: Option<i64>,
}

pub(crate) fn copy_strings(v: &Vec<String>) -> (r: Vec<String>)
    ensures
        r@ == v@,
{
    let mut r: Vec<String> = Vec::new();
    let mut i: usize = 0;
    while i < v.len()
        invariant
            i <= v@.len(),
            r@ == v@.subrange(0, i as int),
        decreases v.len() - i,
    {
        r.push(v[i].clone());
        i = i + 1;
        assert(r@ =~= v@.subrange(0, i as int));
    }
    assert(r@ =~= v@);
    r
}

fn copy_option_string(o: &Option<String>) -> (r: Option<String>)
    ensures
        r == *o,
{
    match o {
        Some(s) => Some(s.clone()),
        None => None,
    }
}

/// Two reactions hold the same emoji and users.
pub open spec fn same_reaction(a: MessageReaction, b: MessageReaction) -> bool {
    a.emoji == b.emoji && a.users@ == b.users@
}

/// Two messages hold the same values.
pub open spec fn same_message(a: Message, b: Message) -> bool {
    &&& a.id == b.id
    &&& a.message_type == b.message_type
    &&& a.from == b.from
    &&& a.to == b.to
    &&& a.content == b.content
    &&& a.timestamp == b.timestamp
    &&& a.status == b.status
    &&& a.content_type == b.content_type
    &&& a.reactions@.len() == b.reactions@.len()
    &&& forall|k: int| 0 <= k < a.reactions@.len() ==> same_reaction(#[trigger] a.reactions@[k], b.reactions@[k])
    &&& a.reply_to == b.reply_to
    &&& a.edited == b.edited
    &&& a.edited_at == b.edited_at
}

impl MessageReaction {
    /// A copy of the reaction.
    pub fn duplicate(&self) -> (r: Self)
        ensures
            same_reaction(r, *self),
    {
        MessageReaction { emoji: self.emoji.clone(), users: copy_strings(&self.users) }
    }
}

impl Message {
    /// A sent text message with the given id, created at `now`.
    pub fn create(id: String, message_type: MessageType, from: String, to: String, content: String, now: i64) -> (m: Self)
        ensures
            m.id == id,
            m.message_type == message_type,
            m.from == from,
            m.to == to,
            m.content == content,
            m.timestamp == now,
            m.status == MessageStatus::Sent,
            m.content_type == ContentType::Text,
            m.reactions@.len() == 0,
            m.reply_to is None,
            !m.edited,
            m.edited_at is None,
    {
        Message {
            id,
            message_type,
            from,
            to,
            content,
            timestamp: now,
            status: MessageStatus::Sent,
            content_type: ContentType::Text,
            reactions: Vec::new(),
            reply_to: None,
            edited: false,
            edited_at: None,
        }
    }

    /// A new sent text message with a fresh id `msg_<uuid>`, created now.
    pub fn new(message_type: MessageType, from: String, to: String, content: String) -> (m: Self)
        ensures
            m.id@.len() == 36,
            m.id@.subrange(0, 4) == "msg_"@,
            m.message_type == message_type,
            m.from == from,
            m.to == to,
            m.content == content,
            m.status == MessageStatus::Sent,
            m.content_type == ContentType::Text,
            m.reactions@.len() == 0,
            m.reply_to is None,
            !m.edited,
            m.edited_at is None,
    {
        let mut id = String::new();
        push_str(&mut id, "msg_");
        let u = random_uuid_simple();
        push_str(&mut id, u.as_str());
        proof {
            reveal_strlit("msg_");
            assert(id@.subrange(0, 4) =~= "msg_"@);
        }
        Message::create(id, message_type, from, to, content, now_millis())
    }

    /// A system notification to `to`, sent by `system`.
    pub fn system(to: String, content: String) -> (m: Self)
        ensures
            m.message_type == MessageType::System,
            m.from@ == "system"@,
            m.to == to,
            m.content == content,
    {
        Message::new(MessageType::System, "system".to_string(), to, content)
    }

    /// The same message with another content type.
    pub fn with_content_type(self, ct: ContentType) -> (m: Self)
        ensures
            m == (Message { content_type: ct, ..self }),
    {
        Message { content_type: ct, ..self }
    }

    /// The same message as a reply to `msg_id`.
    pub fn with_reply_to(self, msg_id: String) -> (m: Self)
        ensures
            m == (Message { reply_to: Some(msg_id), ..self }),
    {
        Message { reply_to: Some(msg_id), ..self }
    }

    /// A copy of the message.
    pub fn duplicate(&self) -> (m: Self)
        ensures
            same_message(m, *self),
    {
        let mut reactions: Vec<MessageReaction> = Vec::new();
        let mut i: usize = 0;
        while i < self.reactions.len()
            invariant
                i <= self.reactions@.len(),
                reactions@.len() == i,
                forall|k: int| 0 <= k < i ==> same_reaction(#[trigger] reactions@[k], self.reactions@[k]),
            decreases self.reactions.len() - i,
        {
            reactions.push(self.reactions[i].duplicate());
            i = i + 1;
        }
        Message {
            id: self.id.clone(),
            message_type: self.message_type,
            from: self.from.clone(),
            to: self.to.clone(),
            content: self.content.clone(),
            timestamp: self.timestamp,
            status: self.status,
            content_type: self.content_type,
            reactions,
            reply_to: copy_option_string(&self.reply_to),
            edited: self.edited,
            edited_at: self.edited_at,
        }
    }
}

} // verus!
