//! HTTP surface of the messaging plugin: the route table used for API
//! documentation and capability discovery, and the request and response
//! bodies of the handlers.
use vstd::prelude::*;
use crate::channel::Channel;
use crate::messaging_types::{ChannelType, Message, MessageReaction};

verus! {

/// One HTTP route of the messaging plugin.
#[derive(Debug, Clone, PartialEq, Eq)]
pub struct MessagingRouteInfo {
    pub method: &'static str,
    pub path: &'static str,
    pub description: &'static str,
}

/// Number of documented routes.
pub const ROUTE_COUNT: usize = 15;

/// `(method, path, description)` of route `k`.
pub open spec fn route_at(k: int) -> (Seq<char>, Seq<char>, Seq<char>) {
    if k == 0 { ("GET"@, "/api/channels"@, "List all available channels"@) }
    else if k == 1 { ("POST"@, "/api/channels"@, "Create a new messaging channel"@) }
    else if k == 2 { ("GET"@, "/api/channels/{id}"@, "Get channel details by ID"@) }
    else if k == 3 { ("DELETE"@, "/api/channels/{id}"@, "Delete a channel"@) }
    else if k == 4 { ("GET"@, "/api/channels/{id}/messages"@, "Get messages in a channel (paginated)"@) }
    else if k == 5 { ("POST"@, "/api/channels/{id}/subscribe"@, "Subscribe the current user to a channel"@) }
    else if k == 6 { ("POST"@, "/api/channels/{id}/unsubscribe"@, "Unsubscribe the current user from a channel"@) }
    else if k == 7 { ("POST"@, "/api/channels/{id}/typing"@, "Send a typing indicator to a channel"@) }
    else if k == 8 { ("POST"@, "/api/channels/{id}/freeze"@, "Freeze a channel: no new messages or subscribers"@) }
    else if k == 9 { ("POST"@, "/api/channels/{id}/unfreeze"@, "Unfreeze a channel"@) }
    else if k == 10 { ("POST"@, "/api/messages/send"@, "Send a channel message"@) }
    else if k == 11 { ("GET"@, "/api/messages/{id}"@, "Get a message by its ID"@) }
    else if k == 12 { ("DELETE"@, "/api/messages/{id}"@, "Delete a message by its ID"@) }
    else if k == 13 { ("PATCH"@, "/api/messages/{id}"@, "Edit the content of a message"@) }
    else if k == 14 { ("POST"@, "/api/messages/{id}/react"@, "Add a reaction emoji to a message"@) }
    else { (Seq::empty(), Seq::empty(), Seq::empty()) }
}

fn route_entry(k: usize) -> (r: MessagingRouteInfo)
    requires
        k < ROUTE_COUNT,
    ensures
        (r.method@, r.path@, r.description@) == route_at(k as int),
{
    match k {
        0 => MessagingRouteInfo { method: "GET", path: "/api/channels", description: "List all available channels" },
        1 => MessagingRouteInfo { method: "POST", path: "/api/channels", description: "Create a new messaging channel" },
        2 => MessagingRouteInfo { method: "GET", path: "/api/channels/{id}", description: "Get channel details by ID" },
        3 => MessagingRouteInfo { method: "DELETE", path: "/api/channels/{id}", description: "Delete a channel" },
        4 => MessagingRouteInfo { method: "GET", path: "/api/channels/{id}/messages", description: "Get messages in a channel (paginated)" },
        5 => MessagingRouteInfo { method: "POST", path: "/api/channels/{id}/subscribe", description: "Subscribe the current user to a channel" },
        6 => MessagingRouteInfo { method: "POST", path: "/api/channels/{id}/unsubscribe", description: "Unsubscribe the current user from a channel" },
        7 => MessagingRouteInfo { method: "POST", path: "/api/channels/{id}/typing", description: "Send a typing indicator to a channel" },
        8 => MessagingRouteInfo { method: "POST", path: "/api/channels/{id}/freeze", description: "Freeze a channel: no new messages or subscribers" },
        9 => MessagingRouteInfo { method: "POST", path: "/api/channels/{id}/unfreeze", description: "Unfreeze a channel" },
        10 => MessagingRouteInfo { method: "POST", path: "/api/messages/send", description: "Send a channel message" },
        11 => MessagingRouteInfo { method: "GET", path: "/api/messages/{id}", description: "Get a message by its ID" },
        12 => MessagingRouteInfo { method: "DELETE", path: "/api/messages/{id}", description: "Delete a message by its ID" },
        13 => MessagingRouteInfo { method: "PATCH", path: "/api/messages/{id}", description: "Edit the content of a message" },
        _ => MessagingRouteInfo { method: "POST", path: "/api/messages/{id}/react", description: "Add a reaction emoji to a message" },
    }
}

/// The routes of the messaging plugin, in documentation order.
pub fn messaging_routes() -> (r: Vec<MessagingRouteInfo>)
    ensures
        r@.len() == ROUTE_COUNT,
        forall|k: int| 0 <= k < ROUTE_COUNT ==> ((#[trigger] r@[k]).method@, r@[k].path@, r@[k].description@) == route_at(k),
{
    let mut r: Vec<MessagingRouteInfo> = Vec::new();
    let mut k: usize = 0;
    while k < ROUTE_COUNT
        invariant
            k <= ROUTE_COUNT,
            r@.len() == k,
            forall|m: int| 0 <= m < k ==> ((#[trigger] r@[m]).method@, r@[m].path@, r@[m].description@) == route_at(m),
        decreases ROUTE_COUNT - k,
    {
        r.push(route_entry(k));
        k = k + 1;
    }
    r
}

/// Every route has a method and a description, and a path starting with `/`.
pub proof fn lemma_routes_well_formed(k: int)
    requires
        0 <= k < ROUTE_COUNT,
    ensures
        route_at(k).0.len() > 0,
        route_at(k).1.len() > 0 && route_at(k).1[0] == '/',
        route_at(k).2.len() > 0,
{
    assert(route_at(k).0.len() > 0) by {
        reveal_strlit("DELETE");
        reveal_strlit("GET");
        reveal_strlit("PATCH");
        reveal_strlit("POST");
    }
    assert(route_at(k).1.len() > 0 && route_at(k).1[0] == '/') by {
        reveal_strlit("/api/channels");
        reveal_strlit("/api/channels/{id}");
        reveal_strlit("/api/channels/{id}/messages");
        reveal_strlit("/api/channels/{id}/subscribe");
        reveal_strlit("/api/channels/{id}/typing");
        reveal_strlit("/api/channels/{id}/unsubscribe");
        reveal_strlit("/api/channels/{id}/freeze");
        reveal_strlit("/api/channels/{id}/unfreeze");
        reveal_strlit("/api/messages/send");
        reveal_strlit("/api/messages/{id}");
        reveal_strlit("/api/messages/{id}/react");
    }
    assert(route_at(k).2.len() > 0) by {
        reveal_strlit("List all available channels");
        reveal_strlit("Create a new messaging channel");
        reveal_strlit("Get channel details by ID");
        reveal_strlit("Delete a channel");
        reveal_strlit("Get messages in a channel (paginated)");
        reveal_strlit("Subscribe the current user to a channel");
        reveal_strlit("Unsubscribe the current user from a channel");
        reveal_strlit("Send a typing indicator to a channel");
        reveal_strlit("Freeze a channel: no new messages or subscribers");
        reveal_strlit("Unfreeze a channel");
        reveal_strlit("Send a channel message");
        reveal_strlit("Get a message by its ID");
        reveal_strlit("Delete a message by its ID");
        reveal_strlit("Edit the content of a message");
        reveal_strlit("Add a reaction emoji to a message");
    }
}

/// No two routes share a method and a path.
pub proof fn lemma_routes_distinct(i: int, j: int)
    requires
        0 <= i < ROUTE_COUNT,
        0 <= j < ROUTE_COUNT,
        i != j,
    ensures
        (route_at(i).0, route_at(i).1) != (route_at(j).0, route_at(j).1),
{
    reveal_strlit("DELETE");
    reveal_strlit("GET");
    reveal_strlit("PATCH");
    reveal_strlit("POST");
    reveal_strlit("/api/channels");
    reveal_strlit("/api/channels/{id}");
    reveal_strlit("/api/channels/{id}/messages");
    reveal_strlit("/api/channels/{id}/subscribe");
    reveal_strlit("/api/channels/{id}/typing");
    reveal_strlit("/api/channels/{id}/unsubscribe");
    reveal_strlit("/api/channels/{id}/freeze");
    reveal_strlit("/api/channels/{id}/unfreeze");
    reveal_strlit("/api/messages/send");
    reveal_strlit("/api/messages/{id}");
    reveal_strlit("/api/messages/{id}/react");
    if route_at(i).0 == route_at(j).0 && route_at(i).1 == route_at(j).1 {
        if route_at(i).1.len() == 25 && route_at(j).1.len() == 25 {
            assert(route_at(i).1[19] == route_at(j).1[19]);
        }
        if route_at(i).1.len() == 18 && route_at(j).1.len() == 18 && route_at(i).1.len() > 5 {
            assert(route_at(i).1[5] == route_at(j).1[5]);
        }
        if route_at(i).0.len() == 4 && route_at(j).0.len() == 4 {
            assert(route_at(i).0[1] == route_at(j).0[1]);
        }
    }
}

/// A channel as the HTTP API returns it.
pub struct ChannelDto {
    pub id: String,
    pub name: String,
    pub description: String,
    pub created_by: String,
    pub created_at: String,
    pub channel_type: &'static str,
    pub topic: String,
    pub is_system: bool,
    pub frozen: bool,
    pub member_count: usize,
}

/// The users who reacted to a message with one emoji.
pub struct ReactionDto {
    pub emoji: String,
    pub users: Vec<String>,
}

/// A message as the HTTP API returns it.
pub struct MessageDto {
    pub id: String,
    pub channel_id: String,
    pub sender_id: String,
    pub text: String,
    pub reply_to_id: Option<String>,
    pub sent_at: String,
    pub edited_at: Option<String>,
    pub reactions: Vec<ReactionDto>,
}

/// A page of channel history.
pub struct MessageHistoryDto {
    pub messages: Vec<MessageDto>,
    pub has_more: bool,
    pub oldest_id: Option<String>,
}

/// Reply to a sent message.
pub struct SendMessageResponseDto {
    pub message: MessageDto,
}

/// Body of `POST /api/channels`.
pub struct CreateChannelRequest {
    pub name: String,
    pub description: String,
}

/// Query string of `GET /api/channels/{id}/messages`.
pub struct HistoryQuery {
    pub limit: Option<usize>,
    pub before: Option<String>,
}

/// Body of `POST /api/messages/send`.
pub struct SendMessageRequest {
    pub channel_id: String,
    pub text: String,
    pub reply_to_id: Option<String>,
}

/// Body of `PATCH /api/messages/{id}`.
pub struct EditMessageRequest {
    pub text: String,
}

/// Body of `POST /api/messages/{id}/react`.
pub struct ReactionRequest {
    pub emoji: String,
}

/// The RFC 3339 text of a UTC time given in milliseconds since the Unix
/// epoch, as chrono's `DateTime::<Utc>::to_rfc3339` writes it.
pub uninterp spec fn rfc3339_text(ms: i64) -> Seq<char>;

/// Times whose RFC 3339 text can be written: well inside chrono's range of
/// dates (about 262,000 years either side of year 0).
pub open spec fn writable_time(ms: i64) -> bool {
    -8_000_000_000_000_000 <= ms <= 8_000_000_000_000_000
}

/// Writes a time with `DateTime::<Utc>::from_timestamp_millis` and
/// `to_rfc3339`. Claimed: the text is the named RFC 3339 text of the time;
/// the conversion succeeds for every time in the admitted range.
#[verifier::external_body]
fn rfc3339_of_millis(ms: i64) -> (s: String)
    requires
        writable_time(ms),
    ensures
        s@ == rfc3339_text(ms),
{
    chrono::DateTime::<chrono::Utc>::from_timestamp_millis(ms).map(|t| t.to_rfc3339()).unwrap_or_default()
}

/// Name of a channel type as the HTTP API writes it.
pub open spec fn channel_type_name(t: ChannelType) -> Seq<char> {
    match t {
        ChannelType::Public => "Public"@,
        ChannelType::Private => "Private"@,
        ChannelType::Direct => "Direct"@,
        ChannelType::Announcement => "Announcement"@,
    }
}

impl ChannelDto {
    /// The HTTP form of a channel: its fields, the creation time as RFC
    /// 3339 text, the type's name and the number of subscribers.
    pub fn from_channel(c: Channel) -> (d: Self)
        requires
            writable_time(c.created_at),
        ensures
            d.id == c.id,
            d.name == c.name,
            d.description == c.description,
            d.created_by == c.created_by,
            d.created_at@ == rfc3339_text(c.created_at),
            d.channel_type@ == channel_type_name(c.channel_type),
            d.topic == c.topic,
            d.is_system == c.is_system,
            d.frozen == c.frozen,
            d.member_count == c.subscribers@.len(),
    {
        let channel_type = match c.channel_type {
            ChannelType::Public => "Public",
            ChannelType::Private => "Private",
            ChannelType::Direct => "Direct",
            ChannelType::Announcement => "Announcement",
        };
        ChannelDto {
            member_count: c.subscribers.len(),
            created_at: rfc3339_of_millis(c.created_at),
            id: c.id,
            name: c.name,
            description: c.description,
            created_by: c.created_by,
            channel_type,
            topic: c.topic,
            is_system: c.is_system,
            frozen: c.frozen,
        }
    }
}

impl ReactionDto {
    /// The HTTP form of a reaction.
    pub fn from_reaction(r: MessageReaction) -> (d: Self)
        ensures
            d.emoji == r.emoji,
            d.users == r.users,
    {
        ReactionDto { emoji: r.emoji, users: r.users }
    }
}

/// Every time a message carries can be written.
pub open spec fn message_times_writable(m: Message) -> bool {
    &&& writable_time(m.timestamp)
    &&& m.edited_at matches Some(t) ==> writable_time(t)
}

impl MessageDto {
    /// The HTTP form of a message: the target is the channel, the times
    /// are RFC 3339 text, and the reactions keep their order.
    pub fn from_message(m: Message) -> (d: Self)
        requires
            message_times_writable(m),
        ensures
            d.id == m.id,
            d.channel_id == m.to,
            d.sender_id == m.from,
            d.text == m.content,
            d.reply_to_id == m.reply_to,
            d.sent_at@ == rfc3339_text(m.timestamp),
            d.edited_at matches Some(t) ==> m.edited_at matches Some(e) && t@ == rfc3339_text(e),
            d.edited_at is None <==> m.edited_at is None,
            d.reactions@.len() == m.reactions@.len(),
            forall|k: int| 0 <= k < d.reactions@.len() ==> (#[trigger] d.reactions@[k]).emoji == m.reactions@[k].emoji
                && d.reactions@[k].users == m.reactions@[k].users,
    {
        let sent_at = rfc3339_of_millis(m.timestamp);
        let edited_at = match m.edited_at {
            Some(t) => Some(rfc3339_of_millis(t)),
            None => None,
        };
        let ghost rs = m.reactions@;
        let mut reactions: Vec<ReactionDto> = Vec::new();
        let mut rest = m.reactions;
        let mut taken: usize = 0;
        let ghost total = rest@.len();
        assert(rest@.len() == rest.len());
        while rest.len() > 0
            invariant
                total <= usize::MAX,
                taken + rest@.len() == total,
                total == rs.len(),
                rest@ == rs.subrange(taken as int, total as int),
                reactions@.len() == taken,
                forall|k: int| 0 <= k < taken ==> (#[trigger] reactions@[k]).emoji == rs[k].emoji && reactions@[k].users == rs[k].users,
            decreases rest@.len(),
        {
            let r = rest.remove(0);
            reactions.push(ReactionDto::from_reaction(r));
            taken = taken + 1;
            proof {
                assert(rest@ =~= rs.subrange(taken as int, total as int));
            }
        }
        MessageDto {
            id: m.id,
            channel_id: m.to,
            sender_id: m.from,
            text: m.content,
            reply_to_id: m.reply_to,
            sent_at,
            edited_at,
            reactions,
        }
    }
}

/// Page size used when a history query names none.
pub const DEFAULT_HISTORY_LIMIT: usize = 50;

/// Largest page size a history query may ask for.
pub const MAX_HISTORY_LIMIT: usize = 200;

impl HistoryQuery {
    /// Page size of the query: its `limit`, or 50, capped at 200.
    pub fn effective_limit(&self) -> (n: usize)
        ensures
            n == match self.limit {
                Some(l) => if l < MAX_HISTORY_LIMIT { l } else { MAX_HISTORY_LIMIT },
                None => DEFAULT_HISTORY_LIMIT,
            },
            n <= MAX_HISTORY_LIMIT,
    {
        let l = match self.limit {
            Some(l) => l,
            None => DEFAULT_HISTORY_LIMIT,
        };
        if l < MAX_HISTORY_LIMIT { l } else { MAX_HISTORY_LIMIT }
    }
}

impl MessageHistoryDto {
    /// A history page from messages the store listed newest first: oldest
    /// first, `has_more` when the page is full, and the id of its oldest
    /// message.
    pub fn from_newest_first(newest_first: Vec<MessageDto>, limit: usize) -> (h: Self)
        ensures
            h.messages@.len() == newest_first@.len(),
            forall|k: int| 0 <= k < newest_first@.len() ==> #[trigger] h.messages@[k] == newest_first@[newest_first@.len() - 1 - k],
            h.has_more == (newest_first@.len() == limit),
            match h.oldest_id {
                Some(id) => newest_first@.len() > 0 && id@ == newest_first@.last().id@,
                None => newest_first@.len() == 0,
            },
    {
        let ghost input = newest_first@;
        let mut rest = newest_first;
        let mut messages: Vec<MessageDto> = Vec::new();
        let mut oldest_id: Option<String> = None;
        while rest.len() > 0
            invariant
                messages@.len() + rest@.len() == input.len(),
                rest@ == input.take(rest@.len() as int),
                forall|k: int| 0 <= k < messages@.len() ==> #[trigger] messages@[k] == input[input.len() - 1 - k],
                match oldest_id {
                    Some(id) => messages@.len() > 0 && id@ == input.last().id@,
                    None => messages@.len() == 0,
                },
            decreases rest.len(),
        {
            let m = rest.pop().unwrap();
            if messages.len() == 0 {
                oldest_id = Some(m.id.clone());
            }
            messages.push(m);
            assert(rest@ =~= input.take(rest@.len() as int));
        }
        let has_more = messages.len() == limit;
        MessageHistoryDto { messages, has_more, oldest_id }
    }
}

} // verus!
