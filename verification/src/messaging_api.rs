//! What the messaging plugin's HTTP endpoints and WebSocket actions decide:
//! the checks made on each request, the store operation it performs, and
//! the status and text of each refusal.
use vstd::prelude::*;
use crate::channel::{id_set, same_channel, Channel};
use crate::lifecycle::HostError;
use crate::messaging_types::{same_message, Message, MessageType};
use crate::store::{fresh_channel, messaging_error, MessageStore};
use crate::text::{chars_of, push_str, trim, trim_chars};

verus! {

/// Id of the messaging plugin.
pub const PLUGIN_ID: &'static str = "io.draox.messaging";

/// Stable id of the pre-seeded system channel.
pub const SYSTEM_CHANNEL_ID: &'static str = "ch_draox";

/// Display name of the pre-seeded system channel.
pub const SYSTEM_CHANNEL_NAME: &'static str = "Draox";

/// A refused request.
#[derive(Debug)]
pub enum ApiError {
    /// Refused before reaching the store, with this HTTP status and text.
    Refused { status: u16, message: String },
    /// Refused by the store; answered with status 404 and the error's text.
    Store(HostError),
}

/// `e` refuses the request with `status` and the text `msg`.
pub open spec fn refused(e: ApiError, status: u16, msg: Seq<char>) -> bool {
    match e {
        ApiError::Refused { status: s, message } => s == status && message@ == msg,
        _ => false,
    }
}

fn refuse(status: u16, message: &str) -> (e: ApiError)
    ensures
        refused(e, status, message@),
{
    ApiError::Refused { status, message: message.to_string() }
}

fn refuse_with(status: u16, what: &str, id: &str) -> (e: ApiError)
    ensures
        refused(e, status, what@ + id@),
{
    let mut message = String::new();
    push_str(&mut message, what);
    push_str(&mut message, id);
    ApiError::Refused { status, message }
}

/// Whether `s` is empty once surrounding white space is trimmed.
pub fn is_blank(s: &str) -> (b: bool)
    ensures
        b == (trim(s@).len() == 0),
{
    let c = chars_of(s);
    trim_chars(&c).len() == 0
}

/// `what` followed by `id`.
fn text_with(what: &str, id: &str) -> (s: String)
    ensures
        s@ == what@ + id@,
{
    let mut s = String::new();
    push_str(&mut s, what);
    push_str(&mut s, id);
    s
}

/// A WebSocket action of the messaging plugin.
#[derive(Debug, Clone, Copy, PartialEq, Eq, Structural)]
pub enum WsAction {
    SendMessage,
    SubscribeChannel,
    UnsubscribeChannel,
    Typing,
}

/// The action named `action`; fails for a name the plugin does not know.
pub fn ws_action_kind(action: &str) -> (r: Result<WsAction, HostError>)
    ensures
        action@ == "messaging.send_message"@ <==> r == Ok::<WsAction, HostError>(WsAction::SendMessage),
        action@ == "messaging.subscribe_channel"@ <==> r == Ok::<WsAction, HostError>(WsAction::SubscribeChannel),
        action@ == "messaging.unsubscribe_channel"@ <==> r == Ok::<WsAction, HostError>(WsAction::UnsubscribeChannel),
        action@ == "messaging.typing"@ <==> r == Ok::<WsAction, HostError>(WsAction::Typing),
        r matches Err(e) ==> messaging_error(e, "unknown messaging action: "@ + action@),
{
    proof {
        reveal_strlit("messaging.send_message");
        reveal_strlit("messaging.subscribe_channel");
        reveal_strlit("messaging.unsubscribe_channel");
        reveal_strlit("messaging.typing");
        assert("messaging.send_message"@.len() == 22);
        assert("messaging.subscribe_channel"@.len() == 27);
        assert("messaging.unsubscribe_channel"@.len() == 29);
        assert("messaging.typing"@.len() == 16);
    }
    if crate::text::str_equal(action, "messaging.send_message") {
        Ok(WsAction::SendMessage)
    } else if crate::text::str_equal(action, "messaging.subscribe_channel") {
        Ok(WsAction::SubscribeChannel)
    } else if crate::text::str_equal(action, "messaging.unsubscribe_channel") {
        Ok(WsAction::UnsubscribeChannel)
    } else if crate::text::str_equal(action, "messaging.typing") {
        Ok(WsAction::Typing)
    } else {
        Err(HostError::Plugin { plugin_id: PLUGIN_ID.to_string(), message: text_with("unknown messaging action: ", action) })
    }
}

/// Creates the system channel (`ch_draox`, "Draox", created by `system`)
/// unless it exists; calling it again changes nothing.
pub fn seed_system_channel(store: &mut MessageStore)
    requires
        old(store).wf(),
    ensures
        final(store).wf(),
        final(store).channel(SYSTEM_CHANNEL_ID@) is Some,
        old(store).channel(SYSTEM_CHANNEL_ID@) is Some ==> *final(store) == *old(store),
        old(store).channel(SYSTEM_CHANNEL_ID@) is None ==> ({
            let c = final(store).chans().last();
            &&& final(store).chans() == old(store).chans().push(c)
            &&& c.id@ == SYSTEM_CHANNEL_ID@
            &&& c.name@ == SYSTEM_CHANNEL_NAME@
            &&& c.created_by@ == "system"@
            &&& c.is_system
        }),
{
    if store.get_channel(SYSTEM_CHANNEL_ID).is_some() {
        return;
    }
    let r = store.create_channel_with_id(SYSTEM_CHANNEL_ID.to_string(), SYSTEM_CHANNEL_NAME.to_string(), "system".to_string(), true);
    proof {
        reveal_strlit("system");
        store.lemma_wf();
        crate::keyed::lemma_position_at(store.chans(), store.chans().len() - 1);
    }
}

/// `POST /api/channels`: creates a channel named `name` by `user_id`;
/// refused with 400 when the name is blank.
pub fn create_channel(store: &mut MessageStore, user_id: &str, name: String) -> (r: Result<Channel, ApiError>)
    requires
        old(store).wf(),
    ensures
        final(store).wf(),
        trim(name@).len() == 0 ==> (r matches Err(e) && refused(e, 400, "channel name must not be empty"@) && *final(store) == *old(store)),
        trim(name@).len() != 0 ==> (r matches Ok(c) && fresh_channel(c, c.id@, name@, user_id@) && !c.is_system
            && final(store).channel(c.id@) is Some && same_channel(c, final(store).channel(c.id@)->Some_0)),
{
    if is_blank(name.as_str()) {
        return Err(refuse(400, "channel name must not be empty"));
    }
    let id = store.create_channel(name, user_id.to_string());
    match store.get_channel(id.as_str()) {
        Some(c) => Ok(c),
        None => Err(refuse(500, "failed to retrieve created channel")),
    }
}

/// `DELETE /api/channels/{id}`: deletes a channel; the system channel is
/// refused with 403, an unknown one by the store.
pub fn delete_channel(store: &mut MessageStore, channel_id: &str) -> (r: Result<String, ApiError>)
    requires
        old(store).wf(),
    ensures
        final(store).wf(),
        match old(store).channel(channel_id@) {
            None => r matches Err(ApiError::Store(e)) && messaging_error(e, "channel not found: "@ + channel_id@) && *final(store) == *old(store),
            Some(c) => if c.is_system {
                r matches Err(e) && refused(e, 403, "system channels cannot be deleted"@) && *final(store) == *old(store)
            } else {
                r matches Ok(m) && m@ == "channel "@ + channel_id@ + " deleted"@ && final(store).channel(channel_id@) is None
            },
        },
{
    if let Some(c) = store.get_channel(channel_id) {
        if c.is_system {
            return Err(refuse(403, "system channels cannot be deleted"));
        }
    }
    match store.delete_channel(channel_id) {
        Ok(()) => {
            let mut m = text_with("channel ", channel_id);
            push_str(&mut m, " deleted");
            Ok(m)
        },
        Err(e) => Err(ApiError::Store(e)),
    }
}

/// `POST /api/channels/{id}/subscribe`: subscribes `user_id`; the system
/// channel needs a moderator (403), a frozen channel takes no one (403),
/// an unknown one is refused by the store.
pub fn subscribe(store: &mut MessageStore, channel_id: &str, user_id: &str, can_moderate: bool) -> (r: Result<String, ApiError>)
    requires
        old(store).wf(),
    ensures
        final(store).wf(),
        match old(store).channel(channel_id@) {
            None => r matches Err(ApiError::Store(e)) && messaging_error(e, "channel not found: "@ + channel_id@) && *final(store) == *old(store),
            Some(c) => if c.is_system && !can_moderate {
                r matches Err(e) && refused(e, 403, "system channel is admin/operator only"@) && *final(store) == *old(store)
            } else if c.frozen {
                r matches Err(e) && refused(e, 403, "channel is frozen"@) && *final(store) == *old(store)
            } else {
                &&& r matches Ok(m) && m@ == "subscribed to "@ + channel_id@
                &&& final(store).channel(channel_id@) is Some
                &&& id_set(final(store).channel(channel_id@)->Some_0.subscribers@) == id_set(c.subscribers@).insert(user_id@)
            },
        },
{
    if let Some(c) = store.get_channel(channel_id) {
        if c.is_system && !can_moderate {
            return Err(refuse(403, "system channel is admin/operator only"));
        }
        if c.frozen {
            return Err(refuse(403, "channel is frozen"));
        }
    }
    let ghost before = *store;
    match store.subscribe_channel(channel_id, user_id) {
        Ok(()) => {
            proof {
                before.lemma_wf();
                store.lemma_wf();
                let k = crate::keyed::position_in(before.chans(), channel_id@)->Some_0;
                crate::keyed::lemma_position_at(store.chans(), k);
            }
            Ok(text_with("subscribed to ", channel_id))
        },
        Err(e) => Err(ApiError::Store(e)),
    }
}

/// `POST /api/channels/{id}/unsubscribe`: unsubscribes `user_id`; an
/// unknown channel is refused by the store.
pub fn unsubscribe(store: &mut MessageStore, channel_id: &str, user_id: &str) -> (r: Result<String, ApiError>)
    requires
        old(store).wf(),
    ensures
        final(store).wf(),
        match old(store).channel(channel_id@) {
            None => r matches Err(ApiError::Store(e)) && messaging_error(e, "channel not found: "@ + channel_id@) && *final(store) == *old(store),
            Some(c) => {
                &&& r matches Ok(m) && m@ == "unsubscribed from "@ + channel_id@
                &&& final(store).channel(channel_id@) is Some
                &&& id_set(final(store).channel(channel_id@)->Some_0.subscribers@) == id_set(c.subscribers@).remove(user_id@)
            },
        },
{
    let ghost before = *store;
    match store.unsubscribe_channel(channel_id, user_id) {
        Ok(()) => {
            proof {
                before.lemma_wf();
                store.lemma_wf();
                let k = crate::keyed::position_in(before.chans(), channel_id@)->Some_0;
                crate::keyed::lemma_position_at(store.chans(), k);
            }
            Ok(text_with("unsubscribed from ", channel_id))
        },
        Err(e) => Err(ApiError::Store(e)),
    }
}

/// The message a client posts to a channel.
fn post(store: &mut MessageStore, user_id: &str, channel_id: String, text: String, reply_to: Option<String>) -> (m: Message)
    requires
        old(store).wf(),
    ensures
        final(store).wf(),
        m.message_type == MessageType::Channel,
        m.from@ == user_id@,
        m.to == channel_id,
        m.content == text,
        m.reply_to == reply_to,
        final(store).message(m.id@) is Some,
        same_message(m, final(store).message(m.id@)->Some_0),
        final(store).chans() == old(store).chans(),
{
    let mut msg = Message::new(MessageType::Channel, user_id.to_string(), channel_id, text);
    if let Some(parent) = reply_to {
        msg = msg.with_reply_to(parent);
    }
    let copy = msg.duplicate();
    store.store_message(msg);
    copy
}

/// `POST /api/messages/send`: posts `text` by `user_id` to a channel;
/// refused with 400 for blank text, 404 for an unknown channel, 403 for a
/// frozen one.
pub fn send_message(store: &mut MessageStore, user_id: &str, channel_id: String, text: String, reply_to: Option<String>) -> (r: Result<Message, ApiError>)
    requires
        old(store).wf(),
    ensures
        final(store).wf(),
        trim(text@).len() == 0 ==> (r matches Err(e) && refused(e, 400, "text must not be empty"@)),
        trim(text@).len() != 0 && old(store).channel(channel_id@) is None ==> (r matches Err(e) && refused(e, 404, "channel not found: "@ + channel_id@)),
        trim(text@).len() != 0 && (old(store).channel(channel_id@) matches Some(c) && c.frozen) ==> (r matches Err(e) && refused(e, 403, "channel is frozen"@)),
        r is Err ==> *final(store) == *old(store),
        r is Ok <==> (trim(text@).len() != 0 && (old(store).channel(channel_id@) matches Some(c) && !c.frozen)),
        r matches Ok(m) ==> m.message_type == MessageType::Channel && m.from@ == user_id@ && m.to == channel_id && m.content == text
            && m.reply_to == reply_to && final(store).message(m.id@) is Some && same_message(m, final(store).message(m.id@)->Some_0),
{
    if is_blank(text.as_str()) {
        return Err(refuse(400, "text must not be empty"));
    }
    match store.get_channel(channel_id.as_str()) {
        None => return Err(refuse_with(404, "channel not found: ", channel_id.as_str())),
        Some(c) => {
            if c.frozen {
                return Err(refuse(403, "channel is frozen"));
            }
        },
    }
    Ok(post(store, user_id, channel_id, text, reply_to))
}

/// The WebSocket action `messaging.send_message`: posts `text` by
/// `user_id` to a channel; refused for blank text or an unknown channel
/// (a frozen channel is not checked here).
pub fn ws_send_message(store: &mut MessageStore, user_id: &str, channel_id: String, text: String, reply_to: Option<String>) -> (r: Result<Message, HostError>)
    requires
        old(store).wf(),
    ensures
        final(store).wf(),
        trim(text@).len() == 0 ==> (r matches Err(e) && messaging_error(e, "text must not be empty"@)),
        trim(text@).len() != 0 && old(store).channel(channel_id@) is None ==> (r matches Err(e) && messaging_error(e, "channel not found: "@ + channel_id@)),
        r is Err ==> *final(store) == *old(store),
        r is Ok <==> (trim(text@).len() != 0 && old(store).channel(channel_id@) is Some),
        r matches Ok(m) ==> m.message_type == MessageType::Channel && m.from@ == user_id@ && m.to == channel_id && m.content == text
            && m.reply_to == reply_to && final(store).message(m.id@) is Some && same_message(m, final(store).message(m.id@)->Some_0),
{
    if is_blank(text.as_str()) {
        return Err(HostError::Plugin { plugin_id: PLUGIN_ID.to_string(), message: "text must not be empty".to_string() });
    }
    if store.get_channel(channel_id.as_str()).is_none() {
        return Err(HostError::Plugin { plugin_id: PLUGIN_ID.to_string(), message: text_with("channel not found: ", channel_id.as_str()) });
    }
    Ok(post(store, user_id, channel_id, text, reply_to))
}

/// `GET /api/channels/{id}`: a copy of the channel; 404 when unknown.
pub fn get_channel(store: &MessageStore, channel_id: &str) -> (r: Result<Channel, ApiError>)
    requires
        store.wf(),
    ensures
        r is Ok <==> store.channel(channel_id@) is Some,
        r matches Ok(c) ==> same_channel(c, store.channel(channel_id@)->Some_0),
        r matches Err(e) ==> refused(e, 404, "channel not found: "@ + channel_id@),
{
    match store.get_channel(channel_id) {
        Some(c) => Ok(c),
        None => Err(refuse_with(404, "channel not found: ", channel_id)),
    }
}

/// `GET /api/messages/{id}`: a copy of the message; 404 when unknown.
pub fn get_message(store: &MessageStore, message_id: &str) -> (r: Result<Message, ApiError>)
    requires
        store.wf(),
    ensures
        r is Ok <==> store.message(message_id@) is Some,
        r matches Ok(m) ==> same_message(m, store.message(message_id@)->Some_0),
        r matches Err(e) ==> refused(e, 404, "message not found: "@ + message_id@),
{
    match store.get_message(message_id) {
        Some(m) => Ok(m),
        None => Err(refuse_with(404, "message not found: ", message_id)),
    }
}

/// `DELETE /api/messages/{id}`: deletes a message; returns the reply text
/// and the id of the channel (recipient) the message was sent to.
pub fn delete_message(store: &mut MessageStore, message_id: &str) -> (r: Result<(String, String), ApiError>)
    requires
        old(store).wf(),
    ensures
        final(store).wf(),
        match old(store).message(message_id@) {
            None => r matches Err(ApiError::Store(e)) && messaging_error(e, "message not found: "@ + message_id@) && *final(store) == *old(store),
            Some(m) => r matches Ok((text, to)) && text@ == "message "@ + message_id@ + " deleted"@ && to == m.to
                && final(store).message(message_id@) is None,
        },
{
    let to = match store.get_message(message_id) {
        Some(m) => m.to,
        None => String::new(),
    };
    match store.delete_message(message_id) {
        Ok(()) => {
            let mut text = text_with("message ", message_id);
            push_str(&mut text, " deleted");
            Ok((text, to))
        },
        Err(e) => Err(ApiError::Store(e)),
    }
}

/// `PATCH /api/messages/{id}`: replaces a message's text; refused with 400
/// for blank text, and by the store for an unknown message.
pub fn edit_message(store: &mut MessageStore, message_id: &str, text: String) -> (r: Result<Message, ApiError>)
    requires
        old(store).wf(),
    ensures
        final(store).wf(),
        trim(text@).len() == 0 ==> (r matches Err(e) && refused(e, 400, "text must not be empty"@) && *final(store) == *old(store)),
        trim(text@).len() != 0 && old(store).message(message_id@) is None ==> (r matches Err(ApiError::Store(e))
            && messaging_error(e, "message not found: "@ + message_id@) && *final(store) == *old(store)),
        trim(text@).len() != 0 && old(store).message(message_id@) is Some ==> (r matches Ok(m) && m.content == text && m.edited
            && m.edited_at is Some && m.id@ == message_id@),
{
    if is_blank(text.as_str()) {
        return Err(refuse(400, "text must not be empty"));
    }
    let ghost before = *store;
    match store.edit_message(message_id, text) {
        Ok(m) => {
            proof {
                before.lemma_wf();
                let k = crate::keyed::position_in(before.msgs(), message_id@)->Some_0;
                assert(before.msgs()[k].id@ == message_id@);
            }
            Ok(m)
        },
        Err(e) => Err(ApiError::Store(e)),
    }
}

/// `POST /api/messages/{id}/react`: `user_id` reacts with `emoji`; an
/// unknown message is refused by the store.
pub fn add_reaction(store: &mut MessageStore, message_id: &str, emoji: String, user_id: String) -> (r: Result<String, ApiError>)
    requires
        old(store).wf(),
    ensures
        final(store).wf(),
        r is Ok <==> old(store).message(message_id@) is Some,
        r matches Ok(m) ==> m@ == "reaction added"@,
        r matches Err(e) ==> (e matches ApiError::Store(h) && messaging_error(h, "message not found: "@ + message_id@)) && *final(store) == *old(store),
{
    match store.add_reaction(message_id, emoji, user_id) {
        Ok(()) => Ok("reaction added".to_string()),
        Err(e) => Err(ApiError::Store(e)),
    }
}

/// `POST /api/channels/{id}/freeze` and `/unfreeze`: admins only (403
/// otherwise); an unknown channel is refused by the store.
pub fn set_frozen(store: &mut MessageStore, channel_id: &str, frozen: bool, is_admin: bool) -> (r: Result<String, ApiError>)
    requires
        old(store).wf(),
    ensures
        final(store).wf(),
        !is_admin ==> (r matches Err(e) && refused(e, 403, "admin role required"@) && *final(store) == *old(store)),
        is_admin && old(store).channel(channel_id@) is None ==> (r matches Err(ApiError::Store(e))
            && messaging_error(e, "channel not found: "@ + channel_id@) && *final(store) == *old(store)),
        is_admin && old(store).channel(channel_id@) is Some ==> (r matches Ok(m) && m@ == if frozen { "channel frozen"@ } else { "channel unfrozen"@ }
            && final(store).channel(channel_id@) is Some && final(store).channel(channel_id@)->Some_0.frozen == frozen),
{
    if !is_admin {
        return Err(refuse(403, "admin role required"));
    }
    let ghost before = *store;
    match store.set_channel_frozen(channel_id, frozen) {
        Ok(()) => {
            proof {
                before.lemma_wf();
                store.lemma_wf();
                let k = crate::keyed::position_in(before.chans(), channel_id@)->Some_0;
                crate::keyed::lemma_position_at(store.chans(), k);
            }
            if frozen {
                Ok("channel frozen".to_string())
            } else {
                Ok("channel unfrozen".to_string())
            }
        },
        Err(e) => Err(ApiError::Store(e)),
    }
}

} // verus!
