use draox_plugins::messaging_api::{
    add_reaction, create_channel, delete_channel, delete_message, edit_message, get_channel, get_message, is_blank,
    seed_system_channel, send_message, set_frozen, subscribe, unsubscribe, ws_action_kind, ws_send_message, ApiError,
    WsAction, SYSTEM_CHANNEL_ID,
};
use draox_plugins::lifecycle::HostError;
use draox_plugins::store::MessageStore;

fn refusal(e: ApiError) -> (u16, String) {
    match e {
        ApiError::Refused { status, message } => (status, message),
        other => panic!("expected a refusal, got {:?}", other),
    }
}

fn store_error(e: ApiError) -> String {
    match e {
        ApiError::Store(HostError::Plugin { message, .. }) => message,
        other => panic!("expected a store error, got {:?}", other),
    }
}

#[test]
fn api_blank_detection() {
    assert!(is_blank(""));
    assert!(is_blank("  \t\n"));
    assert!(!is_blank(" hi "));
}

#[test]
fn api_ws_actions() {
    assert_eq!(ws_action_kind("messaging.send_message").unwrap(), WsAction::SendMessage);
    assert_eq!(ws_action_kind("messaging.subscribe_channel").unwrap(), WsAction::SubscribeChannel);
    assert_eq!(ws_action_kind("messaging.unsubscribe_channel").unwrap(), WsAction::UnsubscribeChannel);
    assert_eq!(ws_action_kind("messaging.typing").unwrap(), WsAction::Typing);
    match ws_action_kind("messaging.fly") {
        Err(HostError::Plugin { plugin_id, message }) => {
            assert_eq!(plugin_id, "io.draox.messaging");
            assert_eq!(message, "unknown messaging action: messaging.fly");
        }
        other => panic!("unexpected {:?}", other),
    }
}

#[test]
fn api_seed_is_idempotent() {
    let mut store = MessageStore::new(10);
    seed_system_channel(&mut store);
    seed_system_channel(&mut store);
    assert_eq!(store.channel_count(), 1);
    let ch = store.get_channel(SYSTEM_CHANNEL_ID).unwrap();
    assert!(ch.is_system);
    assert_eq!(ch.name, "Draox");
    assert_eq!(ch.created_by, "system");
    let (status, message) = refusal(delete_channel(&mut store, SYSTEM_CHANNEL_ID).unwrap_err());
    assert_eq!(status, 403);
    assert_eq!(message, "system channels cannot be deleted");
    let (status, message) = refusal(subscribe(&mut store, SYSTEM_CHANNEL_ID, "cli_bob", false).unwrap_err());
    assert_eq!(status, 403);
    assert_eq!(message, "system channel is admin/operator only");
    assert_eq!(subscribe(&mut store, SYSTEM_CHANNEL_ID, "cli_mod", true).unwrap(), "subscribed to ch_draox");
}

#[test]
fn api_channel_lifecycle() {
    let mut store = MessageStore::new(10);
    let (status, message) = refusal(create_channel(&mut store, "cli_alice", "   ".to_string()).unwrap_err());
    assert_eq!((status, message.as_str()), (400, "channel name must not be empty"));

    let ch = create_channel(&mut store, "cli_alice", "General".to_string()).unwrap();
    assert_eq!(ch.name, "General");
    assert_eq!(get_channel(&store, &ch.id).unwrap().name, "General");
    let (status, message) = refusal(get_channel(&store, "ch_x").unwrap_err());
    assert_eq!((status, message.as_str()), (404, "channel not found: ch_x"));

    assert_eq!(subscribe(&mut store, &ch.id, "cli_bob", false).unwrap(), format!("subscribed to {}", ch.id));
    assert_eq!(unsubscribe(&mut store, &ch.id, "cli_bob").unwrap(), format!("unsubscribed from {}", ch.id));
    assert_eq!(store_error(unsubscribe(&mut store, "ch_x", "cli_bob").unwrap_err()), "channel not found: ch_x");

    let (status, message) = refusal(set_frozen(&mut store, &ch.id, true, false).unwrap_err());
    assert_eq!((status, message.as_str()), (403, "admin role required"));
    assert_eq!(set_frozen(&mut store, &ch.id, true, true).unwrap(), "channel frozen");
    let (status, message) = refusal(subscribe(&mut store, &ch.id, "cli_bob", false).unwrap_err());
    assert_eq!((status, message.as_str()), (403, "channel is frozen"));
    assert_eq!(set_frozen(&mut store, &ch.id, false, true).unwrap(), "channel unfrozen");

    assert_eq!(delete_channel(&mut store, &ch.id).unwrap(), format!("channel {} deleted", ch.id));
    assert_eq!(store_error(delete_channel(&mut store, &ch.id).unwrap_err()), format!("channel not found: {}", ch.id));
}

#[test]
fn api_message_lifecycle() {
    let mut store = MessageStore::new(10);
    let ch = create_channel(&mut store, "cli_alice", "General".to_string()).unwrap();

    let (status, message) = refusal(send_message(&mut store, "cli_alice", ch.id.clone(), " ".to_string(), None).unwrap_err());
    assert_eq!((status, message.as_str()), (400, "text must not be empty"));
    let (status, message) = refusal(send_message(&mut store, "cli_alice", "ch_x".to_string(), "hi".to_string(), None).unwrap_err());
    assert_eq!((status, message.as_str()), (404, "channel not found: ch_x"));

    let m = send_message(&mut store, "cli_alice", ch.id.clone(), "hello".to_string(), None).unwrap();
    assert_eq!(m.from, "cli_alice");
    assert_eq!(get_message(&store, &m.id).unwrap().content, "hello");
    let reply = send_message(&mut store, "cli_bob", ch.id.clone(), "re".to_string(), Some(m.id.clone())).unwrap();
    assert_eq!(reply.reply_to.as_deref(), Some(m.id.as_str()));

    assert_eq!(add_reaction(&mut store, &m.id, "👍".to_string(), "cli_bob".to_string()).unwrap(), "reaction added");
    assert_eq!(store_error(add_reaction(&mut store, "msg_x", "👍".to_string(), "cli_bob".to_string()).unwrap_err()), "message not found: msg_x");

    let (status, _) = refusal(edit_message(&mut store, &m.id, "".to_string()).unwrap_err());
    assert_eq!(status, 400);
    let edited = edit_message(&mut store, &m.id, "hello!".to_string()).unwrap();
    assert!(edited.edited);
    assert_eq!(edited.content, "hello!");

    set_frozen(&mut store, &ch.id, true, true).unwrap();
    let (status, message) = refusal(send_message(&mut store, "cli_alice", ch.id.clone(), "late".to_string(), None).unwrap_err());
    assert_eq!((status, message.as_str()), (403, "channel is frozen"));
    // the WebSocket action does not check for frozen channels
    assert!(ws_send_message(&mut store, "cli_alice", ch.id.clone(), "ws".to_string(), None).is_ok());
    match ws_send_message(&mut store, "cli_alice", ch.id.clone(), "".to_string(), None) {
        Err(HostError::Plugin { message, .. }) => assert_eq!(message, "text must not be empty"),
        other => panic!("unexpected {:?}", other),
    }

    let (text, channel) = delete_message(&mut store, &m.id).unwrap();
    assert_eq!(text, format!("message {} deleted", m.id));
    assert_eq!(channel, ch.id);
    let (status, message) = refusal(get_message(&store, &m.id).unwrap_err());
    assert_eq!((status, message), (404, format!("message not found: {}", m.id)));
}
