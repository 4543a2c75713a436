use draox_plugins::channel::Channel;
use draox_plugins::lifecycle::HostError;
use draox_plugins::messaging_types::{Message, MessageStatus, MessageType};
use draox_plugins::store::{MessageStore, PersistOp};

fn direct(from: &str, to: &str, content: &str) -> Message {
    Message::new(MessageType::Direct, from.to_string(), to.to_string(), content.to_string())
}

fn channel_msg(from: &str, to: &str, content: &str) -> Message {
    Message::new(MessageType::Channel, from.to_string(), to.to_string(), content.to_string())
}

fn error_message(e: HostError) -> (String, String) {
    match e {
        HostError::Plugin { plugin_id, message } => (plugin_id, message),
        other => panic!("unexpected error {:?}", other),
    }
}

#[test]
fn test_store_and_get_message() {
    let mut store = MessageStore::new(1000);
    let msg = direct("cli_alice", "cli_bob", "Hello Bob!");
    let id = store.store_message(msg);
    assert_eq!(store.message_count(), 1);

    let retrieved = store.get_message(&id).unwrap();
    assert_eq!(retrieved.content, "Hello Bob!");
}

#[test]
fn test_client_messages_index() {
    let mut store = MessageStore::new(1000);
    store.store_message(direct("cli_alice", "cli_bob", "Hi Bob!"));
    store.store_message(direct("cli_bob", "cli_alice", "Hi Alice!"));

    let alice_msgs = store.get_client_messages("cli_alice", 10);
    assert_eq!(alice_msgs.len(), 2);

    let bob_msgs = store.get_client_messages("cli_bob", 10);
    assert_eq!(bob_msgs.len(), 2);
}

#[test]
fn test_channel_messaging() {
    let mut store = MessageStore::new(1000);
    let ch_id = store.create_channel("General".to_string(), "cli_alice".to_string());
    assert_eq!(store.channel_count(), 1);

    store.store_message(channel_msg("cli_alice", &ch_id, "Hello channel!"));

    let msgs = store.get_channel_messages(&ch_id, 10);
    assert_eq!(msgs.len(), 1);
}

#[test]
fn test_channel_subscribe_unsubscribe() {
    let mut store = MessageStore::new(1000);
    let ch_id = store.create_channel("General".to_string(), "cli_alice".to_string());
    store.subscribe_channel(&ch_id, "cli_bob").unwrap();

    let ch = store.get_channel(&ch_id).unwrap();
    assert_eq!(ch.subscriber_count(), 2);
    assert!(ch.is_subscribed("cli_bob"));

    store.unsubscribe_channel(&ch_id, "cli_bob").unwrap();
    let ch = store.get_channel(&ch_id).unwrap();
    assert_eq!(ch.subscriber_count(), 1);
}

#[test]
fn test_update_status() {
    let mut store = MessageStore::new(1000);
    let id = store.store_message(direct("cli_alice", "cli_bob", "Hello!"));

    assert_eq!(store.get_message(&id).unwrap().status, MessageStatus::Sent);

    store.update_status(&id, MessageStatus::Delivered).unwrap();
    assert_eq!(store.get_message(&id).unwrap().status, MessageStatus::Delivered);

    store.update_status(&id, MessageStatus::Read).unwrap();
    assert_eq!(store.get_message(&id).unwrap().status, MessageStatus::Read);

    // Updating a non-existent message should fail
    let result = store.update_status("msg_nonexistent", MessageStatus::Failed);
    assert!(result.is_err());
}

#[test]
fn test_search_messages() {
    let mut store = MessageStore::new(1000);
    store.store_message(direct("cli_alice", "cli_bob", "Hello world"));
    store.store_message(direct("cli_alice", "cli_bob", "Goodbye world"));
    store.store_message(direct("cli_alice", "cli_bob", "Something else"));

    let results = store.search_messages("world", 10);
    assert_eq!(results.len(), 2);

    // Case-insensitive
    let results = store.search_messages("WORLD", 10);
    assert_eq!(results.len(), 2);

    // Limit
    let results = store.search_messages("world", 1);
    assert_eq!(results.len(), 1);

    // No results
    let results = store.search_messages("nonexistent", 10);
    assert!(results.is_empty());
}

#[test]
fn test_reactions() {
    let mut store = MessageStore::new(1000);
    let id = store.store_message(direct("cli_alice", "cli_bob", "Hello!"));

    // Add a reaction
    store.add_reaction(&id, "👍".to_string(), "cli_bob".to_string()).unwrap();
    let msg = store.get_message(&id).unwrap();
    assert_eq!(msg.reactions.len(), 1);
    assert_eq!(msg.reactions[0].emoji, "👍");
    assert_eq!(msg.reactions[0].users, vec!["cli_bob"]);

    // Adding the same reaction from the same user should not duplicate
    store.add_reaction(&id, "👍".to_string(), "cli_bob".to_string()).unwrap();
    let msg = store.get_message(&id).unwrap();
    assert_eq!(msg.reactions[0].users.len(), 1);

    // Another user reacts with the same emoji
    store.add_reaction(&id, "👍".to_string(), "cli_charlie".to_string()).unwrap();
    let msg = store.get_message(&id).unwrap();
    assert_eq!(msg.reactions[0].users.len(), 2);

    // Different emoji
    store.add_reaction(&id, "❤️".to_string(), "cli_bob".to_string()).unwrap();
    let msg = store.get_message(&id).unwrap();
    assert_eq!(msg.reactions.len(), 2);

    // Remove a reaction
    store.remove_reaction(&id, "👍", "cli_bob").unwrap();
    let msg = store.get_message(&id).unwrap();
    let thumbs_up = msg.reactions.iter().find(|r| r.emoji == "👍").unwrap();
    assert_eq!(thumbs_up.users.len(), 1);
    assert_eq!(thumbs_up.users[0], "cli_charlie");

    // Reaction on non-existent message should fail
    let result = store.add_reaction("msg_nonexistent", "👍".to_string(), "cli_bob".to_string());
    assert!(result.is_err());
}

#[test]
fn test_threading() {
    let mut store = MessageStore::new(1000);
    let parent_id = store.store_message(channel_msg("cli_alice", "ch_general", "Parent message"));

    // Create replies
    let reply1 = channel_msg("cli_bob", "ch_general", "Reply 1").with_reply_to(parent_id.clone());
    store.store_message(reply1);
    let reply2 = channel_msg("cli_alice", "ch_general", "Reply 2").with_reply_to(parent_id.clone());
    store.store_message(reply2);

    // Unrelated message
    store.store_message(channel_msg("cli_bob", "ch_general", "Unrelated"));

    let thread = store.get_thread(&parent_id, 10);
    assert_eq!(thread.len(), 2);
    assert!(thread.iter().all(|m| m.reply_to.as_deref() == Some(parent_id.as_str())));

    // Limit
    let thread = store.get_thread(&parent_id, 1);
    assert_eq!(thread.len(), 1);

    // No replies to a non-existent parent
    let thread = store.get_thread("msg_nonexistent", 10);
    assert!(thread.is_empty());
}

#[test]
fn test_delete_channel() {
    let mut store = MessageStore::new(1000);
    let ch_id = store.create_channel("General".to_string(), "cli_alice".to_string());
    assert_eq!(store.channel_count(), 1);

    // Add a message to the channel
    store.store_message(channel_msg("cli_alice", &ch_id, "Hello channel!"));
    assert_eq!(store.get_channel_messages(&ch_id, 10).len(), 1);

    // Delete the channel
    store.delete_channel(&ch_id).unwrap();
    assert_eq!(store.channel_count(), 0);
    assert!(store.get_channel(&ch_id).is_none());

    // Channel message index should be removed
    assert!(store.get_channel_messages(&ch_id, 10).is_empty());

    // Deleting a non-existent channel should fail
    let result = store.delete_channel("ch_nonexistent");
    assert!(result.is_err());
}

#[test]
fn store_client_messages_are_newest_first_and_limited() {
    let mut store = MessageStore::new(1000);
    let a = store.store_message(direct("cli_alice", "cli_bob", "one"));
    let b = store.store_message(direct("cli_alice", "cli_bob", "two"));
    let c = store.store_message(direct("cli_alice", "cli_bob", "three"));
    let recent = store.get_client_messages("cli_alice", 2);
    assert_eq!(recent.len(), 2);
    assert_eq!(recent[0].id, c);
    assert_eq!(recent[1].id, b);
    let all = store.get_client_messages("cli_bob", 10);
    let ids: Vec<String> = all.iter().map(|m| m.id.clone()).collect();
    assert_eq!(ids, vec![c, b, a]);
    assert!(store.get_client_messages("cli_nobody", 10).is_empty());
}

#[test]
fn store_message_to_self_is_indexed_twice() {
    let mut store = MessageStore::new(10);
    let id = store.store_message(direct("cli_alice", "cli_alice", "note to self"));
    let mine = store.get_client_messages("cli_alice", 10);
    assert_eq!(mine.len(), 2);
    assert_eq!(mine[0].id, id);
    assert_eq!(mine[1].id, id);
}

#[test]
fn store_same_id_replaces_message_and_counts_both() {
    let mut store = MessageStore::new(10);
    let first = Message::create("msg_1".to_string(), MessageType::Broadcast, "cli_a".to_string(), "all".to_string(), "v1".to_string(), 5);
    let second = Message::create("msg_1".to_string(), MessageType::Broadcast, "cli_a".to_string(), "all".to_string(), "v2".to_string(), 6);
    store.store_message(first);
    store.store_message(second);
    assert_eq!(store.message_count(), 2);
    assert_eq!(store.get_message("msg_1").unwrap().content, "v2");
    assert_eq!(store.search_messages("v", 10).len(), 1);
    assert_eq!(store.max_messages(), 10);
}

#[test]
fn store_errors_name_the_missing_id() {
    let mut store = MessageStore::new(10);
    let (plugin, message) = error_message(store.delete_message("msg_x").unwrap_err());
    assert_eq!(plugin, "io.draox.messaging");
    assert_eq!(message, "message not found: msg_x");
    let (_, message) = error_message(store.set_channel_frozen("ch_x", true).unwrap_err());
    assert_eq!(message, "channel not found: ch_x");
    store.create_channel_with_id("ch_x".to_string(), "X".to_string(), "cli_a".to_string(), false).unwrap();
    let (_, message) = error_message(
        store.create_channel_with_id("ch_x".to_string(), "Y".to_string(), "cli_a".to_string(), true).unwrap_err(),
    );
    assert_eq!(message, "channel already exists: ch_x");
    assert_eq!(store.get_channel("ch_x").unwrap().name, "X");
}

#[test]
fn store_edit_and_delete_message() {
    let mut store = MessageStore::new(10);
    let id = store.store_message(direct("cli_alice", "cli_bob", "draft"));
    let edited = store.edit_message_at(&id, "final".to_string(), 1234).unwrap();
    assert_eq!(edited.content, "final");
    assert!(edited.edited);
    assert_eq!(edited.edited_at, Some(1234));
    let now = store.edit_message(&id, "again".to_string()).unwrap();
    assert!(now.edited_at.is_some());
    assert_eq!(store.get_message(&id).unwrap().content, "again");
    store.delete_message(&id).unwrap();
    assert!(store.get_message(&id).is_none());
    assert!(store.edit_message(&id, "x".to_string()).is_err());
    // the client log keeps the id, but nothing resolves it any more
    assert!(store.get_client_messages("cli_alice", 10).is_empty());
}

#[test]
fn store_reaction_withdrawn_leaves_empty_reaction() {
    let mut store = MessageStore::new(10);
    let id = store.store_message(direct("cli_alice", "cli_bob", "hi"));
    store.add_reaction(&id, "🎉".to_string(), "cli_bob".to_string()).unwrap();
    store.remove_reaction(&id, "🎉", "cli_bob").unwrap();
    let msg = store.get_message(&id).unwrap();
    assert_eq!(msg.reactions.len(), 1);
    assert!(msg.reactions[0].users.is_empty());
    // withdrawing an emoji nobody used changes nothing
    store.remove_reaction(&id, "👀", "cli_bob").unwrap();
    assert_eq!(store.get_message(&id).unwrap().reactions.len(), 1);
}

#[test]
fn store_queues_channel_writes_once_attached() {
    let mut store = MessageStore::new(10);
    store.create_channel_with_id("ch_quiet".to_string(), "Quiet".to_string(), "cli_a".to_string(), false).unwrap();
    assert!(store.take_persist_ops().is_empty());

    store.attach_storage();
    store.create_channel_with_id("ch_persist".to_string(), "Persist".to_string(), "cli_alice".to_string(), true).unwrap();
    store.subscribe_channel("ch_persist", "cli_bob").unwrap();
    store.set_channel_frozen("ch_persist", true).unwrap();
    store.delete_channel("ch_quiet").unwrap();
    let ops = store.take_persist_ops();
    assert_eq!(
        ops,
        vec![
            PersistOp::Save("ch_persist".to_string()),
            PersistOp::Save("ch_persist".to_string()),
            PersistOp::Save("ch_persist".to_string()),
            PersistOp::Delete("ch_quiet".to_string()),
        ]
    );
    assert!(store.take_persist_ops().is_empty());

    let ch = store.get_channel("ch_persist").unwrap();
    assert!(ch.is_system);
    assert!(ch.frozen);
    assert!(ch.is_subscribed("cli_bob"));
}

#[test]
fn store_load_channel_restores_row() {
    let mut source = MessageStore::new(10);
    source.create_channel_with_id("ch_persist".to_string(), "Persist".to_string(), "cli_alice".to_string(), true).unwrap();
    source.subscribe_channel("ch_persist", "cli_bob").unwrap();
    source.set_channel_frozen("ch_persist", true).unwrap();
    let row: Channel = source.get_channel("ch_persist").unwrap();
    assert!(row.is_well_formed());

    let mut fresh = MessageStore::new(10);
    fresh.load_channel(row);
    assert_eq!(fresh.channel_count(), 1);
    let ch = fresh.get_channel("ch_persist").unwrap();
    assert_eq!(ch.name, "Persist");
    assert!(ch.is_system);
    assert!(ch.frozen);
    assert!(ch.is_subscribed("cli_bob"));
    assert!(fresh.take_persist_ops().is_empty());
    assert_eq!(fresh.list_channels().len(), 1);
}

#[test]
fn store_channel_ids_are_prefixed() {
    let mut store = MessageStore::new(10);
    let id = store.create_channel("General".to_string(), "cli_alice".to_string());
    assert!(id.starts_with("ch_"));
    assert_eq!(id.len(), 35);
    let ch = store.get_channel(&id).unwrap();
    assert_eq!(ch.created_by, "cli_alice");
    assert!(!ch.is_system);
    assert!(!ch.frozen);
}
