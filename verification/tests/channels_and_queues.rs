use draox_plugins::channel::Channel;
use draox_plugins::messaging_types::{ChannelType, ContentType, Message, MessageStatus, MessageType};
use draox_plugins::offline_queue::OfflineQueue;

fn make_message(from: &str, to: &str, content: &str) -> Message {
    Message::new(MessageType::Direct, from.to_string(), to.to_string(), content.to_string())
}

#[test]
fn test_message_creation() {
    let msg = Message::new(MessageType::Direct, "cli_alice".to_string(), "cli_bob".to_string(), "Hello!".to_string());
    assert!(msg.id.starts_with("msg_"));
    assert_eq!(msg.message_type, MessageType::Direct);
    assert_eq!(msg.content, "Hello!");
    assert_eq!(msg.status, MessageStatus::Sent);
    assert_eq!(msg.content_type, ContentType::Text);
    assert!(msg.reactions.is_empty());
    assert!(msg.reply_to.is_none());
    assert!(!msg.edited);
    assert!(msg.edited_at.is_none());
}

#[test]
fn test_system_message() {
    let msg = Message::system("cli_alice".to_string(), "Welcome!".to_string());
    assert_eq!(msg.message_type, MessageType::System);
    assert_eq!(msg.from.as_str(), "system");
}

#[test]
fn test_message_with_reply() {
    let original = make_message("cli_alice", "cli_bob", "Original message");
    let original_id = original.id.clone();
    let reply = make_message("cli_bob", "cli_alice", "Reply message").with_reply_to(original_id.clone());
    assert_eq!(reply.reply_to, Some(original_id));
    assert_eq!(reply.content, "Reply message");
}

#[test]
fn test_message_with_content_type() {
    let msg = make_message("cli_alice", "cli_bob", "image_url").with_content_type(ContentType::Image);
    assert_eq!(msg.content_type, ContentType::Image);
    assert_eq!(msg.content, "image_url");
}

#[test]
fn message_ids_are_fresh() {
    let a = make_message("a", "b", "x");
    let b = make_message("a", "b", "x");
    assert_ne!(a.id, b.id);
    assert_eq!(a.id.len(), 36);
}

#[test]
fn test_channel_creation() {
    let ch = Channel::new("ch_1".to_string(), "General".to_string(), "cli_alice".to_string());
    assert_eq!(ch.name, "General");
    assert!(ch.is_subscribed("cli_alice"));
    assert_eq!(ch.subscriber_count(), 1);
    assert_eq!(ch.channel_type, ChannelType::Public);
    assert!(ch.topic.is_empty());
    assert!(ch.pinned_messages.is_empty());
}

#[test]
fn test_subscribe_unsubscribe() {
    let mut ch = Channel::new("ch_1".to_string(), "General".to_string(), "cli_alice".to_string());
    assert!(ch.subscribe("cli_bob"));
    assert_eq!(ch.subscriber_count(), 2);
    assert!(ch.is_subscribed("cli_bob"));
    assert!(!ch.subscribe("cli_bob"));
    assert_eq!(ch.subscriber_count(), 2);

    assert!(ch.unsubscribe("cli_bob"));
    assert_eq!(ch.subscriber_count(), 1);
    assert!(!ch.is_subscribed("cli_bob"));
    assert!(!ch.unsubscribe("cli_bob"));
}

#[test]
fn test_channel_type() {
    let ct = ChannelType::default();
    assert_eq!(ct, ChannelType::Public);
    let mut ch = Channel::new("ch_1".to_string(), "Announcements".to_string(), "cli_alice".to_string());
    assert!(!ch.is_announcement());
    ch.channel_type = ChannelType::Announcement;
    assert!(ch.is_announcement());
}

#[test]
fn test_pin_unpin() {
    let mut ch = Channel::new("ch_1".to_string(), "General".to_string(), "cli_alice".to_string());
    ch.pin_message("msg_001".to_string());
    assert_eq!(ch.pinned_messages.len(), 1);
    ch.pin_message("msg_001".to_string());
    assert_eq!(ch.pinned_messages.len(), 1);
    ch.pin_message("msg_002".to_string());
    assert_eq!(ch.pinned_messages.len(), 2);
    ch.unpin_message("msg_001");
    assert_eq!(ch.pinned_messages.len(), 1);
    assert_eq!(ch.pinned_messages[0], "msg_002");
    ch.unpin_message("msg_999");
    assert_eq!(ch.pinned_messages.len(), 1);
}

#[test]
fn test_topic() {
    let mut ch = Channel::new("ch_1".to_string(), "General".to_string(), "cli_alice".to_string());
    assert!(ch.topic.is_empty());
    ch.set_topic("Welcome to the general channel".to_string());
    assert_eq!(ch.topic, "Welcome to the general channel");
    ch.set_topic("Updated topic".to_string());
    assert_eq!(ch.topic, "Updated topic");
}

#[test]
fn test_enqueue_and_drain() {
    let mut queue = OfflineQueue::new(100);
    queue.enqueue("cli_bob", make_message("cli_alice", "cli_bob", "Hello Bob!"));
    queue.enqueue("cli_bob", make_message("cli_alice", "cli_bob", "Are you there?"));
    assert_eq!(queue.queue_size("cli_bob"), 2);

    let messages = queue.drain("cli_bob");
    assert_eq!(messages.len(), 2);
    assert_eq!(messages[0].content, "Hello Bob!");
    assert_eq!(messages[1].content, "Are you there?");

    assert_eq!(queue.queue_size("cli_bob"), 0);
    assert!(queue.drain("cli_bob").is_empty());
}

#[test]
fn test_max_queue_eviction() {
    let mut queue = OfflineQueue::new(3);
    for k in 1..=5 {
        queue.enqueue("cli_bob", make_message("cli_alice", "cli_bob", &format!("Message {}", k)));
    }
    assert_eq!(queue.queue_size("cli_bob"), 3);
    let messages = queue.drain("cli_bob");
    assert_eq!(messages.len(), 3);
    assert_eq!(messages[0].content, "Message 3");
    assert_eq!(messages[1].content, "Message 4");
    assert_eq!(messages[2].content, "Message 5");
}

#[test]
fn test_peek_without_removing() {
    let mut queue = OfflineQueue::new(100);
    queue.enqueue("cli_bob", make_message("cli_alice", "cli_bob", "Hello!"));
    queue.enqueue("cli_bob", make_message("cli_alice", "cli_bob", "World!"));

    let peeked = queue.peek("cli_bob", 1);
    assert_eq!(peeked.len(), 1);
    assert_eq!(peeked[0].content, "Hello!");
    assert_eq!(queue.queue_size("cli_bob"), 2);
    let peeked_all = queue.peek("cli_bob", 10);
    assert_eq!(peeked_all.len(), 2);
}

#[test]
fn test_has_messages() {
    let mut queue = OfflineQueue::new(100);
    assert!(!queue.has_messages("cli_bob"));
    queue.enqueue("cli_bob", make_message("cli_alice", "cli_bob", "Hello!"));
    assert!(queue.has_messages("cli_bob"));
    assert!(!queue.has_messages("cli_alice"));
}

#[test]
fn test_total_queued_count() {
    let mut queue = OfflineQueue::new(100);
    assert_eq!(queue.total_queued(), 0);
    assert_eq!(queue.user_count(), 0);
    queue.enqueue("cli_bob", make_message("cli_alice", "cli_bob", "Msg 1"));
    queue.enqueue("cli_bob", make_message("cli_alice", "cli_bob", "Msg 2"));
    queue.enqueue("cli_charlie", make_message("cli_alice", "cli_charlie", "Msg 3"));
    assert_eq!(queue.total_queued(), 3);
    assert_eq!(queue.user_count(), 2);
    queue.drain("cli_bob");
    assert_eq!(queue.total_queued(), 1);
    assert_eq!(queue.user_count(), 1);
}

#[test]
fn zero_limit_keeps_nothing() {
    let mut queue = OfflineQueue::new(0);
    queue.enqueue("u", make_message("a", "u", "dropped"));
    assert_eq!(queue.queue_size("u"), 0);
}
