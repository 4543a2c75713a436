use draox_plugins::channel::Channel;
use draox_plugins::http_api::{ChannelDto, MessageDto};
use draox_plugins::messaging_types::{ChannelType, Message, MessageReaction, MessageType};

#[test]
fn channel_dto_fields() {
    let mut c = Channel::new("ch-1".to_string(), "general".to_string(), "alice".to_string());
    c.created_at = 0;
    c.channel_type = ChannelType::Announcement;
    c.subscribers = vec!["a".to_string(), "b".to_string()];
    let d = ChannelDto::from_channel(c);
    assert_eq!(d.id, "ch-1");
    assert_eq!(d.created_by, "alice");
    assert_eq!(d.created_at, "1970-01-01T00:00:00+00:00");
    assert_eq!(d.channel_type, "Announcement");
    assert_eq!(d.member_count, 2);
}

#[test]
fn message_dto_fields() {
    let mut m = Message::create(
        "m-1".to_string(),
        MessageType::Channel,
        "bob".to_string(),
        "ch-1".to_string(),
        "hi".to_string(),
        1_700_000_000_123,
    );
    m.edited_at = Some(1_700_000_060_000);
    m.reactions = vec![MessageReaction { emoji: "👍".to_string(), users: vec!["a".to_string()] }];
    let d = MessageDto::from_message(m);
    assert_eq!(d.channel_id, "ch-1");
    assert_eq!(d.sender_id, "bob");
    assert_eq!(d.sent_at, "2023-11-14T22:13:20.123+00:00");
    assert_eq!(d.edited_at.as_deref(), Some("2023-11-14T22:14:20+00:00"));
    assert_eq!(d.reactions.len(), 1);
    assert_eq!(d.reactions[0].users, vec!["a".to_string()]);
}
