use draox_plugins::db_schema::{messaging_schemas, schema_for, table_names};
use draox_plugins::events::MessagingEvent;
use draox_plugins::http_api::{messaging_routes, HistoryQuery, MessageDto, MessageHistoryDto};
use draox_plugins::messaging_types::{ChannelType, ContentType, PresenceStatus};

#[test]
fn test_event_type_tags_are_correct() {
    let events: Vec<(MessagingEvent, &str)> = vec![
        (
            MessagingEvent::MessageSent {
                message_id: "m1".to_string(),
                from: "alice".to_string(),
                to: "bob".to_string(),
                channel_id: None,
            },
            "messaging.message_sent",
        ),
        (
            MessagingEvent::MessageDelivered { message_id: "m1".to_string(), to: "bob".to_string() },
            "messaging.message_delivered",
        ),
        (
            MessagingEvent::MessageRead { message_id: "m1".to_string(), by: "bob".to_string() },
            "messaging.message_read",
        ),
        (
            MessagingEvent::MessageDeleted { message_id: "m1".to_string(), by: "alice".to_string() },
            "messaging.message_deleted",
        ),
        (
            MessagingEvent::ChannelCreated {
                channel_id: "ch_1".to_string(),
                name: "General".to_string(),
                channel_type: "public".to_string(),
            },
            "messaging.channel_created",
        ),
        (
            MessagingEvent::ChannelDeleted { channel_id: "ch_1".to_string() },
            "messaging.channel_deleted",
        ),
        (
            MessagingEvent::UserJoinedChannel { channel_id: "ch_1".to_string(), user_id: "alice".to_string() },
            "messaging.user_joined_channel",
        ),
        (
            MessagingEvent::UserLeftChannel { channel_id: "ch_1".to_string(), user_id: "alice".to_string() },
            "messaging.user_left_channel",
        ),
        (
            MessagingEvent::PresenceChanged { user_id: "alice".to_string(), status: "online".to_string() },
            "messaging.presence_changed",
        ),
        (
            MessagingEvent::TypingStarted { channel_id: "ch_1".to_string(), user_id: "alice".to_string() },
            "messaging.typing_started",
        ),
        (
            MessagingEvent::FileUploaded {
                file_id: "file_1".to_string(),
                user_id: "alice".to_string(),
                filename: "photo.png".to_string(),
            },
            "messaging.file_uploaded",
        ),
    ];

    for (event, expected_tag) in events {
        assert_eq!(event.event_type(), expected_tag, "wrong event_type for {:?}", event);
    }
}

#[test]
fn test_all_eleven_variants_covered() {
    let all: Vec<MessagingEvent> = vec![
        MessagingEvent::MessageSent { message_id: "x".to_string(), from: "a".to_string(), to: "b".to_string(), channel_id: None },
        MessagingEvent::MessageDelivered { message_id: "x".to_string(), to: "b".to_string() },
        MessagingEvent::MessageRead { message_id: "x".to_string(), by: "a".to_string() },
        MessagingEvent::MessageDeleted { message_id: "x".to_string(), by: "a".to_string() },
        MessagingEvent::ChannelCreated { channel_id: "c".to_string(), name: "n".to_string(), channel_type: "public".to_string() },
        MessagingEvent::ChannelDeleted { channel_id: "c".to_string() },
        MessagingEvent::UserJoinedChannel { channel_id: "c".to_string(), user_id: "a".to_string() },
        MessagingEvent::UserLeftChannel { channel_id: "c".to_string(), user_id: "a".to_string() },
        MessagingEvent::PresenceChanged { user_id: "a".to_string(), status: "online".to_string() },
        MessagingEvent::TypingStarted { channel_id: "c".to_string(), user_id: "a".to_string() },
        MessagingEvent::FileUploaded { file_id: "f".to_string(), user_id: "a".to_string(), filename: "f.png".to_string() },
    ];

    for event in all {
        let tag = event.event_type();
        assert!(tag.starts_with("messaging."), "event_type '{}' should be namespaced", tag);
    }
}

#[test]
fn event_tags_are_distinct() {
    let tags = vec![
        MessagingEvent::ChannelCreated { channel_id: "c".to_string(), name: "n".to_string(), channel_type: "t".to_string() }.event_type(),
        MessagingEvent::ChannelDeleted { channel_id: "c".to_string() }.event_type(),
        MessagingEvent::MessageDeleted { message_id: "x".to_string(), by: "a".to_string() }.event_type(),
    ];
    assert_ne!(tags[0], tags[1]);
    assert_ne!(tags[1], tags[2]);
    assert_ne!(tags[0], tags[2]);
}

#[test]
fn test_all_schemas_non_empty_and_valid_sql_prefix() {
    let schemas = messaging_schemas();
    assert!(!schemas.is_empty(), "must define at least one schema");
    for (table_name, sql) in &schemas {
        assert!(!table_name.is_empty(), "table name must not be empty");
        let upper = sql.to_uppercase();
        assert!(upper.starts_with("CREATE TABLE IF NOT EXISTS"));
        assert!(upper.contains(&table_name.to_uppercase()));
    }
}

#[test]
fn test_required_tables_present() {
    let names = table_names();
    for required in &["messages", "channels", "channel_members", "read_receipts", "file_references", "user_presence"] {
        assert!(names.contains(required), "required table '{}' not found", required);
    }
}

#[test]
fn test_schema_for_lookup() {
    let sql = schema_for("messages").expect("messages schema must exist");
    assert!(sql.to_uppercase().contains("CREATE TABLE IF NOT EXISTS MESSAGES"));

    assert!(schema_for("nonexistent_table").is_none(), "unknown table should return None");
}

#[test]
fn table_order_and_lookup_agree() {
    let names = table_names();
    assert_eq!(names.len(), 8);
    assert_eq!(names[0], "messages");
    assert_eq!(names[7], "message_reactions");
    for (k, (name, sql)) in messaging_schemas().iter().enumerate() {
        assert_eq!(names[k], *name);
        assert_eq!(schema_for(name), Some(*sql));
    }
}

#[test]
fn test_routes_non_empty_and_have_required_fields() {
    let routes = messaging_routes();
    assert!(!routes.is_empty());
    for r in &routes {
        assert!(!r.method.is_empty());
        assert!(r.path.starts_with('/'));
        assert!(!r.description.is_empty());
    }
}

#[test]
fn test_expected_endpoints_present() {
    let routes = messaging_routes();
    let lookup: Vec<(&str, &str)> = routes.iter().map(|r| (r.method, r.path)).collect();
    assert!(lookup.contains(&("GET", "/api/channels")));
    assert!(lookup.contains(&("POST", "/api/channels")));
    assert!(lookup.contains(&("POST", "/api/messages/send")));
    assert!(lookup.contains(&("GET", "/api/channels/{id}/messages")));
}

#[test]
fn route_table_lists_every_served_route_once() {
    let routes = messaging_routes();
    assert_eq!(routes.len(), 15);
    assert_eq!(routes[14].method, "POST");
    assert_eq!(routes[14].path, "/api/messages/{id}/react");
    let lookup: Vec<(&str, &str)> = routes.iter().map(|r| (r.method, r.path)).collect();
    assert!(lookup.contains(&("POST", "/api/channels/{id}/freeze")));
    assert!(lookup.contains(&("POST", "/api/channels/{id}/unfreeze")));
    for (i, a) in lookup.iter().enumerate() {
        for b in lookup.iter().skip(i + 1) {
            assert_ne!(a, b);
        }
    }
}

fn dto(id: &str) -> MessageDto {
    MessageDto {
        id: id.to_string(),
        channel_id: "ch".to_string(),
        sender_id: "u".to_string(),
        text: "t".to_string(),
        reply_to_id: None,
        sent_at: "2025-01-01T00:00:00Z".to_string(),
        edited_at: None,
        reactions: vec![],
    }
}

#[test]
fn history_limit_defaults_and_caps() {
    assert_eq!(HistoryQuery { limit: None, before: None }.effective_limit(), 50);
    assert_eq!(HistoryQuery { limit: Some(10), before: None }.effective_limit(), 10);
    assert_eq!(HistoryQuery { limit: Some(500), before: None }.effective_limit(), 200);
}

#[test]
fn history_page_is_oldest_first() {
    let page = MessageHistoryDto::from_newest_first(vec![dto("m3"), dto("m2"), dto("m1")], 3);
    let ids: Vec<&str> = page.messages.iter().map(|m| m.id.as_str()).collect();
    assert_eq!(ids, vec!["m1", "m2", "m3"]);
    assert!(page.has_more);
    assert_eq!(page.oldest_id, Some("m1".to_string()));

    let empty = MessageHistoryDto::from_newest_first(vec![], 50);
    assert!(!empty.has_more);
    assert!(empty.oldest_id.is_none());
}

#[test]
fn test_content_type_default() {
    let ct = ContentType::default();
    assert_eq!(ct, ContentType::Text);
}

#[test]
fn other_defaults() {
    assert_eq!(ChannelType::default(), ChannelType::Public);
    assert_eq!(PresenceStatus::default(), PresenceStatus::Offline);
    assert_eq!(ChannelType::Announcement.label(), "Announcement");
}
