use draox_plugins::messaging_types::PresenceStatus;
use draox_plugins::presence::PresenceTracker;
use draox_plugins::receipts::ReadReceiptTracker;
use draox_plugins::typing::TypingTracker;

// ── presence ────────────────────────────────────────────────────────────

#[test]
fn test_set_and_get_status() {
    let mut tracker = PresenceTracker::new();
    assert_eq!(tracker.get_status("cli_alice"), PresenceStatus::Offline);

    tracker.set_status("cli_alice", PresenceStatus::Online);
    assert_eq!(tracker.get_status("cli_alice"), PresenceStatus::Online);

    tracker.set_status("cli_alice", PresenceStatus::Away);
    assert_eq!(tracker.get_status("cli_alice"), PresenceStatus::Away);

    tracker.set_status("cli_alice", PresenceStatus::DoNotDisturb);
    assert_eq!(tracker.get_status("cli_alice"), PresenceStatus::DoNotDisturb);
}

#[test]
fn test_mark_online_offline() {
    let mut tracker = PresenceTracker::new();
    tracker.mark_online("cli_alice");
    assert_eq!(tracker.get_status("cli_alice"), PresenceStatus::Online);
    assert!(tracker.get("cli_alice").is_some());

    tracker.mark_offline("cli_alice");
    assert_eq!(tracker.get_status("cli_alice"), PresenceStatus::Offline);
}

#[test]
fn test_online_users_filtering() {
    let mut tracker = PresenceTracker::new();
    tracker.mark_online("cli_alice");
    tracker.mark_online("cli_bob");
    tracker.set_status("cli_charlie", PresenceStatus::Away);

    let online = tracker.online_users();
    assert_eq!(online.len(), 2);
    assert!(online.contains(&"cli_alice".to_string()));
    assert!(online.contains(&"cli_bob".to_string()));
    assert!(!online.contains(&"cli_charlie".to_string()));
}

#[test]
fn test_status_message() {
    let mut tracker = PresenceTracker::new();
    tracker.set_status_message("cli_alice", "In a meeting".to_string());
    let info = tracker.get("cli_alice").unwrap();
    assert_eq!(info.status_message, "In a meeting");
    assert_eq!(info.status, PresenceStatus::Offline);

    tracker.mark_online("cli_alice");
    let info = tracker.get("cli_alice").unwrap();
    assert_eq!(info.status, PresenceStatus::Online);
    assert_eq!(info.status_message, "In a meeting");
}

#[test]
fn test_default_is_offline() {
    let tracker = PresenceTracker::new();
    assert_eq!(tracker.get_status("cli_unknown"), PresenceStatus::Offline);
    assert!(tracker.get("cli_unknown").is_none());
    assert_eq!(tracker.tracked_count(), 0);
    assert_eq!(PresenceStatus::default(), PresenceStatus::Offline);
}

#[test]
fn presence_offline_keeps_last_seen() {
    let mut tracker = PresenceTracker::new();
    tracker.set_status_at("cli_alice", PresenceStatus::Online, 100);
    tracker.set_status_at("cli_alice", PresenceStatus::Offline, 250);
    let info = tracker.get("cli_alice").unwrap();
    assert_eq!(info.last_seen, 100);
    assert_eq!(info.updated_at, 250);
    tracker.set_status_message_at("cli_bob", "hi".to_string(), 300);
    let bob = tracker.get("cli_bob").unwrap();
    assert_eq!(bob.last_seen, 300);
    assert_eq!(bob.status, PresenceStatus::Offline);
    let all = tracker.all_presences();
    assert_eq!(all.len(), 2);
    assert_eq!(all[0].0, "cli_alice");
    assert_eq!(all[1].0, "cli_bob");
}

// ── typing ──────────────────────────────────────────────────────────────

#[test]
fn test_start_stop_typing() {
    let mut tracker = TypingTracker::new(10);
    tracker.start_typing("cli_alice", "ch_general");
    assert!(tracker.is_typing("cli_alice", "ch_general"));

    tracker.stop_typing("cli_alice", "ch_general");
    assert!(!tracker.is_typing("cli_alice", "ch_general"));
}

#[test]
fn test_typing_in_channel_list() {
    let mut tracker = TypingTracker::new(10);
    tracker.start_typing("cli_alice", "ch_general");
    tracker.start_typing("cli_bob", "ch_general");

    let typing = tracker.typing_in_channel("ch_general");
    assert_eq!(typing.len(), 2);
    assert!(typing.contains(&"cli_alice".to_string()));
    assert!(typing.contains(&"cli_bob".to_string()));

    let typing = tracker.typing_in_channel("ch_nonexistent");
    assert!(typing.is_empty());
}

#[test]
fn test_expired_entries_filtered() {
    let mut tracker = TypingTracker::new(0);
    tracker.start_typing("cli_alice", "ch_general");

    assert!(!tracker.is_typing("cli_alice", "ch_general"));
    let typing = tracker.typing_in_channel("ch_general");
    assert!(typing.is_empty());

    tracker.cleanup_expired();
    assert_eq!(tracker.active_channels(), 0);
}

#[test]
fn test_multiple_channels_independent() {
    let mut tracker = TypingTracker::new(10);
    tracker.start_typing("cli_alice", "ch_general");
    tracker.start_typing("cli_bob", "ch_random");

    assert!(tracker.is_typing("cli_alice", "ch_general"));
    assert!(!tracker.is_typing("cli_alice", "ch_random"));
    assert!(tracker.is_typing("cli_bob", "ch_random"));
    assert!(!tracker.is_typing("cli_bob", "ch_general"));

    assert_eq!(tracker.active_channels(), 2);

    tracker.stop_typing("cli_alice", "ch_general");
    assert_eq!(tracker.typing_in_channel("ch_general").len(), 0);
    assert_eq!(tracker.typing_in_channel("ch_random").len(), 1);
}

#[test]
fn typing_expiry_at_exact_timeout() {
    let mut tracker = TypingTracker::new(2);
    tracker.start_typing_at("cli_alice", "ch", 1_000);
    tracker.start_typing_at("cli_bob", "ch", 2_500);
    assert!(tracker.is_typing_at("cli_alice", "ch", 2_999));
    assert!(!tracker.is_typing_at("cli_alice", "ch", 3_000));
    assert_eq!(tracker.typing_in_channel_at("ch", 3_000), vec!["cli_bob".to_string()]);
    tracker.cleanup_expired_at(3_000);
    assert_eq!(tracker.active_channels(), 1);
    tracker.cleanup_expired_at(10_000);
    assert_eq!(tracker.active_channels(), 0);
    assert!(tracker.typing_in_channel_at("ch", 10_000).is_empty());
}

// ── read receipts ───────────────────────────────────────────────────────

#[test]
fn test_mark_read_and_get_receipts() {
    let mut tracker = ReadReceiptTracker::new();
    let receipt = tracker.mark_read("msg_001", "cli_alice");
    assert_eq!(receipt.message_id, "msg_001");
    assert_eq!(receipt.reader_id, "cli_alice");

    let receipts = tracker.get_receipts("msg_001");
    assert_eq!(receipts.len(), 1);
    assert_eq!(receipts[0].reader_id, "cli_alice");
}

#[test]
fn test_no_duplicate_receipts() {
    let mut tracker = ReadReceiptTracker::new();
    tracker.mark_read("msg_001", "cli_alice");
    tracker.mark_read("msg_001", "cli_alice");
    tracker.mark_read("msg_001", "cli_bob");

    let receipts = tracker.get_receipts("msg_001");
    assert_eq!(receipts.len(), 2, "alice should appear only once");
    assert!(receipts.iter().any(|r| r.reader_id == "cli_alice"));
    assert!(receipts.iter().any(|r| r.reader_id == "cli_bob"));
}

#[test]
fn test_is_read_by() {
    let mut tracker = ReadReceiptTracker::new();
    assert!(!tracker.is_read_by("msg_001", "cli_alice"));

    tracker.mark_read("msg_001", "cli_alice");
    assert!(tracker.is_read_by("msg_001", "cli_alice"));
    assert!(!tracker.is_read_by("msg_001", "cli_bob"));
    assert!(!tracker.is_read_by("msg_999", "cli_alice"));
}

#[test]
fn test_mark_channel_read_and_last_read_time() {
    let mut tracker = ReadReceiptTracker::new();
    assert!(tracker.last_read_time("ch_general", "cli_alice").is_none());

    tracker.mark_channel_read("ch_general", "cli_alice");
    assert!(tracker.last_read_time("ch_general", "cli_alice").is_some());

    assert!(tracker.last_read_time("ch_other", "cli_alice").is_none());
    assert!(tracker.last_read_time("ch_general", "cli_bob").is_none());
}

#[test]
fn test_unread_count_no_last_read() {
    let tracker = ReadReceiptTracker::new();
    let now = 1_700_000_000_000i64;
    let messages = vec![now, now, now];
    assert_eq!(tracker.unread_count("ch_general", "cli_alice", &messages), 3);
}

#[test]
fn test_unread_count_with_last_read() {
    let mut tracker = ReadReceiptTracker::new();
    tracker.mark_channel_read("ch_general", "cli_alice");
    let last = tracker.last_read_time("ch_general", "cli_alice").unwrap();

    let old_msg = last - 1000;
    let new_msg1 = last + 5;
    let new_msg2 = last + 6;
    let messages = vec![old_msg, new_msg1, new_msg2];
    assert_eq!(tracker.unread_count("ch_general", "cli_alice", &messages), 2);
}

#[test]
fn receipts_keep_first_read_time() {
    let mut tracker = ReadReceiptTracker::new();
    tracker.mark_read_at("m", "u", 10);
    let again = tracker.mark_read_at("m", "u", 20);
    assert_eq!(again.read_at, 20);
    assert_eq!(tracker.get_receipts("m")[0].read_at, 10);
    tracker.mark_channel_read_at("c", "u", 50);
    tracker.mark_channel_read_at("c", "u", 70);
    assert_eq!(tracker.last_read_time("c", "u"), Some(70));
    assert_eq!(tracker.unread_count("c", "u", &vec![60, 70, 71]), 1);
}
