use draox_plugins::messaging_types::ModerationAction;
use draox_plugins::moderation::ContentModerator;

#[test]
fn test_content_filter_blocks_bad_words() {
    let moderator = ContentModerator::new(vec!["spam".to_string(), "badword".to_string()], 60);
    assert_eq!(moderator.check_content("Hello world"), ModerationAction::Allow);
    assert_eq!(
        moderator.check_content("This is spam content"),
        ModerationAction::Block("blocked word detected: spam".to_string()),
    );
    assert_eq!(
        moderator.check_content("SPAM IS BAD"),
        ModerationAction::Block("blocked word detected: spam".to_string()),
    );
    assert_eq!(
        moderator.check_content("Contains BadWord here"),
        ModerationAction::Block("blocked word detected: badword".to_string()),
    );
}

#[test]
fn test_mute_unmute() {
    let mut moderator = ContentModerator::new(vec![], 60);
    assert!(!moderator.is_muted("cli_alice"));

    moderator.mute_user("cli_alice", "spamming".to_string(), None);
    assert!(moderator.is_muted("cli_alice"));
    assert_eq!(moderator.muted_count(), 1);

    let mute = moderator.get_mute("cli_alice").unwrap();
    assert_eq!(mute.reason, "spamming");
    assert!(mute.expires_at.is_none());

    assert!(moderator.unmute_user("cli_alice"));
    assert!(!moderator.is_muted("cli_alice"));
    assert_eq!(moderator.muted_count(), 0);
    assert!(!moderator.unmute_user("cli_alice"));
}

#[test]
fn test_rate_limiting() {
    let mut moderator = ContentModerator::new(vec![], 5);
    for _ in 0..4 {
        assert_eq!(moderator.check_rate("cli_alice"), ModerationAction::Allow);
    }
    assert_eq!(
        moderator.check_rate("cli_alice"),
        ModerationAction::Warn("approaching message rate limit".to_string()),
    );
    assert_eq!(
        moderator.check_rate("cli_alice"),
        ModerationAction::Block("message rate limit exceeded".to_string()),
    );
}

#[test]
fn test_full_check_message_flow() {
    let mut moderator = ContentModerator::new(vec!["badword".to_string()], 60);
    assert_eq!(moderator.check_message("cli_alice", "Hello world"), ModerationAction::Allow);
    assert_eq!(
        moderator.check_message("cli_alice", "This has badword"),
        ModerationAction::Block("blocked word detected: badword".to_string()),
    );
    moderator.mute_user("cli_bob", "testing".to_string(), None);
    assert_eq!(
        moderator.check_message("cli_bob", "Hello world"),
        ModerationAction::Block("user is muted".to_string()),
    );
}

#[test]
fn test_mute_expiry() {
    let mut moderator = ContentModerator::new(vec![], 60);
    moderator.mute_user("cli_alice", "testing".to_string(), Some(0));
    assert!(!moderator.is_muted("cli_alice"));
    assert_eq!(moderator.muted_count(), 0);
}

#[test]
fn test_adding_blocked_words() {
    let mut moderator = ContentModerator::new(vec![], 60);
    assert_eq!(moderator.check_content("spam here"), ModerationAction::Allow);
    moderator.add_blocked_word("SPAM".to_string());
    assert_eq!(
        moderator.check_content("spam here"),
        ModerationAction::Block("blocked word detected: spam".to_string()),
    );
    moderator.add_blocked_word("spam".to_string());
    assert_eq!(moderator.blocked_word_count(), 1);
}

#[test]
fn rate_window_slides_with_time() {
    let mut moderator = ContentModerator::new(vec![], 2);
    assert_eq!(moderator.check_rate_at("u", 1_000), ModerationAction::Allow);
    assert_eq!(moderator.check_rate_at("u", 2_000), ModerationAction::Warn("approaching message rate limit".to_string()));
    assert_eq!(moderator.check_rate_at("u", 3_000), ModerationAction::Block("message rate limit exceeded".to_string()));
    // A minute later the old messages have left the window.
    assert_eq!(moderator.check_rate_at("u", 62_500), ModerationAction::Warn("approaching message rate limit".to_string()));
    assert_eq!(moderator.check_rate_at("v", 62_500), ModerationAction::Allow);
}

#[test]
fn timed_mutes() {
    let mut moderator = ContentModerator::new(vec![], 60);
    moderator.mute_user_at("u", "slow down".to_string(), Some(30), 1_000);
    assert!(moderator.is_muted_at("u", 30_999));
    assert!(!moderator.is_muted_at("u", 31_000));
    assert!(moderator.get_mute("u").is_none());
}
