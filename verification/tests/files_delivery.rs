use draox_plugins::delivery::{delivery_outcome, drops_sender, SendAttempt};
use draox_plugins::files::FileRegistry;
use draox_plugins::messaging_types::DeliveryResult;

#[test]
fn test_register_and_get() {
    let mut registry = FileRegistry::new();
    let file = registry.register("report.pdf", "application/pdf", 2048, "cli_alice");
    assert!(file.id.starts_with("file_"));
    assert_eq!(file.filename, "report.pdf");
    assert_eq!(file.mime_type, "application/pdf");
    assert_eq!(file.size_bytes, 2048);
    assert_eq!(file.uploaded_by, "cli_alice");
    assert!(file.url.is_none());
    assert!(file.checksum.is_none());

    let fetched = registry.get(&file.id).unwrap();
    assert_eq!(fetched.id, file.id);
    assert!(registry.get("file_nonexistent").is_none());
}

#[test]
fn test_attach_to_message_and_get_files() {
    let mut registry = FileRegistry::new();
    let f1 = registry.register("photo.png", "image/png", 512, "cli_alice");
    let f2 = registry.register("doc.txt", "text/plain", 128, "cli_alice");

    assert!(registry.attach_to_message(&f1.id, "msg_001"));
    assert!(registry.attach_to_message(&f2.id, "msg_001"));
    assert!(!registry.attach_to_message("file_unknown", "msg_001"));

    let files = registry.get_message_files("msg_001");
    assert_eq!(files.len(), 2);
    assert_eq!(files[0].id, f1.id);
    assert_eq!(files[1].id, f2.id);

    assert!(registry.get_message_files("msg_999").is_empty());
}

#[test]
fn test_delete_file_removes_from_messages() {
    let mut registry = FileRegistry::new();
    let f = registry.register("image.jpg", "image/jpeg", 1024, "cli_bob");
    registry.attach_to_message(&f.id, "msg_010");
    assert_eq!(registry.get_message_files("msg_010").len(), 1);

    assert!(registry.delete(&f.id));
    assert!(registry.get(&f.id).is_none());
    assert!(registry.get_message_files("msg_010").is_empty());
    assert!(!registry.delete("file_nonexistent"));
}

#[test]
fn test_total_size_by_user() {
    let mut registry = FileRegistry::new();
    registry.register("a.txt", "text/plain", 100, "cli_alice");
    registry.register("b.txt", "text/plain", 200, "cli_alice");
    registry.register("c.txt", "text/plain", 50, "cli_bob");

    assert_eq!(registry.total_size_by_user("cli_alice"), 300);
    assert_eq!(registry.total_size_by_user("cli_bob"), 50);
    assert_eq!(registry.total_size_by_user("cli_charlie"), 0);
    assert_eq!(registry.file_count(), 3);
}

#[test]
fn test_no_duplicate_attachment() {
    let mut registry = FileRegistry::new();
    let f = registry.register("file.bin", "application/octet-stream", 8, "cli_alice");
    registry.attach_to_message(&f.id, "msg_002");
    registry.attach_to_message(&f.id, "msg_002");

    let files = registry.get_message_files("msg_002");
    assert_eq!(files.len(), 1, "file should only appear once");
}

#[test]
fn files_register_at_records_time() {
    let mut registry = FileRegistry::new();
    let f = registry.register_at("x", "text/plain", 1, "u", 42);
    assert_eq!(f.uploaded_at, 42);
    assert_eq!(f.id.len(), 37);
}

#[test]
fn delivery_outcomes() {
    assert_eq!(delivery_outcome("cli_alice", SendAttempt::Sent), DeliveryResult::Delivered);
    assert_eq!(delivery_outcome("cli_alice", SendAttempt::Offline), DeliveryResult::Queued);
    assert_eq!(delivery_outcome("cli_alice", SendAttempt::Closed), DeliveryResult::Queued);
    assert_eq!(
        delivery_outcome("cli_alice", SendAttempt::Full),
        DeliveryResult::Failed("channel full for client cli_alice".to_string())
    );
    assert!(drops_sender(SendAttempt::Closed));
    assert!(!drops_sender(SendAttempt::Full));
}
