use draox_plugins::jobs::{find_handler, is_due, CronJobDefinition, DeadLetterQueue, Job, JobManager, JobQueue, JobScheduler};

fn def(name: &str, expr: &str, kind: &str, queue: &str) -> CronJobDefinition {
    CronJobDefinition::new(name.to_string(), expr.to_string(), kind.to_string(), "{}".to_string(), queue.to_string())
}

#[test]
fn cron_definition_defaults() {
    let d = def("nightly", "0 0 3 * * * *", "cleanup", "default");
    assert!(d.id.starts_with("cron_"));
    assert_eq!(d.id.len(), 37);
    assert!(d.enabled);
    assert!(d.next_run().is_some());
    assert!(def("bad", "not a cron", "x", "default").next_run().is_none());
}

#[test]
fn due_window() {
    assert!(is_due(Some(100_000), 40_000, 60));
    assert!(is_due(Some(40_000), 100_999, 60));
    assert!(!is_due(Some(101_000), 40_000, 60));
    assert!(!is_due(None, 0, 60));
    assert!(!is_due(Some(0), 0, u64::MAX));
}

#[test]
fn scheduler_definitions_and_queues() {
    let mut s = JobScheduler::new();
    s.register_queue(JobQueue::new("default".to_string()));
    s.register_queue(JobQueue::new("mail".to_string()));
    let a = def("a", "* * * * * * *", "ping", "default");
    let a_id = a.id.clone();
    s.add_job(a);
    s.add_job(def("b", "* * * * * * *", "send", "mail"));
    s.add_job(def("c", "* * * * * * *", "lost", "nowhere"));
    assert_eq!(s.list_jobs().len(), 3);
    s.remove_job(&a_id);
    assert_eq!(s.list_jobs().len(), 2);
    assert!(s.list_jobs().iter().all(|d| d.id != a_id));
    assert_eq!(s.queue_len("mail"), Some(0));
    assert_eq!(s.queue_len("other"), None);
}

#[test]
fn tick_enqueues_due_jobs() {
    let mut s = JobScheduler::new();
    s.register_queue(JobQueue::new("default".to_string()));
    s.register_queue(JobQueue::new("mail".to_string()));
    s.add_job(def("a", "x", "ping", "default"));
    s.add_job(def("b", "x", "send", "mail"));
    let mut off = def("c", "x", "off", "mail");
    off.enabled = false;
    s.add_job(off);
    s.add_job(def("d", "x", "lost", "nowhere"));
    // a and d due, b too far, c disabled
    s.run_tick(1_000_000, 60, &vec![Some(1_030_000), Some(2_000_000), Some(1_000_000), Some(1_000_000)]);
    assert_eq!(s.queue_len("default"), Some(1));
    assert_eq!(s.queue_len("mail"), Some(0));
    s.run_tick(2_000_000, 60, &vec![None, Some(2_000_500), None, None]);
    assert_eq!(s.queue_len("mail"), Some(1));
    // every minute: due on a one-minute tick
    let mut t = JobScheduler::new();
    t.register_queue(JobQueue::new("default".to_string()));
    t.add_job(def("every", "0 * * * * * *", "beat", "default"));
    t.tick(60);
    assert_eq!(t.queue_len("default"), Some(1));
}

#[test]
fn manager_default_queue() {
    let mut m = JobManager::new(4).add_handler("send_email".to_string());
    assert_eq!(m.queue_depth(), 0);
    m.enqueue(Job::new("send_email".to_string(), "{}".to_string(), "default".to_string()));
    m.enqueue(Job::new("send_email".to_string(), "{}".to_string(), "default".to_string()));
    assert_eq!(m.queue_depth(), 2);
    assert_eq!(m.dlq().len(), 0);
    assert_eq!(m.scheduler().queue_len("default"), Some(2));
}

#[test]
fn handler_lookup() {
    let kinds = vec!["a".to_string(), "b".to_string(), "b".to_string()];
    assert_eq!(find_handler(&kinds, "b"), Some(1));
    assert_eq!(find_handler(&kinds, "c"), None);
}

#[test]
fn dead_letter_get() {
    let mut d = DeadLetterQueue::new();
    let j = Job::new("k".to_string(), "{}".to_string(), "default".to_string());
    let id = j.id.clone();
    d.send_to_dlq(j, "boom".to_string());
    assert_eq!(d.get(&id).unwrap().id, id);
    assert!(d.get("job_none").is_none());
}

#[test]
fn cron_expressions_are_checked_before_scheduling() {
    let ok = CronJobDefinition::new("n".to_string(), "0 * * * * *".to_string(), "k".to_string(), "{}".to_string(), "q".to_string());
    assert!(ok.has_valid_schedule());
    assert!(ok.next_run().is_some());
    let bad = CronJobDefinition::new("n".to_string(), "not a cron".to_string(), "k".to_string(), "{}".to_string(), "q".to_string());
    assert!(!bad.has_valid_schedule());
    assert!(bad.next_run().is_none());
}
