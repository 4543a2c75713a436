use draox_plugins::jobs::{finish_attempt, start_attempt, DeadLetterQueue, Job, JobOutcome, JobPriority, JobQueue, JobState};

fn job(kind: &str) -> Job {
    Job::new(kind.to_string(), "{}".to_string(), "test".to_string())
}

#[test]
fn test_job_defaults() {
    let job = Job::new("send_email".to_string(), "{\"to\": \"x@y.com\"}".to_string(), "default".to_string());
    assert_eq!(job.state, JobState::Pending);
    assert_eq!(job.attempt, 0);
    assert!(job.is_retryable());
    assert!(!job.is_terminal());
    assert!(job.id.starts_with("job_"));
    assert_eq!(job.id.len(), 36);
}

#[test]
fn test_priority_ordering() {
    let mut q = JobQueue::new("test".to_string());
    let low = job("task").with_priority(JobPriority::Low);
    let high = job("task").with_priority(JobPriority::High);
    let normal = job("task").with_priority(JobPriority::Normal);

    q.push(low);
    q.push(normal);
    q.push(high);

    let first = q.pop().unwrap();
    assert_eq!(first.priority, JobPriority::High);
    let second = q.pop().unwrap();
    assert_eq!(second.priority, JobPriority::Normal);
    let third = q.pop().unwrap();
    assert_eq!(third.priority, JobPriority::Low);
    assert!(q.pop().is_none());
}

#[test]
fn equal_priority_is_fifo() {
    let mut q = JobQueue::new("fifo".to_string());
    let a = Job::create("a".to_string(), "k".to_string(), "{}".to_string(), "fifo".to_string(), 10);
    let b = Job::create("b".to_string(), "k".to_string(), "{}".to_string(), "fifo".to_string(), 20);
    let c = Job::create("c".to_string(), "k".to_string(), "{}".to_string(), "fifo".to_string(), 5).with_priority(JobPriority::Critical);
    q.push(b);
    q.push(a);
    q.push(c);
    assert_eq!(q.len(), 3);
    assert_eq!(q.pop().unwrap().id, "c");
    assert_eq!(q.pop().unwrap().id, "a");
    assert_eq!(q.pop().unwrap().id, "b");
    assert!(q.is_empty());
    assert_eq!(q.name(), "fifo");
}

#[test]
fn priority_weights() {
    assert_eq!(JobPriority::Low.weight(), 1);
    assert_eq!(JobPriority::Critical.weight(), 4);
    assert_eq!(JobPriority::default(), JobPriority::Normal);
    assert!(JobPriority::High > JobPriority::Normal);
}

#[test]
fn attempt_outcomes() {
    let j = Job::create("j1".to_string(), "k".to_string(), "{}".to_string(), "q".to_string(), 0).with_max_attempts(2);
    let running = start_attempt(j, 100);
    assert_eq!(running.state, JobState::Running);
    assert_eq!(running.attempt, 1);
    assert_eq!(running.started_at, Some(100));

    let (retried, outcome) = finish_attempt(running, Err("boom".to_string()), 200, 5);
    assert_eq!(outcome, JobOutcome::Retry);
    assert_eq!(retried.state, JobState::Pending);
    assert_eq!(retried.scheduled_at, 200 + 5_000_000_000);

    let running = start_attempt(retried, 300);
    assert_eq!(running.attempt, 2);
    let (dead, outcome) = finish_attempt(running, Err("boom again".to_string()), 400, 5);
    assert_eq!(outcome, JobOutcome::DeadLetter("boom again".to_string()));
    assert_eq!(dead.attempt, 2);

    let fresh = Job::create("j2".to_string(), "k".to_string(), "{}".to_string(), "q".to_string(), 0);
    let (done, outcome) = finish_attempt(start_attempt(fresh, 1), Ok(()), 2, 5);
    assert_eq!(outcome, JobOutcome::Completed);
    assert_eq!(done.state, JobState::Completed);
    assert_eq!(done.completed_at, Some(2));
    assert!(done.is_terminal());
}

#[test]
fn dead_letter_queue_roundtrip() {
    let mut dlq = DeadLetterQueue::new();
    let j = Job::create("j1".to_string(), "k".to_string(), "{}".to_string(), "q".to_string(), 0);
    dlq.send_to_dlq(j, "exhausted".to_string());
    assert_eq!(dlq.len(), 1);
    assert_eq!(dlq.list()[0].state, JobState::DeadLettered);
    let again = Job::create("j1".to_string(), "k2".to_string(), "{}".to_string(), "q".to_string(), 0);
    dlq.send_to_dlq(again, "again".to_string());
    assert_eq!(dlq.len(), 1);
    let back = dlq.requeue("j1").unwrap();
    assert_eq!(back.state, JobState::Pending);
    assert_eq!(back.attempt, 0);
    assert_eq!(back.kind, "k2");
    assert!(dlq.requeue("j1").is_none());
    dlq.send_to_dlq(back, "x".to_string());
    dlq.remove("j1");
    assert_eq!(dlq.len(), 0);
}
