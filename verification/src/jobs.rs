//! Background jobs: priorities and states, the in-process priority queue,
//! the dead-letter queue, and the decisions a worker takes around running a
//! job.
use vstd::prelude::*;
use crate::text::{push_str, str_equal};
use crate::messaging_types::random_uuid_simple;

verus! {

/// Priority of a job; higher runs first.
#[derive(Debug, Clone, Copy, PartialEq, Eq, PartialOrd, Ord, Hash, Structural)]
pub enum JobPriority {
    Low,
    Normal,
    High,
    Critical,
}

/// Numeric weight of a priority: 1 (low) to 4 (critical).
pub open spec fn priority_weight(p: JobPriority) -> u8 {
    match p {
        JobPriority::Low => 1,
        JobPriority::Normal => 2,
        JobPriority::High => 3,
        JobPriority::Critical => 4,
    }
}

impl JobPriority {
    /// Numeric weight: 1 (low) to 4 (critical).
    pub fn weight(&self) -> (w: u8)
        ensures
            w == priority_weight(*self),
    {
        match self {
            JobPriority::Low => 1,
            JobPriority::Normal => 2,
            JobPriority::High => 3,
            JobPriority::Critical => 4,
        }
    }
}

impl Default for JobPriority {
    /// Normal priority.
    fn default() -> (p: Self)
        ensures
            p == JobPriority::Normal,
    {
        JobPriority::Normal
    }
}

/// State of a job.
#[derive(Debug, Clone, PartialEq, Eq)]
pub enum JobState {
    Pending,
    Running,
    Completed,
    Failed { reason: String },
    DeadLettered,
}

/// A background job. Times are nanoseconds since the Unix epoch.
#[derive(Debug, Clone)]
pub struct Job {
    pub id: String,
    pub kind: String,
    /// JSON payload.
    pub payload: String,
    pub priority: JobPriority,
    pub state: JobState,
    pub attempt: u32,
    pub max_attempts: u32,
    pub created_at: i64,
    pub scheduled_at: i64,
    pub started_at: Option<i64>,
    pub completed_at: Option<i64>,
    pub queue_name: String,
}

/// Calls `chrono::Utc::now()` and returns nanoseconds since the Unix epoch
/// (`timestamp_nanos_opt`, 0 when out of range). Nothing is stated of the
/// value: it is the current time.
#[verifier::external_body]
pub(crate) fn now_nanos() -> (t: i64) {
    chrono::Utc::now().timestamp_nanos_opt().unwrap_or(0)
}

impl Job {
    /// A pending job of normal priority, created and scheduled at `now`,
    /// with three attempts allowed.
    pub fn create(id: String, kind: String, payload: String, queue_name: String, now: i64) -> (j: Self)
        ensures
            j.id@ == id@,
            j.kind@ == kind@,
            j.payload@ == payload@,
            j.queue_name@ == queue_name@,
            j.priority == JobPriority::Normal,
            j.state == JobState::Pending,
            j.attempt == 0,
            j.max_attempts == 3,
            j.created_at == now,
            j.scheduled_at == now,
            j.started_at is None,
            j.completed_at is None,
    {
        Job {
            id,
            kind,
            payload,
            priority: JobPriority::Normal,
            state: JobState::Pending,
            attempt: 0,
            max_attempts: 3,
            created_at: now,
            scheduled_at: now,
            started_at: None,
            completed_at: None,
            queue_name,
        }
    }

    /// A new job with a fresh id `job_<uuid>` created now.
    pub fn new(kind: String, payload: String, queue_name: String) -> (j: Self)
        ensures
            j.id@.len() == 36,
            j.id@.subrange(0, 4) == "job_"@,
            j.kind@ == kind@,
            j.payload@ == payload@,
            j.queue_name@ == queue_name@,
            j.priority == JobPriority::Normal,
            j.state == JobState::Pending,
            j.attempt == 0,
            j.max_attempts == 3,
            j.created_at == j.scheduled_at,
    {
        let mut id = String::new();
        push_str(&mut id, "job_");
        let u = random_uuid_simple();
        push_str(&mut id, u.as_str());
        proof {
            reveal_strlit("job_");
            assert(id@.subrange(0, 4) =~= "job_"@);
        }
        Job::create(id, kind, payload, queue_name, now_nanos())
    }

    /// The same job with another priority.
    pub fn with_priority(self, priority: JobPriority) -> (j: Self)
        ensures
            j == (Job { priority, ..self }),
    {
        Job { priority, ..self }
    }

    /// The same job with another attempt limit.
    pub fn with_max_attempts(self, max: u32) -> (j: Self)
        ensures
            j == (Job { max_attempts: max, ..self }),
    {
        Job { max_attempts: max, ..self }
    }

    /// The same job scheduled at another time.
    pub fn with_scheduled_at(self, at: i64) -> (j: Self)
        ensures
            j == (Job { scheduled_at: at, ..self }),
    {
        Job { scheduled_at: at, ..self }
    }

    /// A copy of the job.
    fn duplicate(&self) -> (j: Self)
        ensures
            j == *self,
    {
        let state = match &self.state {
            JobState::Pending => JobState::Pending,
            JobState::Running => JobState::Running,
            JobState::Completed => JobState::Completed,
            JobState::Failed { reason } => JobState::Failed { reason: reason.clone() },
            JobState::DeadLettered => JobState::DeadLettered,
        };
        Job {
            id: self.id.clone(),
            kind: self.kind.clone(),
            payload: self.payload.clone(),
            priority: self.priority,
            state,
            attempt: self.attempt,
            max_attempts: self.max_attempts,
            created_at: self.created_at,
            scheduled_at: self.scheduled_at,
            started_at: self.started_at,
            completed_at: self.completed_at,
            queue_name: self.queue_name.clone(),
        }
    }

    /// Attempts remain.
    pub fn is_retryable(&self) -> (b: bool)
        ensures
            b == (self.attempt < self.max_attempts),
    {
        self.attempt < self.max_attempts
    }

    /// The job is completed or dead-lettered.
    pub fn is_terminal(&self) -> (b: bool)
        ensures
            b == (self.state is Completed || self.state is DeadLettered),
    {
        match self.state {
            JobState::Completed | JobState::DeadLettered => true,
            _ => false,
        }
    }
}

/// A queued job with the order in which it was created.
pub struct QueuedJob {
    pub priority: JobPriority,
    pub created_order: u64,
    pub job: Job,
}

/// `a` runs before `b`: higher priority first, then earlier creation.
pub open spec fn runs_before(a: (JobPriority, u64), b: (JobPriority, u64)) -> bool {
    priority_weight(a.0) > priority_weight(b.0) || (priority_weight(a.0) == priority_weight(b.0) && a.1 <= b.1)
}

/// Entry `k` runs first: it runs before every entry, and every entry
/// before it runs strictly later.
pub open spec fn runs_first(es: Seq<(JobPriority, u64, Job)>, k: int) -> bool {
    &&& 0 <= k < es.len()
    &&& forall|m: int| 0 <= m < es.len() ==> runs_before((es[k].0, es[k].1), (#[trigger] es[m].0, es[m].1))
    &&& forall|m: int| 0 <= m < k ==> !runs_before((#[trigger] es[m].0, es[m].1), (es[k].0, es[k].1))
}

/// In-process priority queue of jobs.
pub struct JobQueue {
    name: String,
    items: Vec<QueuedJob>,
}

impl JobQueue {
    /// The queued jobs with their priority and creation order, in the order
    /// they were pushed.
    pub closed spec fn entries(self) -> Seq<(JobPriority, u64, Job)> {
        self.items@.map_values(|q: QueuedJob| (q.priority, q.created_order, q.job))
    }

    /// Name of the queue.
    pub closed spec fn queue_name(self) -> Seq<char> {
        self.name@
    }

    /// An empty queue.
    pub fn new(name: String) -> (q: Self)
        ensures
            q.queue_name() == name@,
            q.entries().len() == 0,
    {
        JobQueue { name, items: Vec::new() }
    }

    /// Name of the queue.
    pub fn name(&self) -> (s: &str)
        ensures
            s@ == self.queue_name(),
    {
        self.name.as_str()
    }

    /// Queues a job, ordered by its priority and creation time.
    pub fn push(&mut self, job: Job)
        ensures
            final(self).queue_name() == old(self).queue_name(),
            final(self).entries() == old(self).entries().push(
                (job.priority, #[verifier::truncate] (job.created_at as u64), job),
            ),
    {
        let priority = job.priority;
        let created_order = #[verifier::truncate] (job.created_at as u64);
        self.items.push(QueuedJob { priority, created_order, job });
        assert(self.entries() =~= old(self).entries().push((priority, created_order, job)));
    }

    /// Takes the job that runs first: highest priority, then earliest
    /// created; among equals, the one pushed first.
    pub fn pop(&mut self) -> (r: Option<Job>)
        ensures
            final(self).queue_name() == old(self).queue_name(),
            old(self).entries().len() == 0 ==> r is None && final(self).entries() == old(self).entries(),
            old(self).entries().len() > 0 ==> exists|k: int|
                #[trigger] runs_first(old(self).entries(), k) && r == Some(old(self).entries()[k].2)
                    && final(self).entries() == old(self).entries().remove(k),
    {
        if self.items.len() == 0 {
            return None;
        }
        let ghost es = self.entries();
        let mut best: usize = 0;
        let mut i: usize = 1;
        while i < self.items.len()
            invariant
                es == self.entries(),
                es.len() == self.items@.len(),
                0 < i <= self.items@.len(),
                best < i,
                forall|m: int| 0 <= m < i ==> runs_before((es[best as int].0, es[best as int].1), (#[trigger] es[m].0, es[m].1)),
                forall|m: int| 0 <= m < best ==> !runs_before((#[trigger] es[m].0, es[m].1), (es[best as int].0, es[best as int].1)),
            decreases self.items.len() - i,
        {
            let wi = self.items[i].priority.weight();
            let wb = self.items[best].priority.weight();
            if wi > wb || (wi == wb && self.items[i].created_order < self.items[best].created_order) {
                best = i;
            }
            i = i + 1;
        }
        let q = self.items.remove(best);
        proof {
            assert(self.entries() =~= es.remove(best as int));
            assert(runs_first(es, best as int));
        }
        Some(q.job)
    }

    /// Number of queued jobs.
    pub fn len(&self) -> (n: usize)
        ensures
            n == self.entries().len(),
    {
        self.items.len()
    }

    /// Whether no job is queued.
    pub fn is_empty(&self) -> (b: bool)
        ensures
            b == (self.entries().len() == 0),
    {
        self.items.len() == 0
    }
}

/// Priority weights grow strictly with priority: low, normal, high,
/// critical.
pub proof fn lemma_priority_weights_increase()
    ensures
        priority_weight(JobPriority::Low) < priority_weight(JobPriority::Normal),
        priority_weight(JobPriority::Normal) < priority_weight(JobPriority::High),
        priority_weight(JobPriority::High) < priority_weight(JobPriority::Critical),
{
}

/// The job that runs first is never passed over for a job of higher
/// priority: while a critical job waits, a critical job runs; while a high
/// one waits, a high or critical one runs; while a normal one waits, no low
/// one runs. Among jobs of its own priority it is the oldest.
pub proof fn lemma_first_job_has_top_priority(es: Seq<(JobPriority, u64, Job)>, k: int, m: int)
    requires
        runs_first(es, k),
        0 <= m < es.len(),
    ensures
        es[m].0 == JobPriority::Critical ==> es[k].0 == JobPriority::Critical,
        es[m].0 == JobPriority::High ==> (es[k].0 == JobPriority::High || es[k].0 == JobPriority::Critical),
        es[m].0 == JobPriority::Normal ==> es[k].0 != JobPriority::Low,
        es[m].0 == es[k].0 ==> es[k].1 <= es[m].1,
{
    assert(runs_before((es[k].0, es[k].1), (es[m].0, es[m].1)));
}

/// The job that runs first is unique.
pub proof fn lemma_runs_first_unique(es: Seq<(JobPriority, u64, Job)>, a: int, b: int)
    requires
        runs_first(es, a),
        runs_first(es, b),
    ensures
        a == b,
{
    if a < b {
        assert(runs_before((es[a].0, es[a].1), (es[b].0, es[b].1)));
    } else if b < a {
        assert(runs_before((es[b].0, es[b].1), (es[a].0, es[a].1)));
    }
}

/// What a worker does with a job after running its handler.
#[derive(Debug, Clone, PartialEq, Eq)]
pub enum JobOutcome {
    /// The handler succeeded.
    Completed,
    /// The handler failed and attempts remain: push the job back.
    Retry,
    /// The handler failed on the last attempt: move the job to the
    /// dead-letter queue with this reason.
    DeadLetter(String),
}

/// Marks `job` as running its next attempt, started at `now`.
pub fn start_attempt(job: Job, now: i64) -> (j: Job)
    requires
        job.attempt < u32::MAX,
    ensures
        j == (Job { state: JobState::Running, attempt: (job.attempt + 1) as u32, started_at: Some(now), ..job }),
{
    let attempt = job.attempt + 1;
    Job { state: JobState::Running, attempt, started_at: Some(now), ..job }
}

/// Records the handler's `result` for a running job at time `now`: a
/// success completes the job; a failure with attempts left makes it pending
/// again, scheduled `retry_delay_secs` seconds later; a failure on the last
/// attempt sends it to the dead-letter queue with the failure reason.
pub fn finish_attempt(job: Job, result: Result<(), String>, now: i64, retry_delay_secs: u64) -> (r: (Job, JobOutcome))
    requires
        result is Err && job.attempt < job.max_attempts ==> retry_delay_secs * 1_000_000_000 <= i64::MAX
            && now + retry_delay_secs * 1_000_000_000 <= i64::MAX,
    ensures
        result is Ok ==> r == (Job { state: JobState::Completed, completed_at: Some(now), ..job }, JobOutcome::Completed),
        result is Err && job.attempt < job.max_attempts ==> r == (
            Job { state: JobState::Pending, scheduled_at: (now + retry_delay_secs * 1_000_000_000) as i64, ..job },
            JobOutcome::Retry,
        ),
        result is Err && job.attempt >= job.max_attempts ==> r == (job, JobOutcome::DeadLetter(result->Err_0)),
{
    match result {
        Ok(()) => (Job { state: JobState::Completed, completed_at: Some(now), ..job }, JobOutcome::Completed),
        Err(reason) => {
            if job.is_retryable() {
                let delay = (retry_delay_secs as i64) * 1_000_000_000;
                (Job { state: JobState::Pending, scheduled_at: now + delay, ..job }, JobOutcome::Retry)
            } else {
                (job, JobOutcome::DeadLetter(reason))
            }
        },
    }
}

/// Dead-letter queue: jobs that used up their attempts, one per id.
pub struct DeadLetterQueue {
    jobs: Vec<Job>,
}

impl DeadLetterQueue {
    /// The held jobs, in the order they arrived.
    pub closed spec fn held(self) -> Seq<Job> {
        self.jobs@
    }

    /// No two held jobs share an id.
    pub closed spec fn wf(self) -> bool {
        forall|i: int, j: int| 0 <= i < self.jobs@.len() && 0 <= j < self.jobs@.len() && i != j
            ==> self.jobs@[i].id@ != self.jobs@[j].id@
    }

    /// An empty queue.
    pub fn new() -> (d: Self)
        ensures
            d.wf(),
            d.held().len() == 0,
    {
        DeadLetterQueue { jobs: Vec::new() }
    }

    fn find(&self, job_id: &str) -> (r: Option<usize>)
        ensures
            r is None <==> forall|k: int| 0 <= k < self.held().len() ==> (#[trigger] self.held()[k]).id@ != job_id@,
            r matches Some(i) ==> i < self.held().len() && self.held()[i as int].id@ == job_id@,
    {
        let mut i: usize = 0;
        while i < self.jobs.len()
            invariant
                i <= self.jobs@.len(),
                forall|k: int| 0 <= k < i ==> (#[trigger] self.jobs@[k]).id@ != job_id@,
            decreases self.jobs.len() - i,
        {
            if str_equal(self.jobs[i].id.as_str(), job_id) {
                return Some(i);
            }
            i = i + 1;
        }
        None
    }

    /// Moves a failed job here, marked dead-lettered; a held job with the
    /// same id is replaced.
    pub fn send_to_dlq(&mut self, job: Job, reason: String)
        requires
            old(self).wf(),
        ensures
            final(self).wf(),
            exists|k: int| 0 <= k < final(self).held().len() && #[trigger] final(self).held()[k] == (Job { state: JobState::DeadLettered, ..job }),
            forall|k: int| 0 <= k < old(self).held().len() && (#[trigger] old(self).held()[k]).id@ != job.id@
                ==> final(self).held().contains(old(self).held()[k]),
            final(self).held().len() == old(self).held().len() + (if exists|k: int| 0 <= k < old(self).held().len() && (#[trigger] old(self).held()[k]).id@ == job.id@ { 0int } else { 1int }),
    {
        let dead = Job { state: JobState::DeadLettered, ..job };
        let ghost before = self.jobs@;
        match self.find(dead.id.as_str()) {
            Some(i) => {
                self.jobs.set(i, dead);
                proof {
                    assert(self.held()[i as int] == (Job { state: JobState::DeadLettered, ..job }));
                    assert forall|k: int| 0 <= k < before.len() && (#[trigger] before[k]).id@ != job.id@ implies self.jobs@.contains(before[k]) by {
                        assert(k != i);
                        assert(self.jobs@[k] == before[k]);
                    }
                }
            },
            None => {
                self.jobs.push(dead);
                proof {
                    assert(self.held()[before.len() as int] == (Job { state: JobState::DeadLettered, ..job }));
                    assert forall|k: int| 0 <= k < before.len() && (#[trigger] before[k]).id@ != job.id@ implies self.jobs@.contains(before[k]) by {
                        assert(self.jobs@[k] == before[k]);
                    }
                }
            },
        }
    }

    /// The held jobs.
    pub fn list(&self) -> (v: Vec<Job>)
        ensures
            v@ == self.held(),
    {
        let mut v: Vec<Job> = Vec::new();
        let mut i: usize = 0;
        while i < self.jobs.len()
            invariant
                i <= self.jobs@.len(),
                v@.len() == i,
                forall|k: int| 0 <= k < i ==> #[trigger] v@[k] == self.jobs@[k],
            decreases self.jobs.len() - i,
        {
            let j = self.jobs[i].duplicate();
            v.push(j);
            i = i + 1;
        }
        assert(v@ =~= self.jobs@);
        v
    }

    /// Number of held jobs.
    pub fn len(&self) -> (n: usize)
        ensures
            n == self.held().len(),
    {
        self.jobs.len()
    }

    /// Takes a held job back for a manual retry: pending, attempt count
    /// reset. `None` when no job has that id.
    pub fn requeue(&mut self, job_id: &str) -> (r: Option<Job>)
        requires
            old(self).wf(),
        ensures
            final(self).wf(),
            r is None <==> forall|k: int| 0 <= k < old(self).held().len() ==> (#[trigger] old(self).held()[k]).id@ != job_id@,
            r matches Some(j) ==> exists|k: int| 0 <= k < old(self).held().len() && (#[trigger] old(self).held()[k]).id@ == job_id@
                && j == (Job { state: JobState::Pending, attempt: 0, ..old(self).held()[k] })
                && final(self).held() == old(self).held().remove(k),
            r is None ==> final(self).held() == old(self).held(),
    {
        match self.find(job_id) {
            None => None,
            Some(i) => {
                let ghost before = self.jobs@;
                let job = self.jobs.remove(i);
                proof {
                    assert(self.jobs@ =~= before.remove(i as int));
                    assert forall|a: int, b: int| 0 <= a < self.jobs@.len() && 0 <= b < self.jobs@.len() && a != b
                        implies self.jobs@[a].id@ != self.jobs@[b].id@ by {
                        let fa = if a < i { a } else { a + 1 };
                        let fb = if b < i { b } else { b + 1 };
                        assert(self.jobs@[a] == before[fa]);
                        assert(self.jobs@[b] == before[fb]);
                    }
                }
                Some(Job { state: JobState::Pending, attempt: 0, ..job })
            },
        }
    }

    /// Drops the held job with that id, if any.
    pub fn remove(&mut self, job_id: &str)
        requires
            old(self).wf(),
        ensures
            final(self).wf(),
            forall|k: int| 0 <= k < final(self).held().len() ==> (#[trigger] final(self).held()[k]).id@ != job_id@,
            (forall|k: int| 0 <= k < old(self).held().len() ==> (#[trigger] old(self).held()[k]).id@ != job_id@)
                ==> final(self).held() == old(self).held(),
            forall|k: int| 0 <= k < old(self).held().len() && (#[trigger] old(self).held()[k]).id@ == job_id@
                ==> final(self).held() == old(self).held().remove(k),
    {
        let ghost before = self.held();
        let r = self.requeue(job_id);
        proof {
            if r is Some {
                let k = choose|k: int| 0 <= k < before.len() && (#[trigger] before[k]).id@ == job_id@
                    && self.held() == before.remove(k);
                assert forall|k2: int| 0 <= k2 < before.len() && (#[trigger] before[k2]).id@ == job_id@ implies self.held() == before.remove(k2) by {
                    if k2 != k {
                        assert(before[k2].id@ != before[k].id@);
                    }
                }
                assert forall|m: int| 0 <= m < self.held().len() implies (#[trigger] self.held()[m]).id@ != job_id@ by {
                    let fm = if m < k { m } else { m + 1 };
                    assert(self.held()[m] == before[fm]);
                }
            }
        }
    }
}


impl DeadLetterQueue {
    /// A copy of the held job with that id, if any.
    pub fn get(&self, job_id: &str) -> (r: Option<Job>)
        requires
            self.wf(),
        ensures
            r is None <==> forall|k: int| 0 <= k < self.held().len() ==> (#[trigger] self.held()[k]).id@ != job_id@,
            r matches Some(j) ==> exists|k: int| 0 <= k < self.held().len() && #[trigger] self.held()[k] == j && j.id@ == job_id@,
    {
        match self.find(job_id) {
            Some(i) => Some(self.jobs[i].duplicate()),
            None => None,
        }
    }
}

/// Position of the first handler for `kind` among the handled kinds.
pub fn find_handler(kinds: &Vec<String>, kind: &str) -> (r: Option<usize>)
    ensures
        r is None <==> forall|k: int| 0 <= k < kinds@.len() ==> (#[trigger] kinds@[k])@ != kind@,
        r matches Some(i) ==> i < kinds@.len() && kinds@[i as int]@ == kind@
            && forall|k: int| 0 <= k < i ==> (#[trigger] kinds@[k])@ != kind@,
{
    let mut i: usize = 0;
    while i < kinds.len()
        invariant
            i <= kinds@.len(),
            forall|k: int| 0 <= k < i ==> (#[trigger] kinds@[k])@ != kind@,
        decreases kinds.len() - i,
    {
        if str_equal(kinds[i].as_str(), kind) {
            return Some(i);
        }
        i = i + 1;
    }
    None
}

/// The expression parses as a cron schedule (`cron::Schedule::from_str`).
pub uninterp spec fn cron_valid(expr: Seq<char>) -> bool;

/// Parses `expr` with `cron::Schedule::from_str` and takes the first
/// upcoming time in UTC (`upcoming(Utc).next()`), in milliseconds since
/// the Unix epoch. Claimed: an expression that does not parse has no next
/// run. Which time comes next depends on the clock and is not stated.
#[verifier::external_body]
fn cron_next_run(expr: &str) -> (r: Option<i64>)
    ensures
        !cron_valid(expr@) ==> r is None,
{
    match <cron::Schedule as std::str::FromStr>::from_str(expr) {
        Ok(s) => s.upcoming(chrono::Utc).next().map(|t| t.timestamp_millis()),
        Err(_) => None,
    }
}

/// Whether `expr` parses as a cron schedule: `cron::Schedule::from_str`
/// returns `Ok`. Claimed: the answer is `cron_valid(expr)`.
#[verifier::external_body]
fn cron_parses(expr: &str) -> (b: bool)
    ensures
        b == cron_valid(expr@),
{
    <cron::Schedule as std::str::FromStr>::from_str(expr).is_ok()
}

/// A recurring job: when to run (a cron expression) and what to enqueue.
#[derive(Debug, Clone)]
pub struct CronJobDefinition {
    pub id: String,
    pub name: String,
    pub cron_expr: String,
    pub job_kind: String,
    /// JSON payload of the enqueued jobs.
    pub payload: String,
    pub queue_name: String,
    pub enabled: bool,
}

impl CronJobDefinition {
    /// An enabled definition with a fresh id `cron_<uuid>`.
    pub fn new(name: String, cron_expr: String, job_kind: String, payload: String, queue_name: String) -> (d: Self)
        ensures
            d.id@.len() == 37,
            d.id@.subrange(0, 5) == "cron_"@,
            d.name == name,
            d.cron_expr == cron_expr,
            d.job_kind == job_kind,
            d.payload == payload,
            d.queue_name == queue_name,
            d.enabled,
    {
        let mut id = String::new();
        push_str(&mut id, "cron_");
        let u = random_uuid_simple();
        push_str(&mut id, u.as_str());
        proof {
            reveal_strlit("cron_");
            assert(id@.subrange(0, 5) =~= "cron_"@);
        }
        CronJobDefinition { id, name, cron_expr, job_kind, payload, queue_name, enabled: true }
    }

    /// A copy of the definition.
    pub fn duplicate(&self) -> (d: Self)
        ensures
            d == *self,
    {
        CronJobDefinition {
            id: self.id.clone(),
            name: self.name.clone(),
            cron_expr: self.cron_expr.clone(),
            job_kind: self.job_kind.clone(),
            payload: self.payload.clone(),
            queue_name: self.queue_name.clone(),
            enabled: self.enabled,
        }
    }

    /// The next time the expression fires, in milliseconds since the Unix
    /// epoch; `None` when it does not parse or never fires again.
    pub fn next_run(&self) -> (r: Option<i64>)
        ensures
            !cron_valid(self.cron_expr@) ==> r is None,
    {
        if !cron_parses(self.cron_expr.as_str()) {
            return None;
        }
        cron_next_run(self.cron_expr.as_str())
    }

    /// Whether the definition's expression parses as a cron schedule.
    pub fn has_valid_schedule(&self) -> (b: bool)
        ensures
            b == cron_valid(self.cron_expr@),
    {
        cron_parses(self.cron_expr.as_str())
    }
}

/// A run at `next` (milliseconds) is due at `now` when it is at most
/// `tick_secs` whole seconds away, before or after.
pub open spec fn run_due(next: Option<i64>, now: i64, tick_secs: u64) -> bool {
    match next {
        Some(n) => tick_secs <= i64::MAX && (if n >= now { (n - now) / 1000 } else { (now - n) / 1000 }) <= tick_secs,
        None => false,
    }
}

/// Whether a definition whose next run is `next` is due at `now`.
pub fn is_due(next: Option<i64>, now: i64, tick_secs: u64) -> (b: bool)
    ensures
        b == run_due(next, now, tick_secs),
{
    match next {
        Some(n) => {
            if tick_secs > i64::MAX as u64 {
                return false;
            }
            let d: i128 = if n >= now { n as i128 - now as i128 } else { now as i128 - n as i128 };
            d / 1000 <= tick_secs as i128
        },
        None => false,
    }
}

/// The kinds and payloads of the jobs that a tick enqueues into queue `q`:
/// one per enabled definition that is due and names `q`, in order.
pub open spec fn enqueued_for(defs: Seq<CronJobDefinition>, nexts: Seq<Option<i64>>, now: i64, tick_secs: u64, q: Seq<char>) -> Seq<(Seq<char>, Seq<char>)>
    decreases defs.len(),
{
    if defs.len() == 0 || nexts.len() != defs.len() {
        Seq::empty()
    } else {
        let rest = enqueued_for(defs.drop_last(), nexts.drop_last(), now, tick_secs, q);
        let d = defs.last();
        if d.enabled && run_due(nexts.last(), now, tick_secs) && d.queue_name@ == q {
            rest.push((d.job_kind@, d.payload@))
        } else {
            rest
        }
    }
}

/// The queue `q` gained, after its `old` entries, pending jobs of the
/// given kinds and payloads, in that order.
pub open spec fn gained(before: JobQueue, after: JobQueue, added: Seq<(Seq<char>, Seq<char>)>) -> bool {
    &&& after.queue_name() == before.queue_name()
    &&& after.entries().len() == before.entries().len() + added.len()
    &&& forall|k: int| 0 <= k < before.entries().len() ==> #[trigger] after.entries()[k] == before.entries()[k]
    &&& forall|k: int| 0 <= k < added.len() ==> {
        let j = (#[trigger] after.entries()[before.entries().len() + k]).2;
        &&& j.kind@ == added[k].0
        &&& j.payload@ == added[k].1
        &&& j.queue_name@ == before.queue_name()
        &&& j.state == JobState::Pending
        &&& j.attempt == 0
    }
}

/// No two definitions share an id and no two queues a name.
pub open spec fn scheduler_keys_distinct(defs: Seq<CronJobDefinition>, queues: Seq<JobQueue>) -> bool {
    &&& forall|i: int, j: int| 0 <= i < defs.len() && 0 <= j < defs.len() && i != j ==> (#[trigger] defs[i]).id@ != (#[trigger] defs[j]).id@
    &&& forall|i: int, j: int| 0 <= i < queues.len() && 0 <= j < queues.len() && i != j ==> (#[trigger] queues[i]).queue_name() != (#[trigger] queues[j]).queue_name()
}

/// What one tick at `now` did, given the next run of each definition
/// (`None` at least for expressions that do not parse): the due jobs were
/// enqueued.
pub open spec fn ticked(before: JobScheduler, after: JobScheduler, now: i64, nexts: Seq<Option<i64>>, tick_secs: u64) -> bool {
    &&& nexts.len() == before.defs().len()
    &&& forall|k: int| 0 <= k < nexts.len() && !cron_valid((#[trigger] before.defs()[k]).cron_expr@) ==> nexts[k] is None
    &&& after.queue_list().len() == before.queue_list().len()
    &&& forall|k: int| 0 <= k < before.queue_list().len() ==> gained(
        before.queue_list()[k],
        #[trigger] after.queue_list()[k],
        enqueued_for(before.defs(), nexts, now, tick_secs, before.queue_list()[k].queue_name()),
    )
}

/// Cron-style scheduler: definitions and the queues they feed.
pub struct JobScheduler {
    definitions: Vec<CronJobDefinition>,
    queues: Vec<JobQueue>,
}

impl JobScheduler {
    /// The definitions, in the order added.
    pub closed spec fn defs(self) -> Seq<CronJobDefinition> {
        self.definitions@
    }

    /// The registered queues, in the order registered.
    pub closed spec fn queue_list(self) -> Seq<JobQueue> {
        self.queues@
    }

    /// One definition per id, one queue per name.
    pub closed spec fn wf(self) -> bool {
        scheduler_keys_distinct(self.definitions@, self.queues@)
    }

    /// A scheduler without definitions or queues.
    pub fn new() -> (s: Self)
        ensures
            s.wf(),
            s.defs().len() == 0,
            s.queue_list().len() == 0,
    {
        JobScheduler { definitions: Vec::new(), queues: Vec::new() }
    }

    fn queue_index(&self, name: &str) -> (r: Option<usize>)
        ensures
            r is None <==> forall|k: int| 0 <= k < self.queue_list().len() ==> (#[trigger] self.queue_list()[k]).queue_name() != name@,
            r matches Some(i) ==> i < self.queue_list().len() && self.queue_list()[i as int].queue_name() == name@,
    {
        let mut i: usize = 0;
        while i < self.queues.len()
            invariant
                i <= self.queues@.len(),
                forall|k: int| 0 <= k < i ==> (#[trigger] self.queues@[k]).queue_name() != name@,
            decreases self.queues.len() - i,
        {
            if str_equal(self.queues[i].name(), name) {
                assert(self.queue_list()[i as int].queue_name() == name@);
                return Some(i);
            }
            i = i + 1;
        }
        None
    }

    fn def_index(&self, id: &str) -> (r: Option<usize>)
        ensures
            r is None <==> forall|k: int| 0 <= k < self.defs().len() ==> (#[trigger] self.defs()[k]).id@ != id@,
            r matches Some(i) ==> i < self.defs().len() && self.defs()[i as int].id@ == id@,
    {
        let mut i: usize = 0;
        while i < self.definitions.len()
            invariant
                i <= self.definitions@.len(),
                forall|k: int| 0 <= k < i ==> (#[trigger] self.definitions@[k]).id@ != id@,
            decreases self.definitions.len() - i,
        {
            if str_equal(self.definitions[i].id.as_str(), id) {
                assert(self.defs()[i as int].id@ == id@);
                return Some(i);
            }
            i = i + 1;
        }
        None
    }

    /// Registers a queue, replacing one of the same name.
    pub fn register_queue(&mut self, queue: JobQueue)
        requires
            old(self).wf(),
        ensures
            final(self).wf(),
            final(self).defs() == old(self).defs(),
            exists|k: int| 0 <= k < final(self).queue_list().len() && #[trigger] final(self).queue_list()[k] == queue,
            forall|k: int| 0 <= k < old(self).queue_list().len() && (#[trigger] old(self).queue_list()[k]).queue_name() != queue.queue_name()
                ==> final(self).queue_list().contains(old(self).queue_list()[k]),
            forall|k: int| 0 <= k < final(self).queue_list().len() && (#[trigger] final(self).queue_list()[k]).queue_name() != queue.queue_name()
                ==> old(self).queue_list().contains(final(self).queue_list()[k]),
    {
        let ghost before = self.queues@;
        let ghost g = queue;
        match self.queue_index(queue.name()) {
            Some(i) => {
                self.queues.set(i, queue);
                proof {
                    let qs = self.queues@;
                    assert(qs[i as int] == g);
                    assert(self.queue_list()[i as int] == g);
                    assert forall|a: int, b: int| 0 <= a < qs.len() && 0 <= b < qs.len() && a != b implies (#[trigger] qs[a]).queue_name() != (#[trigger] qs[b]).queue_name() by {
                        assert(qs[a].queue_name() == before[a].queue_name() && qs[b].queue_name() == before[b].queue_name());
                    }
                    assert forall|k: int| 0 <= k < before.len() && (#[trigger] before[k]).queue_name() != g.queue_name() implies qs.contains(before[k]) by {
                        assert(k != i);
                        assert(qs[k] == before[k]);
                    }
                    assert forall|k: int| 0 <= k < qs.len() && (#[trigger] qs[k]).queue_name() != g.queue_name() implies before.contains(qs[k]) by {
                        assert(qs[k] == before[k]);
                    }
                }
            },
            None => {
                self.queues.push(queue);
                proof {
                    let qs = self.queues@;
                    let n = before.len() as int;
                    assert(qs[n] == g);
                    assert(self.queue_list()[n] == g);
                    assert forall|a: int, b: int| 0 <= a < qs.len() && 0 <= b < qs.len() && a != b implies (#[trigger] qs[a]).queue_name() != (#[trigger] qs[b]).queue_name() by {
                        if a < n {
                            assert(qs[a] == before[a]);
                        }
                        if b < n {
                            assert(qs[b] == before[b]);
                        }
                    }
                    assert forall|k: int| 0 <= k < before.len() && (#[trigger] before[k]).queue_name() != g.queue_name() implies qs.contains(before[k]) by {
                        assert(qs[k] == before[k]);
                    }
                    assert forall|k: int| 0 <= k < qs.len() && (#[trigger] qs[k]).queue_name() != g.queue_name() implies before.contains(qs[k]) by {
                        assert(qs[k] == before[k]);
                    }
                }
            },
        }
    }

    /// Adds a definition, replacing one with the same id.
    pub fn add_job(&mut self, def: CronJobDefinition)
        requires
            old(self).wf(),
        ensures
            final(self).wf(),
            final(self).queue_list() == old(self).queue_list(),
            exists|k: int| 0 <= k < final(self).defs().len() && #[trigger] final(self).defs()[k] == def,
            forall|k: int| 0 <= k < old(self).defs().len() && (#[trigger] old(self).defs()[k]).id@ != def.id@
                ==> final(self).defs().contains(old(self).defs()[k]),
            forall|k: int| 0 <= k < final(self).defs().len() && (#[trigger] final(self).defs()[k]).id@ != def.id@
                ==> old(self).defs().contains(final(self).defs()[k]),
    {
        let ghost before = self.definitions@;
        let ghost g = def;
        match self.def_index(def.id.as_str()) {
            Some(i) => {
                self.definitions.set(i, def);
                proof {
                    let ds = self.definitions@;
                    assert(ds[i as int] == g);
                    assert(self.defs()[i as int] == g);
                    assert forall|a: int, b: int| 0 <= a < ds.len() && 0 <= b < ds.len() && a != b implies (#[trigger] ds[a]).id@ != (#[trigger] ds[b]).id@ by {
                        assert(ds[a].id@ == before[a].id@ && ds[b].id@ == before[b].id@);
                    }
                    assert forall|k: int| 0 <= k < before.len() && (#[trigger] before[k]).id@ != g.id@ implies ds.contains(before[k]) by {
                        assert(ds[k] == before[k]);
                    }
                    assert forall|k: int| 0 <= k < ds.len() && (#[trigger] ds[k]).id@ != g.id@ implies before.contains(ds[k]) by {
                        assert(ds[k] == before[k]);
                    }
                }
            },
            None => {
                self.definitions.push(def);
                proof {
                    let ds = self.definitions@;
                    let n = before.len() as int;
                    assert(ds[n] == g);
                    assert(self.defs()[n] == g);
                    assert forall|a: int, b: int| 0 <= a < ds.len() && 0 <= b < ds.len() && a != b implies (#[trigger] ds[a]).id@ != (#[trigger] ds[b]).id@ by {
                        if a < n {
                            assert(ds[a] == before[a]);
                        }
                        if b < n {
                            assert(ds[b] == before[b]);
                        }
                    }
                    assert forall|k: int| 0 <= k < before.len() && (#[trigger] before[k]).id@ != g.id@ implies ds.contains(before[k]) by {
                        assert(ds[k] == before[k]);
                    }
                    assert forall|k: int| 0 <= k < ds.len() && (#[trigger] ds[k]).id@ != g.id@ implies before.contains(ds[k]) by {
                        assert(ds[k] == before[k]);
                    }
                }
            },
        }
    }

    /// Removes the definition with that id, if any.
    pub fn remove_job(&mut self, id: &str)
        requires
            old(self).wf(),
        ensures
            final(self).wf(),
            final(self).queue_list() == old(self).queue_list(),
            forall|k: int| 0 <= k < old(self).defs().len() && (#[trigger] old(self).defs()[k]).id@ == id@ ==> final(self).defs() == old(self).defs().remove(k),
            (forall|k: int| 0 <= k < old(self).defs().len() ==> (#[trigger] old(self).defs()[k]).id@ != id@) ==> final(self).defs() == old(self).defs(),
    {
        if let Some(i) = self.def_index(id) {
            let ghost before = self.definitions@;
            self.definitions.remove(i);
            proof {
                let ds = self.definitions@;
                assert(ds =~= before.remove(i as int));
                assert forall|a: int, b: int| 0 <= a < ds.len() && 0 <= b < ds.len() && a != b implies (#[trigger] ds[a]).id@ != (#[trigger] ds[b]).id@ by {
                    let fa = if a < i { a } else { a + 1 };
                    let fb = if b < i { b } else { b + 1 };
                    assert(ds[a] == before[fa] && ds[b] == before[fb]);
                }
                assert forall|k: int| 0 <= k < before.len() && (#[trigger] before[k]).id@ == id@ implies ds == before.remove(k) by {
                    if k != i {
                        assert(before[k].id@ != before[i as int].id@);
                    }
                }
            }
        }
    }

    /// Copies of the definitions.
    pub fn list_jobs(&self) -> (v: Vec<CronJobDefinition>)
        ensures
            v@ == self.defs(),
    {
        let mut v: Vec<CronJobDefinition> = Vec::new();
        let mut i: usize = 0;
        while i < self.definitions.len()
            invariant
                i <= self.definitions@.len(),
                v@ == self.definitions@.take(i as int),
            decreases self.definitions.len() - i,
        {
            v.push(self.definitions[i].duplicate());
            i = i + 1;
            proof {
                assert(v@ =~= self.definitions@.take(i as int));
            }
        }
        assert(self.definitions@.take(self.definitions@.len() as int) =~= self.definitions@);
        v
    }

    /// Pushes a job into the queue named `name`; `false` when there is none.
    pub fn push_to(&mut self, name: &str, job: Job) -> (pushed: bool)
        requires
            old(self).wf(),
        ensures
            final(self).wf(),
            final(self).defs() == old(self).defs(),
            final(self).queue_list().len() == old(self).queue_list().len(),
            pushed <==> exists|k: int| 0 <= k < old(self).queue_list().len() && (#[trigger] old(self).queue_list()[k]).queue_name() == name@,
            forall|k: int| 0 <= k < old(self).queue_list().len() ==> {
                let (b, a) = (old(self).queue_list()[k], #[trigger] final(self).queue_list()[k]);
                if b.queue_name() == name@ {
                    a.queue_name() == b.queue_name() && a.entries() == b.entries().push(
                        (job.priority, #[verifier::truncate] (job.created_at as u64), job),
                    )
                } else {
                    a == b
                }
            },
    {
        match self.queue_index(name) {
            None => false,
            Some(i) => {
                let ghost before = self.queues@;
                let mut q = self.queues.remove(i);
                q.push(job);
                self.queues.insert(i, q);
                proof {
                    let qs = self.queues@;
                    assert forall|k: int| 0 <= k < before.len() && k != i implies #[trigger] qs[k] == before[k] by {}
                    assert forall|k: int| 0 <= k < before.len() && k != i implies (#[trigger] before[k]).queue_name() != name@ by {}
                    assert forall|a: int, b: int| 0 <= a < qs.len() && 0 <= b < qs.len() && a != b implies (#[trigger] qs[a]).queue_name() != (#[trigger] qs[b]).queue_name() by {
                        assert(qs[a].queue_name() == before[a].queue_name() && qs[b].queue_name() == before[b].queue_name());
                    }
                }
                true
            },
        }
    }

    /// Takes the job that runs first from the queue named `name`; `None`
    /// when there is no such queue or it is empty.
    pub fn pop_from(&mut self, name: &str) -> (r: Option<Job>)
        requires
            old(self).wf(),
        ensures
            final(self).wf(),
            final(self).defs() == old(self).defs(),
            final(self).queue_list().len() == old(self).queue_list().len(),
            (forall|k: int| 0 <= k < old(self).queue_list().len() ==> (#[trigger] old(self).queue_list()[k]).queue_name() != name@)
                ==> r is None && final(self).queue_list() == old(self).queue_list(),
            forall|k: int| 0 <= k < old(self).queue_list().len() && (#[trigger] old(self).queue_list()[k]).queue_name() == name@ ==> {
                let (b, a) = (old(self).queue_list()[k], final(self).queue_list()[k]);
                &&& a.queue_name() == b.queue_name()
                &&& b.entries().len() == 0 ==> r is None && a.entries() == b.entries()
                &&& b.entries().len() > 0 ==> exists|m: int| #[trigger] runs_first(b.entries(), m) && r == Some(b.entries()[m].2)
                    && a.entries() == b.entries().remove(m)
                &&& forall|o: int| 0 <= o < old(self).queue_list().len() && o != k ==> final(self).queue_list()[o] == old(self).queue_list()[o]
            },
    {
        match self.queue_index(name) {
            None => None,
            Some(i) => {
                let ghost before = self.queues@;
                let mut q = self.queues.remove(i);
                let r = q.pop();
                self.queues.insert(i, q);
                proof {
                    let qs = self.queues@;
                    assert forall|k: int| 0 <= k < before.len() && k != i implies #[trigger] qs[k] == before[k] by {}
                    assert forall|a: int, b: int| 0 <= a < qs.len() && 0 <= b < qs.len() && a != b implies (#[trigger] qs[a]).queue_name() != (#[trigger] qs[b]).queue_name() by {
                        assert(qs[a].queue_name() == before[a].queue_name() && qs[b].queue_name() == before[b].queue_name());
                    }
                    assert forall|k: int| 0 <= k < before.len() && (#[trigger] before[k]).queue_name() == name@ implies k == i by {
                        if k != i {
                            assert(before[k].queue_name() != before[i as int].queue_name());
                        }
                    }
                }
                r
            },
        }
    }

    /// Number of jobs in the queue named `name`, if there is one.
    pub fn queue_len(&self, name: &str) -> (r: Option<usize>)
        ensures
            r is None <==> forall|k: int| 0 <= k < self.queue_list().len() ==> (#[trigger] self.queue_list()[k]).queue_name() != name@,
            r matches Some(n) ==> exists|k: int| 0 <= k < self.queue_list().len() && (#[trigger] self.queue_list()[k]).queue_name() == name@
                && n == self.queue_list()[k].entries().len(),
    {
        match self.queue_index(name) {
            Some(i) => Some(self.queues[i].len()),
            None => None,
        }
    }

    /// One tick at `now` (milliseconds), given the next run of each
    /// definition: every enabled definition that is due enqueues a new
    /// pending job of its kind and payload into the queue it names, in the
    /// order of the definitions; a definition naming no queue is skipped.
    pub fn run_tick(&mut self, now: i64, tick_secs: u64, next_runs: &Vec<Option<i64>>)
        requires
            old(self).wf(),
            next_runs@.len() == old(self).defs().len(),
        ensures
            final(self).wf(),
            final(self).defs() == old(self).defs(),
            final(self).queue_list().len() == old(self).queue_list().len(),
            forall|k: int| 0 <= k < old(self).queue_list().len() ==> gained(
                old(self).queue_list()[k],
                #[trigger] final(self).queue_list()[k],
                enqueued_for(old(self).defs(), next_runs@, now, tick_secs, old(self).queue_list()[k].queue_name()),
            ),
    {
        let ghost start = self.queues@;
        let mut i: usize = 0;
        while i < self.definitions.len()
            invariant
                self.wf(),
                i <= self.definitions@.len(),
                self.definitions@ == old(self).defs(),
                next_runs@.len() == self.definitions@.len(),
                self.queues@.len() == start.len(),
                start == old(self).queue_list(),
                forall|k: int| 0 <= k < start.len() ==> gained(
                    start[k],
                    #[trigger] self.queues@[k],
                    enqueued_for(self.definitions@.take(i as int), next_runs@.take(i as int), now, tick_secs, start[k].queue_name()),
                ),
            decreases self.definitions.len() - i,
        {
            let ghost before = self.queues@;
            let ghost defs_i = self.definitions@.take(i + 1);
            let ghost nexts_i = next_runs@.take(i + 1);
            proof {
                assert(defs_i.drop_last() =~= self.definitions@.take(i as int));
                assert(nexts_i.drop_last() =~= next_runs@.take(i as int));
                assert(defs_i.last() == self.definitions@[i as int]);
                assert(nexts_i.last() == next_runs@[i as int]);
            }
            let d = &self.definitions[i];
            if d.enabled && is_due(next_runs[i], now, tick_secs) {
                let job = Job::new(d.job_kind.clone(), d.payload.clone(), d.queue_name.clone());
                let qn = d.queue_name.clone();
                let ghost gj = job;
                let pushed = self.push_to(qn.as_str(), job);
                proof {
                    assert forall|k: int| 0 <= k < start.len() implies gained(
                        start[k],
                        #[trigger] self.queues@[k],
                        enqueued_for(defs_i, nexts_i, now, tick_secs, start[k].queue_name()),
                    ) by {
                        let prev = enqueued_for(self.definitions@.take(i as int), next_runs@.take(i as int), now, tick_secs, start[k].queue_name());
                        assert(gained(start[k], before[k], prev));
                        if start[k].queue_name() == qn@ {
                            let now_seq = enqueued_for(defs_i, nexts_i, now, tick_secs, start[k].queue_name());
                            assert(now_seq == prev.push((gj.kind@, gj.payload@)));
                            assert(self.queues@[k].entries() == before[k].entries().push((gj.priority, #[verifier::truncate] (gj.created_at as u64), gj)));
                            assert forall|m: int| 0 <= m < now_seq.len() implies {
                                let j = (#[trigger] self.queues@[k].entries()[start[k].entries().len() + m]).2;
                                &&& j.kind@ == now_seq[m].0
                                &&& j.payload@ == now_seq[m].1
                                &&& j.queue_name@ == start[k].queue_name()
                                &&& j.state == JobState::Pending
                                &&& j.attempt == 0
                            } by {
                                if m < prev.len() {
                                    assert(self.queues@[k].entries()[start[k].entries().len() + m] == before[k].entries()[start[k].entries().len() + m]);
                                }
                            }
                            assert forall|m: int| 0 <= m < start[k].entries().len() implies #[trigger] self.queues@[k].entries()[m] == start[k].entries()[m] by {
                                assert(self.queues@[k].entries()[m] == before[k].entries()[m]);
                            }
                        } else {
                            assert(self.queues@[k] == before[k]);
                        }
                    }
                }
            } else {
                proof {
                    assert forall|k: int| 0 <= k < start.len() implies enqueued_for(defs_i, nexts_i, now, tick_secs, start[k].queue_name())
                        == enqueued_for(self.definitions@.take(i as int), next_runs@.take(i as int), now, tick_secs, start[k].queue_name()) by {}
                }
            }
            i = i + 1;
        }
        proof {
            assert(self.definitions@.take(i as int) =~= self.definitions@);
            assert(next_runs@.take(i as int) =~= next_runs@);
        }
    }

    /// One tick now: reads each definition's next run and enqueues the
    /// due ones, as [`JobScheduler::run_tick`] does.
    pub fn tick(&mut self, tick_secs: u64)
        requires
            old(self).wf(),
        ensures
            final(self).wf(),
            final(self).defs() == old(self).defs(),
            exists|now: i64, nexts: Seq<Option<i64>>| #[trigger] ticked(*old(self), *final(self), now, nexts, tick_secs),
    {
        let now = now_nanos() / 1_000_000;
        let mut nexts: Vec<Option<i64>> = Vec::new();
        let mut i: usize = 0;
        while i < self.definitions.len()
            invariant
                i <= self.definitions@.len(),
                nexts@.len() == i,
                forall|k: int| 0 <= k < i && !cron_valid((#[trigger] self.definitions@[k]).cron_expr@) ==> nexts@[k] is None,
            decreases self.definitions.len() - i,
        {
            nexts.push(self.definitions[i].next_run());
            i = i + 1;
        }
        let ghost gn = nexts@;
        self.run_tick(now, tick_secs, &nexts);
        proof {
            assert(ticked(*old(self), *self, now, gn, tick_secs));
        }
    }
}

/// The job manager: a default queue fed by the scheduler, the dead-letter
/// queue, and the kinds of jobs its workers handle.
pub struct JobManager {
    scheduler: JobScheduler,
    dlq: DeadLetterQueue,
    worker_count: usize,
    handler_kinds: Vec<String>,
}

impl JobManager {
    /// The scheduler, whose queues include the default queue.
    pub closed spec fn scheduler_state(self) -> JobScheduler {
        self.scheduler
    }

    /// The dead-letter queue.
    pub closed spec fn dlq_state(self) -> DeadLetterQueue {
        self.dlq
    }

    /// The job kinds handled, in the order added.
    pub closed spec fn kinds(self) -> Seq<Seq<char>> {
        self.handler_kinds@.map_values(|k: String| k@)
    }

    /// Number of workers to start.
    pub closed spec fn workers(self) -> usize {
        self.worker_count
    }

    /// The scheduler and dead-letter queue are sound and the scheduler has
    /// a queue named `default`.
    pub closed spec fn wf(self) -> bool {
        &&& self.scheduler.wf()
        &&& self.dlq.wf()
        &&& exists|k: int| 0 <= k < self.scheduler.queue_list().len() && (#[trigger] self.scheduler.queue_list()[k]).queue_name() == "default"@
    }

    /// A manager with an empty `default` queue registered with its
    /// scheduler, an empty dead-letter queue and no handlers.
    pub fn new(worker_count: usize) -> (m: Self)
        ensures
            m.wf(),
            m.workers() == worker_count,
            m.kinds().len() == 0,
            m.scheduler_state().defs().len() == 0,
            m.scheduler_state().queue_list().len() == 1,
            m.scheduler_state().queue_list()[0].queue_name() == "default"@,
            m.scheduler_state().queue_list()[0].entries().len() == 0,
            m.dlq_state().held().len() == 0,
    {
        let q = JobQueue::new("default".to_string());
        let mut queues: Vec<JobQueue> = Vec::new();
        queues.push(q);
        let scheduler = JobScheduler { definitions: Vec::new(), queues };
        proof {
            assert(scheduler.queue_list()[0].queue_name() == "default"@);
        }
        JobManager { scheduler, dlq: DeadLetterQueue::new(), worker_count, handler_kinds: Vec::new() }
    }

    /// Adds a handler for jobs of `kind`.
    pub fn add_handler(self, kind: String) -> (m: Self)
        requires
            self.wf(),
        ensures
            m.wf(),
            m.kinds() == self.kinds().push(kind@),
            m.scheduler_state() == self.scheduler_state(),
            m.dlq_state() == self.dlq_state(),
            m.workers() == self.workers(),
    {
        let mut s = self;
        s.handler_kinds.push(kind);
        proof {
            assert(s.kinds() =~= self.kinds().push(kind@));
        }
        s
    }

    /// Enqueues a job to the default queue.
    pub fn enqueue(&mut self, job: Job)
        requires
            old(self).wf(),
        ensures
            final(self).wf(),
            final(self).kinds() == old(self).kinds(),
            final(self).dlq_state() == old(self).dlq_state(),
            forall|k: int| 0 <= k < old(self).scheduler_state().queue_list().len() ==> {
                let (b, a) = (old(self).scheduler_state().queue_list()[k], #[trigger] final(self).scheduler_state().queue_list()[k]);
                if b.queue_name() == "default"@ {
                    a.queue_name() == b.queue_name() && a.entries() == b.entries().push(
                        (job.priority, #[verifier::truncate] (job.created_at as u64), job),
                    )
                } else {
                    a == b
                }
            },
    {
        let ghost before = self.scheduler.queue_list();
        proof {
            reveal_strlit("default");
        }
        self.scheduler.push_to("default", job);
        proof {
            let k = choose|k: int| 0 <= k < before.len() && (#[trigger] before[k]).queue_name() == "default"@;
            assert(self.scheduler.queue_list()[k].queue_name() == "default"@);
        }
    }

    /// The scheduler.
    pub fn scheduler(&self) -> (s: &JobScheduler)
        ensures
            *s == self.scheduler_state(),
    {
        &self.scheduler
    }

    /// The dead-letter queue.
    pub fn dlq(&self) -> (d: &DeadLetterQueue)
        ensures
            *d == self.dlq_state(),
    {
        &self.dlq
    }

    /// Number of jobs waiting in the default queue.
    pub fn queue_depth(&self) -> (n: usize)
        requires
            self.wf(),
        ensures
            exists|k: int| 0 <= k < self.scheduler_state().queue_list().len()
                && (#[trigger] self.scheduler_state().queue_list()[k]).queue_name() == "default"@
                && n == self.scheduler_state().queue_list()[k].entries().len(),
    {
        proof {
            reveal_strlit("default");
            let k = choose|k: int| 0 <= k < self.scheduler.queue_list().len() && (#[trigger] self.scheduler.queue_list()[k]).queue_name() == "default"@;
            assert(self.scheduler.queue_list()[k].queue_name() == "default"@);
        }
        let r = self.scheduler.queue_len("default");
        match r {
            Some(n) => {
                proof {
                    let k = choose|k: int| 0 <= k < self.scheduler.queue_list().len() && (#[trigger] self.scheduler.queue_list()[k]).queue_name() == "default"@
                        && n == self.scheduler.queue_list()[k].entries().len();
                    assert(self.scheduler_state().queue_list()[k].queue_name() == "default"@);
                }
                n
            },
            None => {
                proof {
                    let k = choose|k: int| 0 <= k < self.scheduler.queue_list().len() && (#[trigger] self.scheduler.queue_list()[k]).queue_name() == "default"@;
                    assert(self.scheduler.queue_list()[k].queue_name() != "default"@);
                }
                0
            },
        }
    }
}

} // verus!
