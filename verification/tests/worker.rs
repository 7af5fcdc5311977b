use std::cell::Cell;

use tiny_workers::worker::{apply_action, complete_job, decide, run_worker_once, wait_after_round};
use tiny_workers::{
    AlwaysFailsHandler, AlwaysRetryHandler, AlwaysSucceedHandler, HandleOutcome, HandlerError, HandlesJob, JobRepo,
    JobStatus, RepoAction, RepoError, WorkerConfig, WorkerStep,
};

#[derive(Debug, Clone, PartialEq, Eq)]
enum JobPayload {
    Generate(GeneratePayload),
    Resolve(ResolvePayload),
}

#[derive(Debug, Clone, PartialEq, Eq)]
struct GeneratePayload {
    id: i64,
    min: i64,
    max: i64,
}

#[derive(Debug, Clone, PartialEq, Eq)]
struct ResolvePayload {
    id: i64,
    sleep_ms: u64,
}

struct Handler {}

impl HandlesJob<JobPayload> for Handler {
    fn handle_job(&self, job_payload: &JobPayload) -> Result<HandleOutcome, HandlerError> {
        match job_payload {
            JobPayload::Generate(_payload) => Ok(HandleOutcome::Succeeded),
            JobPayload::Resolve(_payload) => Ok(HandleOutcome::Retry { reason: String::from("just testing") }),
        }
    }
}

const NOW: i64 = 1_725_029_869;

fn setup() -> JobRepo<JobPayload> {
    JobRepo::new()
}

fn enqueue_generate(repo: &mut JobRepo<JobPayload>) {
    let job_payload = JobPayload::Generate(GeneratePayload { id: 1, min: 10, max: 20 });
    assert_eq!(repo.enqueue(job_payload, NOW).unwrap(), 1);
}

fn retry(job_id: i64) -> WorkerStep {
    WorkerStep::Retry { job_id, reason: "alwaysretries".to_string() }
}

#[test]
fn enqueue_then_claim_succeeds() {
    let mut repo = setup();
    enqueue_generate(&mut repo);
    let handler = AlwaysSucceedHandler {};
    let res = run_worker_once(&mut repo, &handler, NOW, &WorkerConfig::default());
    assert_eq!(WorkerStep::Succeeded { job_id: 1 }, res.unwrap());
}

#[test]
fn retry_works() {
    let mut repo = setup();
    enqueue_generate(&mut repo);
    let handler = AlwaysRetryHandler {};
    let res = run_worker_once(&mut repo, &handler, NOW, &WorkerConfig::default());
    assert_eq!(retry(1), res.unwrap());
}

#[test]
fn works_after_one_retry() {
    let mut repo = setup();
    enqueue_generate(&mut repo);
    let config = WorkerConfig::default();
    let res = run_worker_once(&mut repo, &AlwaysRetryHandler {}, NOW, &config);
    assert_eq!(res.unwrap(), retry(1));
    let res = run_worker_once(&mut repo, &AlwaysSucceedHandler {}, NOW, &config);
    assert_eq!(res.unwrap(), WorkerStep::Succeeded { job_id: 1 });
}

#[test]
fn three_retries_and_failure() {
    let mut repo = setup();
    enqueue_generate(&mut repo);
    let config = WorkerConfig::default();
    let handler = AlwaysRetryHandler {};
    let res = run_worker_once(&mut repo, &handler, NOW, &config);
    assert_eq!(res.unwrap(), retry(1));
    let res = run_worker_once(&mut repo, &handler, NOW, &config);
    assert_eq!(res.unwrap(), retry(1));
    let res = run_worker_once(&mut repo, &handler, NOW, &config);
    assert_eq!(res.unwrap(), WorkerStep::Failure { job_id: 1, reason: "alwaysretries".to_string() });
}

#[test]
fn failure_works() {
    let mut repo = setup();
    enqueue_generate(&mut repo);
    let handler = AlwaysFailsHandler {};
    let res = run_worker_once(&mut repo, &handler, NOW, &WorkerConfig::default());
    assert_eq!(WorkerStep::Failure { job_id: 1, reason: "alwaysfails".to_string() }, res.unwrap());
}

#[test]
fn only_one_claims_when_two_workers() {
    let mut repo = setup();
    enqueue_generate(&mut repo);
    let config = WorkerConfig::default();
    let handler_1 = Handler {};
    let handler_2 = Handler {};
    let res1 = run_worker_once(&mut repo, &handler_1, NOW, &config).unwrap();
    let res2 = run_worker_once(&mut repo, &handler_2, NOW, &config).unwrap();
    assert!(matches!(
        (res1, res2),
        (WorkerStep::Idle, WorkerStep::Succeeded { job_id: 1 }) | (WorkerStep::Succeeded { job_id: 1 }, WorkerStep::Idle),
    ));
}

#[test]
fn idle_when_queue_is_empty() {
    let mut repo = setup();
    let res = run_worker_once(&mut repo, &AlwaysSucceedHandler {}, NOW, &WorkerConfig::default());
    assert_eq!(res, Ok(WorkerStep::Idle));
    assert!(repo.rows().is_empty());
}

#[test]
fn default_config_values() {
    let c = WorkerConfig::default();
    assert_eq!(c.max_job_attempts, 3);
    assert_eq!(c.idle_poll_interval_ms, 100);
    assert_eq!(c.lease_for_secs, 10);
}

#[test]
fn handler_error_message() {
    let e = HandlerError::new("boom");
    assert_eq!(e.to_string(), "boom");
    assert_eq!(e.message, "boom".to_string());
}

#[test]
fn mock_handlers_answers() {
    let p = JobPayload::Resolve(ResolvePayload { id: 3, sleep_ms: 0 });
    assert_eq!(AlwaysSucceedHandler {}.handle_job(&p), Ok(HandleOutcome::Succeeded));
    assert_eq!(
        AlwaysRetryHandler {}.handle_job(&p),
        Ok(HandleOutcome::Retry { reason: "alwaysretries".to_string() })
    );
    assert_eq!(AlwaysFailsHandler {}.handle_job(&p), Err(HandlerError::new("alwaysfails")));
    assert_eq!(Handler {}.handle_job(&p), Ok(HandleOutcome::Retry { reason: "just testing".to_string() }));
}

#[test]
fn decide_covers_every_answer() {
    assert_eq!(
        decide(4, 1, Ok(HandleOutcome::Succeeded), 3),
        (WorkerStep::Succeeded { job_id: 4 }, RepoAction::MarkSucceeded { job_id: 4 })
    );
    assert_eq!(
        decide(4, 2, Ok(HandleOutcome::Retry { reason: "r".to_string() }), 3),
        (
            WorkerStep::Retry { job_id: 4, reason: "r".to_string() },
            RepoAction::Requeue { job_id: 4, attempts: 2, error: "r".to_string() }
        )
    );
    assert_eq!(
        decide(4, 3, Ok(HandleOutcome::Retry { reason: "r".to_string() }), 3),
        (WorkerStep::Failure { job_id: 4, reason: "r".to_string() }, RepoAction::MarkFailed { job_id: 4 })
    );
    assert_eq!(
        decide(4, 1, Err(HandlerError::new("bad")), 3),
        (WorkerStep::Failure { job_id: 4, reason: "bad".to_string() }, RepoAction::MarkFailed { job_id: 4 })
    );
}

#[test]
fn apply_action_updates_the_queue() {
    let mut repo = setup();
    enqueue_generate(&mut repo);
    enqueue_generate(&mut repo);
    assert_eq!(apply_action(&mut repo, &RepoAction::MarkSucceeded { job_id: 1 }), Ok(()));
    assert_eq!(apply_action(&mut repo, &RepoAction::MarkFailed { job_id: 2 }), Ok(()));
    assert_eq!(repo.rows()[0].status, JobStatus::Succeeded);
    assert_eq!(repo.rows()[1].status, JobStatus::Failed);
    assert_eq!(
        apply_action(&mut repo, &RepoAction::Requeue { job_id: 2, attempts: 1, error: "x".to_string() }),
        Err(RepoError::NotRequeued { job_id: 2 })
    );
}

#[test]
fn complete_job_fails_when_job_is_no_longer_leased() {
    let mut repo = setup();
    enqueue_generate(&mut repo);
    let config = WorkerConfig::default();
    let res = complete_job(&mut repo, 1, 1, Ok(HandleOutcome::Retry { reason: "r".to_string() }), &config);
    assert_eq!(res, Err(RepoError::NotRequeued { job_id: 1 }));
    assert_eq!(repo.rows()[0].status, JobStatus::Pending);
}

#[test]
fn failed_job_is_not_run_again() {
    let mut repo = setup();
    enqueue_generate(&mut repo);
    let config = WorkerConfig::default();
    let res = run_worker_once(&mut repo, &AlwaysFailsHandler {}, NOW, &config);
    assert!(matches!(res, Ok(WorkerStep::Failure { job_id: 1, .. })));
    let res = run_worker_once(&mut repo, &AlwaysSucceedHandler {}, NOW + 1000, &config);
    assert_eq!(res, Ok(WorkerStep::Idle));
    assert_eq!(repo.rows()[0].status, JobStatus::Failed);
}

#[test]
fn retried_job_waits_when_leased_by_another_claim() {
    let mut repo = setup();
    enqueue_generate(&mut repo);
    let config = WorkerConfig::default();
    let first = repo.claim_next(NOW, config.lease_for_secs, config.max_job_attempts).unwrap();
    // The lease ran out and another worker took the job over.
    let second = repo.claim_next(NOW + 20, config.lease_for_secs, config.max_job_attempts).unwrap();
    assert_eq!(first.queue_id, second.queue_id);
    let res = complete_job(&mut repo, first.queue_id, first.attempts, Ok(HandleOutcome::Succeeded), &config);
    assert_eq!(res, Ok(WorkerStep::Succeeded { job_id: 1 }));
    assert_eq!(repo.rows()[0].status, JobStatus::Succeeded);
}

#[test]
fn wait_only_after_idle_rounds() {
    let config = WorkerConfig::default();
    assert_eq!(wait_after_round(Some(&WorkerStep::Idle), &config), 100);
    assert_eq!(wait_after_round(Some(&WorkerStep::Succeeded { job_id: 1 }), &config), 0);
    assert_eq!(wait_after_round(Some(&retry(1)), &config), 0);
    assert_eq!(wait_after_round(Some(&WorkerStep::Failure { job_id: 1, reason: "x".to_string() }), &config), 0);
    assert_eq!(wait_after_round(None, &config), 0);
    let custom = WorkerConfig { max_job_attempts: 3, idle_poll_interval_ms: 7, lease_for_secs: 10 };
    assert_eq!(wait_after_round(Some(&WorkerStep::Idle), &custom), 7);
}

struct CountingRetryHandler {
    runs: Cell<u32>,
}

impl HandlesJob<JobPayload> for CountingRetryHandler {
    fn handle_job(&self, _job_payload: &JobPayload) -> Result<HandleOutcome, HandlerError> {
        self.runs.set(self.runs.get() + 1);
        Ok(HandleOutcome::Retry { reason: "again".to_string() })
    }
}

#[test]
fn handler_runs_at_most_max_attempts_times() {
    let mut repo = setup();
    enqueue_generate(&mut repo);
    let config = WorkerConfig::default();
    let handler = CountingRetryHandler { runs: Cell::new(0) };
    let mut steps = Vec::new();
    for round in 0..10 {
        steps.push(run_worker_once(&mut repo, &handler, NOW + 100 * round, &config).unwrap());
    }
    assert_eq!(handler.runs.get(), 3);
    assert_eq!(steps[2], WorkerStep::Failure { job_id: 1, reason: "again".to_string() });
    assert!(steps[3..].iter().all(|s| *s == WorkerStep::Idle));
    assert_eq!(repo.rows()[0].status, JobStatus::Failed);
    assert_eq!(repo.rows()[0].attempts, 3);
}

#[test]
fn succeeded_job_is_not_run_again() {
    let mut repo = setup();
    enqueue_generate(&mut repo);
    let config = WorkerConfig::default();
    assert_eq!(run_worker_once(&mut repo, &AlwaysSucceedHandler {}, NOW, &config), Ok(WorkerStep::Succeeded { job_id: 1 }));
    let handler = CountingRetryHandler { runs: Cell::new(0) };
    for round in 1..5 {
        assert_eq!(run_worker_once(&mut repo, &handler, NOW + 100 * round, &config), Ok(WorkerStep::Idle));
    }
    assert_eq!(handler.runs.get(), 0);
    assert_eq!(repo.rows()[0].status, JobStatus::Succeeded);
}
