//! The decisions a worker takes for each job: claim one, hand it to the
//! handler, and settle it from the handler's answer.

use vstd::prelude::*;
use crate::handlers::{HandleOutcome, HandlerError, HandlesJob};
use crate::job_repo::{
    claimable, ids_increasing, lemma_index_of, leased_row, next_claim, requeue_effect, with_status, JobRepo, JobRow,
    RepoError,
};
use crate::jobs::JobStatus;

verus! {

/// What one round of a worker came to.
#[derive(Debug, Clone, PartialEq, Eq)]
pub enum WorkerStep {
    /// No job could be claimed.
    Idle,
    Succeeded { job_id: i64 },
    Retry { job_id: i64, reason: String },
    Failure { job_id: i64, reason: String },
}

/// How a worker runs: how often a job may be claimed before a retry becomes a
/// failure, how long it waits when idle, and how long a lease lasts.
#[derive(Debug, Clone, PartialEq, Eq)]
pub struct WorkerConfig {
    pub max_job_attempts: i32,
    pub idle_poll_interval_ms: u64,
    pub lease_for_secs: i64,
}

impl Default for WorkerConfig {
    /// Three attempts, a 100 ms idle poll and 10 s leases.
    fn default() -> (c: WorkerConfig)
        ensures
            c.max_job_attempts == 3,
            c.idle_poll_interval_ms == 100,
            c.lease_for_secs == 10,
    {
        WorkerConfig { max_job_attempts: 3, idle_poll_interval_ms: 100, lease_for_secs: 10 }
    }
}

/// The change to the queue that settles a job.
#[derive(Debug, Clone, PartialEq, Eq)]
pub enum RepoAction {
    MarkSucceeded { job_id: i64 },
    MarkFailed { job_id: i64 },
    Requeue { job_id: i64, attempts: i32, error: String },
}

/// The step and the queue change for job `job_id`, claimed for the
/// `attempts`-th time, whose handler answered `outcome`.
///
/// A success marks the job succeeded. A retry puts it back with its attempt
/// count, unless this was attempt `max_job_attempts`: then it is marked
/// failed. A handler error marks it failed with the error's message.
pub open spec fn decision(
    job_id: i64,
    attempts: i32,
    outcome: Result<HandleOutcome, HandlerError>,
    max_job_attempts: i32,
) -> (WorkerStep, RepoAction) {
    match outcome {
        Ok(HandleOutcome::Succeeded) => (WorkerStep::Succeeded { job_id }, RepoAction::MarkSucceeded { job_id }),
        Ok(HandleOutcome::Retry { reason }) => if attempts == max_job_attempts {
            (WorkerStep::Failure { job_id, reason }, RepoAction::MarkFailed { job_id })
        } else {
            (WorkerStep::Retry { job_id, reason }, RepoAction::Requeue { job_id, attempts, error: reason })
        },
        Err(e) => (WorkerStep::Failure { job_id, reason: e.message }, RepoAction::MarkFailed { job_id }),
    }
}

/// The job that `action` settles.
pub open spec fn action_job(action: RepoAction) -> i64 {
    match action {
        RepoAction::MarkSucceeded { job_id } => job_id,
        RepoAction::MarkFailed { job_id } => job_id,
        RepoAction::Requeue { job_id, .. } => job_id,
    }
}

/// What carrying out `action` on the table `before` does: the result `res`
/// and the table `after`.
pub open spec fn action_effect<T>(
    before: Seq<JobRow<T>>,
    action: RepoAction,
    res: Result<(), RepoError>,
    after: Seq<JobRow<T>>,
) -> bool {
    match action {
        RepoAction::MarkSucceeded { job_id } => res is Ok && after == with_status(
            before,
            job_id,
            JobStatus::Succeeded,
        ),
        RepoAction::MarkFailed { job_id } => res is Ok && after == with_status(before, job_id, JobStatus::Failed),
        RepoAction::Requeue { job_id, attempts, error } => requeue_effect(
            before,
            job_id,
            attempts,
            error@,
            res,
            after,
        ),
    }
}

/// What settling job `job_id` (claimed for the `attempts`-th time) from the
/// handler's `outcome` does: the worker's result `res` and the table `after`.
pub open spec fn settle_effect<T>(
    before: Seq<JobRow<T>>,
    job_id: i64,
    attempts: i32,
    outcome: Result<HandleOutcome, HandlerError>,
    max_job_attempts: i32,
    res: Result<WorkerStep, RepoError>,
    after: Seq<JobRow<T>>,
) -> bool {
    let d = decision(job_id, attempts, outcome, max_job_attempts);
    match res {
        Ok(step) => step == d.0 && action_effect(before, d.1, Ok(()), after),
        Err(e) => action_effect(before, d.1, Err(e), after),
    }
}

/// The step and the queue change for a job from its handler's answer: see
/// [`decision`].
pub fn decide(
    job_id: i64,
    attempts: i32,
    outcome: Result<HandleOutcome, HandlerError>,
    max_job_attempts: i32,
) -> (r: (WorkerStep, RepoAction))
    ensures
        r == decision(job_id, attempts, outcome, max_job_attempts),
{
    match outcome {
        Ok(HandleOutcome::Succeeded) => (WorkerStep::Succeeded { job_id }, RepoAction::MarkSucceeded { job_id }),
        Ok(HandleOutcome::Retry { reason }) => {
            if attempts == max_job_attempts {
                (WorkerStep::Failure { job_id, reason }, RepoAction::MarkFailed { job_id })
            } else {
                let error = reason.clone();
                (WorkerStep::Retry { job_id, reason }, RepoAction::Requeue { job_id, attempts, error })
            }
        },
        Err(e) => (WorkerStep::Failure { job_id, reason: e.message }, RepoAction::MarkFailed { job_id }),
    }
}

/// Carries out `action` on the queue.
pub fn apply_action<T>(repo: &mut JobRepo<T>, action: &RepoAction) -> (res: Result<(), RepoError>)
    requires
        old(repo).wf(),
    ensures
        final(repo).wf(),
        action_effect(old(repo)@, *action, res, final(repo)@),
{
    match action {
        RepoAction::MarkSucceeded { job_id } => {
            repo.mark_succeeded(*job_id);
            Ok(())
        },
        RepoAction::MarkFailed { job_id } => {
            repo.mark_failed(*job_id);
            Ok(())
        },
        RepoAction::Requeue { job_id, attempts, error } => repo.requeue(*job_id, *attempts, error.as_str()),
    }
}

/// Settles job `job_id`, claimed for the `attempts`-th time, from its
/// handler's `outcome`, and returns the worker's step.
///
/// Fails only when a retry finds the job no longer leased.
pub fn complete_job<T>(
    repo: &mut JobRepo<T>,
    job_id: i64,
    attempts: i32,
    outcome: Result<HandleOutcome, HandlerError>,
    config: &WorkerConfig,
) -> (res: Result<WorkerStep, RepoError>)
    requires
        old(repo).wf(),
    ensures
        final(repo).wf(),
        settle_effect(old(repo)@, job_id, attempts, outcome, config.max_job_attempts, res, final(repo)@),
{
    let (step, action) = decide(job_id, attempts, outcome, config.max_job_attempts);
    match apply_action(repo, &action) {
        Ok(()) => Ok(step),
        Err(e) => Err(e),
    }
}

/// What one worker round at `now` does to the table `before`, whatever the
/// handler answers: with no claimable job the round is `Idle` and nothing
/// changes; otherwise the next job is leased and then settled from some
/// answer.
pub open spec fn round_step<T>(
    before: Seq<JobRow<T>>,
    now: i64,
    config: WorkerConfig,
    res: Result<WorkerStep, RepoError>,
    after: Seq<JobRow<T>>,
) -> bool {
    &&& i64::MIN <= now + config.lease_for_secs <= i64::MAX
    &&& match next_claim(before, now, config.max_job_attempts) {
        None => res == Ok::<WorkerStep, RepoError>(WorkerStep::Idle) && after == before,
        Some(k) => exists|outcome: Result<HandleOutcome, HandlerError>|
            #[trigger] settle_effect(
                before.update(k, leased_row(before[k], now, config.lease_for_secs)),
                before[k].id,
                (before[k].attempts + 1) as i32,
                outcome,
                config.max_job_attempts,
                res,
                after,
            ),
    }
}

/// One round of a worker at time `now`: claims the next job, hands its
/// payload to `handler` and settles the job from the answer.
///
/// Without a claimable job the queue is left as it is and the round is
/// `Idle`. Otherwise the job that `claim_next` takes is leased, and the
/// round ends as `complete_job` does for whatever the handler answered.
pub fn run_worker_once<T: Clone, H: HandlesJob<T>>(
    repo: &mut JobRepo<T>,
    handler: &H,
    now: i64,
    config: &WorkerConfig,
) -> (res: Result<WorkerStep, RepoError>)
    requires
        old(repo).wf(),
        i64::MIN <= now + config.lease_for_secs <= i64::MAX,
    ensures
        final(repo).wf(),
        match next_claim(old(repo)@, now, config.max_job_attempts) {
            None => res == Ok::<WorkerStep, RepoError>(WorkerStep::Idle) && final(repo)@ == old(repo)@,
            Some(k) => exists|payload: T, outcome: Result<HandleOutcome, HandlerError>|
                cloned(old(repo)@[k].payload, payload) && #[trigger] call_ensures(
                    <H as HandlesJob<T>>::handle_job,
                    (handler, &payload),
                    outcome,
                ) && #[trigger] settle_effect(
                    old(repo)@.update(k, leased_row(old(repo)@[k], now, config.lease_for_secs)),
                    old(repo)@[k].id,
                    (old(repo)@[k].attempts + 1) as i32,
                    outcome,
                    config.max_job_attempts,
                    res,
                    final(repo)@,
                ),
        },
        round_step(old(repo)@, now, *config, res, final(repo)@),
{
    let claimed = repo.claim_next(now, config.lease_for_secs, config.max_job_attempts);
    match claimed {
        None => Ok(WorkerStep::Idle),
        Some(job) => {
            let ghost leased = repo@;
            let outcome = handler.handle_job(&job.payload);
            let ghost answer = outcome;
            let res = complete_job(repo, job.queue_id, job.attempts, outcome, config);
            assert(settle_effect(leased, job.queue_id, job.attempts, answer, config.max_job_attempts, res, repo@));
            assert(call_ensures(<H as HandlesJob<T>>::handle_job, (handler, &job.payload), answer));
            res
        },
    }
}

/// How long a worker waits before its next round, in milliseconds; `round`
/// is `None` when the round failed. Only an idle round is followed by the
/// idle poll interval.
pub fn wait_after_round(round: Option<&WorkerStep>, config: &WorkerConfig) -> (ms: u64)
    ensures
        ms == (if round matches Some(WorkerStep::Idle) {
            config.idle_poll_interval_ms
        } else {
            0
        }),
{
    match round {
        Some(WorkerStep::Idle) => config.idle_poll_interval_ms,
        _ => 0,
    }
}

/// The step and the queue change that settle a job both name that job.
pub proof fn lemma_decision_names_job(
    job_id: i64,
    attempts: i32,
    outcome: Result<HandleOutcome, HandlerError>,
    max_job_attempts: i32,
)
    ensures
        ({
            let d = decision(job_id, attempts, outcome, max_job_attempts);
            &&& d.0 !is Idle
            &&& match d.0 {
                WorkerStep::Succeeded { job_id: j } => j == job_id,
                WorkerStep::Retry { job_id: j, .. } => j == job_id,
                WorkerStep::Failure { job_id: j, .. } => j == job_id,
                WorkerStep::Idle => false,
            }
            &&& match d.1 {
                RepoAction::MarkSucceeded { job_id: j } => j == job_id,
                RepoAction::MarkFailed { job_id: j } => j == job_id,
                RepoAction::Requeue { job_id: j, attempts: a, .. } => j == job_id && a == attempts,
            }
        }),
{
}

/// A job whose handler succeeds, fails, or asks for a retry on its last
/// attempt is settled for good: the round reports it, the job ends succeeded
/// or failed, is never claimed again, and no other job changes.
pub proof fn lemma_settled_for_good<T>(
    before: Seq<JobRow<T>>,
    k: int,
    attempts: i32,
    outcome: Result<HandleOutcome, HandlerError>,
    max_job_attempts: i32,
    res: Result<WorkerStep, RepoError>,
    after: Seq<JobRow<T>>,
)
    requires
        ids_increasing(before),
        0 <= k < before.len(),
        settle_effect(before, before[k].id, attempts, outcome, max_job_attempts, res, after),
        outcome matches Ok(HandleOutcome::Retry { .. }) ==> attempts == max_job_attempts,
    ensures
        res is Ok,
        res == Ok::<WorkerStep, RepoError>(decision(before[k].id, attempts, outcome, max_job_attempts).0),
        after.len() == before.len(),
        after[k].status.is_terminal(),
        after[k].status == JobStatus::Succeeded <==> outcome == Ok::<HandleOutcome, HandlerError>(
            HandleOutcome::Succeeded,
        ),
        forall|t: i64, m: i32| !#[trigger] claimable(after[k], t, m),
        forall|j: int| 0 <= j < before.len() && j != k ==> #[trigger] after[j] == before[j],
{
    assert forall|j: int| 0 <= j < before.len() && j != k implies #[trigger] after[j] == before[j] by {
        if j < k {
            assert(before[j].id < before[k].id);
        } else {
            assert(before[k].id < before[j].id);
        }
    }
}

/// A job retried before its last attempt goes back to the queue while it is
/// still leased: the round reports the retry with the handler's reason, no
/// other job changes, and the job can be claimed again from its
/// `available_at` on while it has attempts left.
pub proof fn lemma_retry_requeues<T>(
    before: Seq<JobRow<T>>,
    k: int,
    attempts: i32,
    reason: String,
    max_job_attempts: i32,
    res: Result<WorkerStep, RepoError>,
    after: Seq<JobRow<T>>,
    t: i64,
)
    requires
        ids_increasing(before),
        0 <= k < before.len(),
        before[k].status == JobStatus::Leased,
        attempts != max_job_attempts,
        settle_effect(
            before,
            before[k].id,
            attempts,
            Ok(HandleOutcome::Retry { reason }),
            max_job_attempts,
            res,
            after,
        ),
    ensures
        res == Ok::<WorkerStep, RepoError>(WorkerStep::Retry { job_id: before[k].id, reason }),
        after.len() == before.len(),
        after[k].status == JobStatus::Pending,
        after[k].attempts == attempts,
        after[k].last_error matches Some(e) && e@ == reason@,
        forall|j: int| 0 <= j < before.len() && j != k ==> #[trigger] after[j] == before[j],
        attempts < max_job_attempts && before[k].available_at <= t ==> claimable(after[k], t, max_job_attempts),
{
    lemma_index_of(before, before[k].id, k);
}

/// Settling a job whose handler answered with an error fails the job: the
/// round reports `Failure` with the error's message, the job's row becomes
/// `Failed` with every other field kept, and no other row changes.
pub proof fn lemma_handler_error_fails_job<T>(
    before: Seq<JobRow<T>>,
    k: int,
    attempts: i32,
    e: HandlerError,
    max_job_attempts: i32,
    res: Result<WorkerStep, RepoError>,
    after: Seq<JobRow<T>>,
)
    requires
        ids_increasing(before),
        0 <= k < before.len(),
        settle_effect(before, before[k].id, attempts, Err(e), max_job_attempts, res, after),
    ensures
        res == Ok::<WorkerStep, RepoError>(WorkerStep::Failure { job_id: before[k].id, reason: e.message }),
        after.len() == before.len(),
        after[k].status == JobStatus::Failed,
        after[k].id == before[k].id,
        after[k].attempts == before[k].attempts,
        after[k].payload == before[k].payload,
        after[k].last_error == before[k].last_error,
        forall|j: int| 0 <= j < before.len() && j != k ==> #[trigger] after[j] == before[j],
{
    assert forall|j: int| 0 <= j < before.len() && j != k implies #[trigger] after[j] == before[j] by {
        if j < k {
            assert(before[j].id < before[k].id);
        } else {
            assert(before[k].id < before[j].id);
        }
    }
}

/// Settling a job whose handler answered `Succeeded` marks it succeeded: the
/// round reports `Succeeded` for it, its row becomes `Succeeded` with every
/// other field kept, and no other row changes.
pub proof fn lemma_handler_success_completes_job<T>(
    before: Seq<JobRow<T>>,
    k: int,
    attempts: i32,
    max_job_attempts: i32,
    res: Result<WorkerStep, RepoError>,
    after: Seq<JobRow<T>>,
)
    requires
        ids_increasing(before),
        0 <= k < before.len(),
        settle_effect(before, before[k].id, attempts, Ok(HandleOutcome::Succeeded), max_job_attempts, res, after),
    ensures
        res == Ok::<WorkerStep, RepoError>(WorkerStep::Succeeded { job_id: before[k].id }),
        after.len() == before.len(),
        after[k].status == JobStatus::Succeeded,
        after[k].id == before[k].id,
        after[k].attempts == before[k].attempts,
        after[k].payload == before[k].payload,
        forall|j: int| 0 <= j < before.len() && j != k ==> #[trigger] after[j] == before[j],
{
    assert forall|j: int| 0 <= j < before.len() && j != k implies #[trigger] after[j] == before[j] by {
        if j < k {
            assert(before[j].id < before[k].id);
        } else {
            assert(before[k].id < before[j].id);
        }
    }
}

} // verus!
