//! Properties of a worker's rounds over time: how often a job's handler
//! runs, and that a settled job stays settled.

use vstd::prelude::*;
use crate::handlers::{HandleOutcome, HandlerError};
use crate::job_repo::{
    claimable, ids_increasing, is_next_claim, lemma_index_of, lemma_next_claim_unique, next_claim, JobRow, RepoError,
};
use crate::jobs::JobStatus;
use crate::worker::{decision, round_step, settle_effect, WorkerConfig, WorkerStep};

verus! {

/// The id of the job that a round's step reports on, if it names one.
pub open spec fn step_job(res: Result<WorkerStep, RepoError>) -> Option<i64> {
    match res {
        Ok(WorkerStep::Succeeded { job_id }) => Some(job_id),
        Ok(WorkerStep::Retry { job_id, .. }) => Some(job_id),
        Ok(WorkerStep::Failure { job_id, .. }) => Some(job_id),
        _ => None,
    }
}

/// The status a round's step leaves its job in.
pub open spec fn step_status(res: Result<WorkerStep, RepoError>) -> Option<JobStatus> {
    match res {
        Ok(WorkerStep::Succeeded { .. }) => Some(JobStatus::Succeeded),
        Ok(WorkerStep::Retry { .. }) => Some(JobStatus::Pending),
        Ok(WorkerStep::Failure { .. }) => Some(JobStatus::Failed),
        _ => None,
    }
}

/// One round changes a job only when it claims it, and then its attempt count
/// grows by exactly one and its status becomes what the step reports. A
/// round never fails, never claims a settled job, and keeps every id.
pub proof fn lemma_round_effect_on_job<T>(
    before: Seq<JobRow<T>>,
    now: i64,
    config: WorkerConfig,
    res: Result<WorkerStep, RepoError>,
    after: Seq<JobRow<T>>,
    j: int,
)
    requires
        ids_increasing(before),
        0 <= j < before.len(),
        round_step(before, now, config, res, after),
    ensures
        res is Ok,
        after.len() == before.len(),
        ids_increasing(after),
        forall|i: int| 0 <= i < before.len() ==> #[trigger] after[i].id == before[i].id,
        next_claim(before, now, config.max_job_attempts) == Some(j) ==> claimable(
            before[j],
            now,
            config.max_job_attempts,
        ) && after[j].attempts == before[j].attempts + 1 && step_job(res) == Some(before[j].id)
            && step_status(res) == Some(after[j].status),
        next_claim(before, now, config.max_job_attempts) != Some(j) ==> after[j] == before[j],
        before[j].status.is_terminal() ==> next_claim(before, now, config.max_job_attempts) != Some(j),
        step_job(res) == Some(before[j].id) ==> next_claim(before, now, config.max_job_attempts) == Some(j),
{
    let max = config.max_job_attempts;
    match next_claim(before, now, max) {
        None => {},
        Some(k) => {
            let c = choose|c: int| is_next_claim(before, now, max, c);
            assert(is_next_claim(before, now, max, c));
            lemma_next_claim_unique(before, now, max, c);
            assert(c == k);
            let leased = before.update(k, crate::job_repo::leased_row(before[k], now, config.lease_for_secs));
            let outcome = choose|outcome: Result<HandleOutcome, HandlerError>|
                #[trigger] settle_effect(
                    leased,
                    before[k].id,
                    (before[k].attempts + 1) as i32,
                    outcome,
                    max,
                    res,
                    after,
                );
            assert(settle_effect(leased, before[k].id, (before[k].attempts + 1) as i32, outcome, max, res, after));
            assert forall|x: int, y: int| 0 <= x < y < leased.len() implies #[trigger] leased[x].id
                < #[trigger] leased[y].id by {
                assert(before[x].id < before[y].id);
            }
            lemma_index_of(leased, before[k].id, k);
            assert forall|i: int| 0 <= i < before.len() && i != k implies before[i].id != before[k].id by {
                if i < k {
                    assert(before[i].id < before[k].id);
                } else {
                    assert(before[k].id < before[i].id);
                }
            }
            let d = decision(before[k].id, (before[k].attempts + 1) as i32, outcome, max);
            assert(after.len() == before.len());
            assert forall|i: int| 0 <= i < before.len() implies #[trigger] after[i].id == before[i].id by {
                if i != k {
                    assert(after[i] == before[i]);
                }
            }
            assert forall|x: int, y: int| 0 <= x < y < after.len() implies #[trigger] after[x].id
                < #[trigger] after[y].id by {
                assert(after[x].id == before[x].id);
                assert(after[y].id == before[y].id);
                assert(before[x].id < before[y].id);
            }
            if j != k {
                assert(after[j] == before[j]);
                if step_job(res) == Some(before[j].id) {
                    assert(before[j].id != before[k].id);
                }
            }
        },
    }
}

/// How many of the first `n` rounds claimed row `j`, that is, ran a handler
/// on that job.
pub open spec fn runs_on<T>(tables: Seq<Seq<JobRow<T>>>, nows: Seq<i64>, max_attempts: i32, j: int, n: int) -> int
    decreases n,
{
    if n <= 0 {
        0
    } else {
        runs_on(tables, nows, max_attempts, j, n - 1) + if next_claim(tables[n - 1], nows[n - 1], max_attempts)
            == Some(j) {
            1int
        } else {
            0int
        }
    }
}

/// A run of rounds: table `tables[i + 1]` is what round `i`, at time
/// `nows[i]`, leaves of `tables[i]`, with result `results[i]`.
pub open spec fn is_run<T>(
    tables: Seq<Seq<JobRow<T>>>,
    nows: Seq<i64>,
    results: Seq<Result<WorkerStep, RepoError>>,
    config: WorkerConfig,
) -> bool {
    &&& tables.len() == nows.len() + 1
    &&& results.len() == nows.len()
    &&& ids_increasing(tables[0])
    &&& forall|i: int|
        #![trigger results[i]]
        0 <= i < nows.len() ==> round_step(tables[i], nows[i], config, results[i], tables[i + 1])
}

/// Over a run of rounds, each round that runs a handler on a job counts one
/// more attempt for it: after `n` rounds the handler ran on job `j` exactly
/// as often as its attempt count grew, and the count never passes the larger
/// of where it started and `max_job_attempts`.
pub proof fn lemma_runs_counted_by_attempts<T>(
    tables: Seq<Seq<JobRow<T>>>,
    nows: Seq<i64>,
    results: Seq<Result<WorkerStep, RepoError>>,
    config: WorkerConfig,
    j: int,
    n: int,
)
    requires
        is_run(tables, nows, results, config),
        0 <= j < tables[0].len(),
        0 <= n <= nows.len(),
    ensures
        ids_increasing(tables[n]),
        tables[n].len() == tables[0].len(),
        tables[n][j].id == tables[0][j].id,
        runs_on(tables, nows, config.max_job_attempts, j, n) == tables[n][j].attempts - tables[0][j].attempts,
        tables[n][j].attempts <= tables[0][j].attempts || tables[n][j].attempts <= config.max_job_attempts,
    decreases n,
{
    if n > 0 {
        lemma_runs_counted_by_attempts(tables, nows, results, config, j, n - 1);
        assert(round_step(tables[n - 1], nows[n - 1], config, results[n - 1], tables[n]));
        lemma_round_effect_on_job(tables[n - 1], nows[n - 1], config, results[n - 1], tables[n], j);
    }
}

/// A job that starts with no attempts has its handler run at most
/// `max_job_attempts` times over any run of rounds (never, when the limit is
/// not positive).
pub proof fn lemma_at_most_max_runs<T>(
    tables: Seq<Seq<JobRow<T>>>,
    nows: Seq<i64>,
    results: Seq<Result<WorkerStep, RepoError>>,
    config: WorkerConfig,
    j: int,
)
    requires
        is_run(tables, nows, results, config),
        0 <= j < tables[0].len(),
        tables[0][j].attempts == 0,
    ensures
        runs_on(tables, nows, config.max_job_attempts, j, nows.len() as int) <= (if config.max_job_attempts > 0 {
            config.max_job_attempts as int
        } else {
            0
        }),
{
    lemma_runs_counted_by_attempts(tables, nows, results, config, j, nows.len() as int);
}

/// Once a round reports a job succeeded or failed, that job keeps that status
/// and no later round runs a handler on it.
pub proof fn lemma_settled_job_stays_settled<T>(
    tables: Seq<Seq<JobRow<T>>>,
    nows: Seq<i64>,
    results: Seq<Result<WorkerStep, RepoError>>,
    config: WorkerConfig,
    j: int,
    i: int,
    m: int,
)
    requires
        is_run(tables, nows, results, config),
        0 <= j < tables[0].len(),
        0 <= i < m <= nows.len(),
        step_job(results[i]) == Some(tables[0][j].id),
        results[i] matches Ok(WorkerStep::Succeeded { .. }) || results[i] matches Ok(WorkerStep::Failure { .. }),
    ensures
        Some(tables[m][j].status) == step_status(results[i]),
        m < nows.len() ==> next_claim(tables[m], nows[m], config.max_job_attempts) != Some(j),
    decreases m - i,
{
    lemma_runs_counted_by_attempts(tables, nows, results, config, j, m - 1);
    lemma_runs_counted_by_attempts(tables, nows, results, config, j, i);
    assert(round_step(tables[m - 1], nows[m - 1], config, results[m - 1], tables[m]));
    if m - 1 == i {
        lemma_round_effect_on_job(tables[i], nows[i], config, results[i], tables[m], j);
    } else {
        lemma_settled_job_stays_settled(tables, nows, results, config, j, i, m - 1);
        lemma_round_effect_on_job(tables[m - 1], nows[m - 1], config, results[m - 1], tables[m], j);
    }
    if m < nows.len() {
        lemma_runs_counted_by_attempts(tables, nows, results, config, j, m);
        assert(round_step(tables[m], nows[m], config, results[m], tables[m + 1]));
        lemma_round_effect_on_job(tables[m], nows[m], config, results[m], tables[m + 1], j);
    }
}

} // verus!
