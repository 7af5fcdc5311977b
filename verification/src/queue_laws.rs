//! Properties of the queue that hold across its operations.

use vstd::prelude::*;
use crate::job_repo::{
    can_requeue, claimable, claimed_before, ids_increasing, index_of, is_next_claim, is_requeued, lemma_claimed_before_order,
    lemma_index_of, lemma_next_claim_unique, leased_row, new_row, next_claim, next_id, requeue_effect, with_status,
    JobRow, RepoError,
};
use crate::jobs::JobStatus;
use crate::worker::{action_effect, action_job, RepoAction};

verus! {

/// The best claimable row among the first `n` rows, if any of them is
/// claimable.
proof fn best_in_prefix<T>(rows: Seq<JobRow<T>>, now: i64, max_attempts: i32, n: int) -> (b: Option<int>)
    requires
        ids_increasing(rows),
        0 <= n <= rows.len(),
    ensures
        b matches Some(k) ==> 0 <= k < n && claimable(rows[k], now, max_attempts) && forall|j: int|
            0 <= j < n && j != k && #[trigger] claimable(rows[j], now, max_attempts) ==> claimed_before(
                rows[k],
                rows[j],
            ),
        b is None ==> forall|j: int| 0 <= j < n ==> !#[trigger] claimable(rows[j], now, max_attempts),
    decreases n,
{
    if n == 0 {
        None
    } else {
        let prev = best_in_prefix(rows, now, max_attempts, n - 1);
        let i = n - 1;
        if !claimable(rows[i], now, max_attempts) {
            prev
        } else {
            match prev {
                None => Some(i),
                Some(b) => {
                    assert(rows[b].id < rows[i].id);
                    lemma_claimed_before_order(rows[i], rows[b], rows[i]);
                    if claimed_before(rows[i], rows[b]) {
                        assert forall|j: int|
                            0 <= j < n && j != i && #[trigger] claimable(rows[j], now, max_attempts) implies claimed_before(
                            rows[i],
                            rows[j],
                        ) by {
                            if j != b {
                                lemma_claimed_before_order(rows[i], rows[b], rows[j]);
                            }
                        }
                        Some(i)
                    } else {
                        Some(b)
                    }
                },
            }
        }
    }
}

/// Whenever some job is claimable, a claim takes one: `next_claim` is `None`
/// exactly when no row is claimable.
pub proof fn lemma_claim_finds_claimable<T>(rows: Seq<JobRow<T>>, now: i64, max_attempts: i32)
    requires
        ids_increasing(rows),
    ensures
        next_claim(rows, now, max_attempts) is None <==> forall|j: int|
            0 <= j < rows.len() ==> !#[trigger] claimable(rows[j], now, max_attempts),
{
    let b = best_in_prefix(rows, now, max_attempts, rows.len() as int);
    match b {
        Some(k) => {
            assert(is_next_claim(rows, now, max_attempts, k));
            lemma_next_claim_unique(rows, now, max_attempts, k);
        },
        None => {
            if exists|k: int| is_next_claim(rows, now, max_attempts, k) {
                let k = choose|k: int| is_next_claim(rows, now, max_attempts, k);
                assert(claimable(rows[k], now, max_attempts));
            }
        },
    }
}

/// A job that was just leased for a non-negative time cannot be claimed
/// again before its lease runs out.
pub proof fn lemma_lease_blocks_reclaim<T>(row: JobRow<T>, now: i64, lease_for_secs: i64, t: i64, max_attempts: i32)
    requires
        i64::MIN <= now + lease_for_secs <= i64::MAX,
        t <= now + lease_for_secs,
    ensures
        !claimable(leased_row(row, now, lease_for_secs), t, max_attempts),
{
}

/// Two claims at the same time never hand out the same job, when leases are
/// not negative.
pub proof fn lemma_no_double_claim<T>(rows: Seq<JobRow<T>>, now: i64, lease_for_secs: i64, max_attempts: i32)
    requires
        ids_increasing(rows),
        0 <= lease_for_secs,
        now + lease_for_secs <= i64::MAX,
        next_claim(rows, now, max_attempts) is Some,
    ensures
        ({
            let k = next_claim(rows, now, max_attempts).unwrap();
            let after = rows.update(k, leased_row(rows[k], now, lease_for_secs));
            next_claim(after, now, max_attempts) != Some(k)
        }),
{
    let k = next_claim(rows, now, max_attempts).unwrap();
    let after = rows.update(k, leased_row(rows[k], now, lease_for_secs));
    if next_claim(after, now, max_attempts) == Some(k) {
        let c = choose|c: int| is_next_claim(after, now, max_attempts, c);
        assert(is_next_claim(after, now, max_attempts, c));
        lemma_lease_blocks_reclaim(rows[k], now, lease_for_secs, now, max_attempts);
    }
}

/// Once its lease has run out, a leased job can be claimed again, as long
/// as it has attempts left.
pub proof fn lemma_expired_lease_reclaimable<T>(row: JobRow<T>, now: i64, lease_for_secs: i64, t: i64, max_attempts: i32)
    requires
        i64::MIN <= now + lease_for_secs <= i64::MAX,
        now + lease_for_secs < t,
        row.attempts + 1 < max_attempts,
    ensures
        claimable(leased_row(row, now, lease_for_secs), t, max_attempts),
{
}

/// A claim never raises a job's attempt count above `max_attempts`, and a job
/// that has used up its attempts is never claimed.
pub proof fn lemma_attempts_capped<T>(row: JobRow<T>, now: i64, lease_for_secs: i64, max_attempts: i32)
    ensures
        claimable(row, now, max_attempts) ==> leased_row(row, now, lease_for_secs).attempts <= max_attempts,
        row.attempts >= max_attempts ==> !claimable(row, now, max_attempts),
{
}

/// A job that succeeded or failed is never claimed again, whatever the time
/// and the attempt limit.
pub proof fn lemma_terminal_never_claimed<T>(row: JobRow<T>, now: i64, max_attempts: i32)
    requires
        row.status.is_terminal(),
    ensures
        !claimable(row, now, max_attempts),
{
}

/// Marking a job succeeded or failed puts it in a terminal state and leaves
/// every other job as it was.
pub proof fn lemma_marking_is_terminal<T>(rows: Seq<JobRow<T>>, job_id: i64, status: JobStatus, j: int)
    requires
        status.is_terminal(),
        0 <= j < rows.len(),
    ensures
        with_status(rows, job_id, status).len() == rows.len(),
        rows[j].id == job_id ==> with_status(rows, job_id, status)[j].status.is_terminal(),
        rows[j].id != job_id ==> with_status(rows, job_id, status)[j] == rows[j],
        with_status(rows, job_id, status)[j].id == rows[j].id,
        with_status(rows, job_id, status)[j].payload == rows[j].payload,
{
}

/// A job put back in the queue with attempts left can be claimed again from
/// its `available_at` on.
pub proof fn lemma_requeued_claimable<T>(
    before: JobRow<T>,
    after: JobRow<T>,
    attempts: i32,
    error: Seq<char>,
    now: i64,
    max_attempts: i32,
)
    requires
        is_requeued(before, after, attempts, error),
        attempts < max_attempts,
        before.available_at <= now,
    ensures
        claimable(after, now, max_attempts),
{
}

/// A job just added is pending and available from the time it was added, so
/// from then on some job can be claimed, given an attempt limit above zero.
pub proof fn lemma_enqueued_job_claimable<T>(rows: Seq<JobRow<T>>, payload: T, added: i64, now: i64, max_attempts: i32)
    requires
        ids_increasing(rows),
        next_id(rows) <= i64::MAX,
        added <= now,
        0 < max_attempts,
    ensures
        ids_increasing(rows.push(new_row(next_id(rows), payload, added))),
        claimable(new_row(next_id(rows), payload, added), now, max_attempts),
        next_claim(rows.push(new_row(next_id(rows), payload, added)), now, max_attempts) is Some,
{
    let after = rows.push(new_row(next_id(rows), payload, added));
    assert forall|i: int, j: int| 0 <= i < j < after.len() implies #[trigger] after[i].id < #[trigger] after[j].id by {
        if j == rows.len() && i < rows.len() - 1 {
            assert(rows[i].id < rows[rows.len() - 1].id);
        }
    }
    assert(claimable(after[rows.len() as int], now, max_attempts));
    lemma_claim_finds_claimable(after, now, max_attempts);
}

/// A claim never takes, reopens or changes a job that succeeded or failed,
/// whatever the time, lease and attempt limit.
pub proof fn lemma_claim_leaves_terminal_jobs<T>(
    rows: Seq<JobRow<T>>,
    now: i64,
    lease_for_secs: i64,
    max_attempts: i32,
    j: int,
)
    requires
        0 <= j < rows.len(),
        rows[j].status.is_terminal(),
    ensures
        next_claim(rows, now, max_attempts) != Some(j),
        next_claim(rows, now, max_attempts) matches Some(k) ==> rows.update(
            k,
            leased_row(rows[k], now, lease_for_secs),
        )[j] == rows[j],
{
    if next_claim(rows, now, max_attempts) is Some {
        let k = choose|k: int| is_next_claim(rows, now, max_attempts, k);
        assert(is_next_claim(rows, now, max_attempts, k));
    }
}

/// Requeuing the job that a claim just took, with the attempt count the claim
/// reported, succeeds and undoes the lease: the job is pending again with
/// that claim still counted, its error recorded and everything else as
/// before the claim, and no other job changes.
pub proof fn lemma_claim_then_requeue<T>(
    rows: Seq<JobRow<T>>,
    now: i64,
    lease_for_secs: i64,
    max_attempts: i32,
    error: Seq<char>,
    res: Result<(), RepoError>,
    after: Seq<JobRow<T>>,
)
    requires
        ids_increasing(rows),
        next_claim(rows, now, max_attempts) is Some,
        ({
            let k = next_claim(rows, now, max_attempts).unwrap();
            requeue_effect(
                rows.update(k, leased_row(rows[k], now, lease_for_secs)),
                rows[k].id,
                (rows[k].attempts + 1) as i32,
                error,
                res,
                after,
            )
        }),
    ensures
        ({
            let k = next_claim(rows, now, max_attempts).unwrap();
            &&& res is Ok
            &&& after.len() == rows.len()
            &&& after[k].status == JobStatus::Pending
            &&& after[k].attempts == rows[k].attempts + 1
            &&& after[k].last_error matches Some(e) && e@ == error
            &&& after[k].payload == rows[k].payload
            &&& after[k].available_at == rows[k].available_at
            &&& after[k].id == rows[k].id
            &&& forall|i: int| 0 <= i < rows.len() && i != k ==> #[trigger] after[i] == rows[i]
        }),
{
    let k = next_claim(rows, now, max_attempts).unwrap();
    let c = choose|c: int| is_next_claim(rows, now, max_attempts, c);
    assert(is_next_claim(rows, now, max_attempts, c));
    claimable_attempts_fit(rows[k], now, max_attempts);
    let leased = rows.update(k, leased_row(rows[k], now, lease_for_secs));
    assert forall|x: int, y: int| 0 <= x < y < leased.len() implies #[trigger] leased[x].id < #[trigger] leased[y].id by {
        assert(rows[x].id < rows[y].id);
    }
    lemma_index_of(leased, rows[k].id, k);
}

/// A claimable job has an attempt count below `max_attempts`, so counting
/// one more attempt stays within `i32`.
proof fn claimable_attempts_fit<T>(row: JobRow<T>, now: i64, max_attempts: i32)
    requires
        claimable(row, now, max_attempts),
    ensures
        row.attempts + 1 <= i32::MAX,
{
}

/// Every claimable job is pending or leased.
pub proof fn lemma_claimable_is_open<T>(row: JobRow<T>, now: i64, max_attempts: i32)
    requires
        claimable(row, now, max_attempts),
    ensures
        row.status == JobStatus::Pending || row.status == JobStatus::Leased,
{
}

/// A claim over part of the table takes the same job as a claim over the
/// whole table, when the part is in id order, holds only rows of the table,
/// and holds every row that can be claimed; the pending and leased rows in id
/// order are such a part (see [`lemma_claimable_is_open`]). The table the
/// whole claim leaves is the whole table with that one row leased.
pub proof fn lemma_claim_over_part<T>(rows: Seq<JobRow<T>>, part: Seq<JobRow<T>>, now: i64, max_attempts: i32)
    requires
        ids_increasing(rows),
        ids_increasing(part),
        forall|i: int| 0 <= i < part.len() ==> rows.contains(#[trigger] part[i]),
        forall|j: int| 0 <= j < rows.len() && #[trigger] claimable(rows[j], now, max_attempts) ==> part.contains(rows[j]),
    ensures
        next_claim(part, now, max_attempts) is None <==> next_claim(rows, now, max_attempts) is None,
        next_claim(part, now, max_attempts) matches Some(kp) ==> (next_claim(rows, now, max_attempts) matches Some(k)
            && part[kp] == rows[k]),
{
    lemma_claim_finds_claimable(rows, now, max_attempts);
    lemma_claim_finds_claimable(part, now, max_attempts);
    if next_claim(rows, now, max_attempts) is None {
        assert forall|i: int| 0 <= i < part.len() implies !#[trigger] claimable(part[i], now, max_attempts) by {
            assert(rows.contains(part[i]));
        }
    }
    if next_claim(part, now, max_attempts) is None {
        assert forall|j: int| 0 <= j < rows.len() implies !#[trigger] claimable(rows[j], now, max_attempts) by {
            if claimable(rows[j], now, max_attempts) {
                assert(part.contains(rows[j]));
            }
        }
    }
    if next_claim(part, now, max_attempts) is Some {
        let kp = next_claim(part, now, max_attempts).unwrap();
        let c = choose|c: int| is_next_claim(part, now, max_attempts, c);
        assert(is_next_claim(part, now, max_attempts, c));
        lemma_next_claim_unique(part, now, max_attempts, c);
        assert(rows.contains(part[kp]));
        let k = choose|k: int| 0 <= k < rows.len() && rows[k] == part[kp];
        assert forall|j: int|
            0 <= j < rows.len() && j != k && #[trigger] claimable(rows[j], now, max_attempts) implies claimed_before(
            rows[k],
            rows[j],
        ) by {
            assert(part.contains(rows[j]));
            let p = choose|p: int| 0 <= p < part.len() && part[p] == rows[j];
            if j < k {
                assert(rows[j].id < rows[k].id);
            } else {
                assert(rows[k].id < rows[j].id);
            }
            assert(p != kp);
        }
        assert(is_next_claim(rows, now, max_attempts, k));
        lemma_next_claim_unique(rows, now, max_attempts, k);
    }
}

/// Settling a job over its own row alone gives the same result, and the same
/// new row, as settling it over the whole table.
pub proof fn lemma_settle_over_own_row<T>(
    rows: Seq<JobRow<T>>,
    k: int,
    action: RepoAction,
    res: Result<(), RepoError>,
    after_one: Seq<JobRow<T>>,
)
    requires
        ids_increasing(rows),
        0 <= k < rows.len(),
        rows[k].id == action_job(action),
        action_effect(seq![rows[k]], action, res, after_one),
    ensures
        after_one.len() == 1,
        action_effect(rows, action, res, rows.update(k, after_one[0])),
{
    let one = seq![rows[k]];
    let id = action_job(action);
    assert forall|j: int| 0 <= j < rows.len() && j != k implies #[trigger] rows[j].id != id by {
        if j < k {
            assert(rows[j].id < rows[k].id);
        } else {
            assert(rows[k].id < rows[j].id);
        }
    }
    match action {
        RepoAction::MarkSucceeded { job_id } => {
            assert(with_status(rows, job_id, JobStatus::Succeeded) =~= rows.update(k, after_one[0]));
        },
        RepoAction::MarkFailed { job_id } => {
            assert(with_status(rows, job_id, JobStatus::Failed) =~= rows.update(k, after_one[0]));
        },
        RepoAction::Requeue { job_id, .. } => {
            lemma_index_of(one, job_id, 0);
            lemma_index_of(rows, job_id, k);
            if !can_requeue(one, job_id) {
                assert(rows.update(k, after_one[0]) =~= rows);
            }
        },
    }
}

/// Settling a job that has no row changes nothing, over no rows as over the
/// whole table, with the same result.
pub proof fn lemma_settle_without_row<T>(
    rows: Seq<JobRow<T>>,
    action: RepoAction,
    res: Result<(), RepoError>,
    after_none: Seq<JobRow<T>>,
)
    requires
        forall|i: int| 0 <= i < rows.len() ==> #[trigger] rows[i].id != action_job(action),
        action_effect(Seq::<JobRow<T>>::empty(), action, res, after_none),
    ensures
        after_none.len() == 0,
        action_effect(rows, action, res, rows),
{
    let none = Seq::<JobRow<T>>::empty();
    match action {
        RepoAction::MarkSucceeded { job_id } => {
            assert(with_status(none, job_id, JobStatus::Succeeded) =~= none);
            assert(with_status(rows, job_id, JobStatus::Succeeded) =~= rows);
        },
        RepoAction::MarkFailed { job_id } => {
            assert(with_status(none, job_id, JobStatus::Failed) =~= none);
            assert(with_status(rows, job_id, JobStatus::Failed) =~= rows);
        },
        RepoAction::Requeue { job_id, .. } => {
            assert(index_of(none, job_id) is None);
            assert(index_of(rows, job_id) is None);
        },
    }
}

/// What a claim at `now` takes, stated over the rows' fields: when no row is
/// pending and available, or leased with a lease that has run out, with
/// fewer than `max_attempts` attempts, nothing is taken; otherwise the row
/// taken is such a row, and every other such row has a later
/// `available_at`, or the same one and a larger id.
pub proof fn lemma_claim_takes_earliest_available<T>(rows: Seq<JobRow<T>>, now: i64, max_attempts: i32)
    requires
        ids_increasing(rows),
    ensures
        match next_claim(rows, now, max_attempts) {
            None => forall|j: int|
                #![trigger rows[j]]
                0 <= j < rows.len() ==> !(rows[j].attempts < max_attempts && ((rows[j].status == JobStatus::Pending
                    && rows[j].available_at <= now) || (rows[j].status == JobStatus::Leased
                    && rows[j].leased_until is Some && rows[j].leased_until.unwrap() < now))),
            Some(k) => {
                &&& 0 <= k < rows.len()
                &&& rows[k].attempts < max_attempts
                &&& ((rows[k].status == JobStatus::Pending && rows[k].available_at <= now) || (rows[k].status
                    == JobStatus::Leased && rows[k].leased_until is Some && rows[k].leased_until.unwrap() < now))
                &&& forall|j: int|
                    #![trigger rows[j]]
                    0 <= j < rows.len() && j != k && rows[j].attempts < max_attempts && ((rows[j].status
                        == JobStatus::Pending && rows[j].available_at <= now) || (rows[j].status == JobStatus::Leased
                        && rows[j].leased_until is Some && rows[j].leased_until.unwrap() < now)) ==> rows[k].available_at
                        < rows[j].available_at || (rows[k].available_at == rows[j].available_at && rows[k].id
                        < rows[j].id)
            },
        },
{
    lemma_claim_finds_claimable(rows, now, max_attempts);
    match next_claim(rows, now, max_attempts) {
        None => {
            assert forall|j: int|
                #![trigger rows[j]]
                0 <= j < rows.len() implies !(rows[j].attempts < max_attempts && ((rows[j].status
                    == JobStatus::Pending && rows[j].available_at <= now) || (rows[j].status == JobStatus::Leased
                    && rows[j].leased_until is Some && rows[j].leased_until.unwrap() < now))) by {
                assert(!claimable(rows[j], now, max_attempts));
            }
        },
        Some(k) => {
            let c = choose|c: int| is_next_claim(rows, now, max_attempts, c);
            assert(is_next_claim(rows, now, max_attempts, c));
            lemma_next_claim_unique(rows, now, max_attempts, c);
            assert(c == k);
            assert(claimable(rows[k], now, max_attempts));
            assert forall|j: int|
                #![trigger rows[j]]
                0 <= j < rows.len() && j != k && rows[j].attempts < max_attempts && ((rows[j].status
                    == JobStatus::Pending && rows[j].available_at <= now) || (rows[j].status == JobStatus::Leased
                    && rows[j].leased_until is Some && rows[j].leased_until.unwrap() < now)) implies rows[k].available_at
                    < rows[j].available_at || (rows[k].available_at == rows[j].available_at && rows[k].id
                    < rows[j].id) by {
                assert(claimable(rows[j], now, max_attempts));
            }
        },
    }
}

/// What `requeue` does, stated over the rows' fields: it succeeds only on a
/// job that exists and is leased. For a job that is pending, succeeded or
/// failed, or has no row, it fails with `NotRequeued` and changes nothing.
/// In every case a row that is not leased keeps every field, so a job that
/// succeeded or failed is never reopened.
pub proof fn lemma_requeue_only_leased<T>(
    before: Seq<JobRow<T>>,
    job_id: i64,
    attempts: i32,
    error: Seq<char>,
    res: Result<(), RepoError>,
    after: Seq<JobRow<T>>,
)
    requires
        ids_increasing(before),
        requeue_effect(before, job_id, attempts, error, res, after),
    ensures
        after.len() == before.len(),
        forall|i: int| 0 <= i < before.len() && before[i].status != JobStatus::Leased ==> #[trigger] after[i] == before[i],
        forall|i: int| 0 <= i < before.len() && before[i].id != job_id ==> #[trigger] after[i] == before[i],
        (forall|i: int| 0 <= i < before.len() && #[trigger] before[i].id == job_id ==> before[i].status
            != JobStatus::Leased) ==> res == Err::<(), RepoError>(RepoError::NotRequeued { job_id }) && after == before,
        res is Ok ==> exists|i: int|
            0 <= i < before.len() && #[trigger] before[i].id == job_id && before[i].status == JobStatus::Leased
                && after[i].status == JobStatus::Pending && after[i].attempts == attempts,
        res is Ok || res == Err::<(), RepoError>(RepoError::NotRequeued { job_id }),
{
    if can_requeue(before, job_id) {
        let k = index_of(before, job_id).unwrap();
        let c = choose|c: int| 0 <= c < before.len() && before[c].id == job_id;
        lemma_index_of(before, job_id, c);
        assert(before[k].id == job_id);
    } else {
        if exists|i: int| 0 <= i < before.len() && before[i].id == job_id && before[i].status == JobStatus::Leased {
            let i = choose|i: int| 0 <= i < before.len() && before[i].id == job_id && before[i].status == JobStatus::Leased;
            lemma_index_of(before, job_id, i);
        }
    }
}

} // verus!
