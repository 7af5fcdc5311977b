//! The job queue: a table of jobs with leasing, retries and terminal states.

use vstd::prelude::*;
use crate::jobs::{ClaimedJob, JobStatus};

verus! {

/// One row of the job table.
#[derive(Debug, Clone, PartialEq, Eq)]
pub struct JobRow<T> {
    pub id: i64,
    pub status: JobStatus,
    pub attempts: i32,
    /// The time (seconds since the epoch) from which the job may be claimed.
    pub available_at: i64,
    /// The time until which the current lease holds, once the job was claimed.
    pub leased_until: Option<i64>,
    pub last_error: Option<String>,
    pub payload: T,
    pub created_at: i64,
    pub updated_at: i64,
}

/// Why an operation on the queue was refused.
#[derive(Debug, Clone, Copy, PartialEq, Eq, Structural)]
pub enum RepoError {
    /// Every id up to `i64::MAX` is taken by the last row.
    IdSpaceExhausted,
    /// `requeue` found no leased job with this id.
    NotRequeued { job_id: i64 },
    /// Rows handed to `JobRepo::from_rows` are not ordered by strictly
    /// increasing id.
    UnorderedIds,
}

/// Ids grow strictly along the table, so no id occurs twice.
pub open spec fn ids_increasing<T>(rows: Seq<JobRow<T>>) -> bool {
    forall|i: int, j: int| 0 <= i < j < rows.len() ==> #[trigger] rows[i].id < #[trigger] rows[j].id
}

/// The id that the next inserted row gets: one past the largest, or 1 in an
/// empty table.
pub open spec fn next_id<T>(rows: Seq<JobRow<T>>) -> int {
    if rows.len() == 0 {
        1
    } else {
        rows.last().id + 1
    }
}

/// Some row holds id `x`.
pub open spec fn has_id<T>(rows: Seq<JobRow<T>>, x: int) -> bool {
    exists|i: int| 0 <= i < rows.len() && rows[i].id == x
}

/// `x` is the smallest positive id that no row holds.
pub open spec fn is_first_free<T>(rows: Seq<JobRow<T>>, x: int) -> bool {
    &&& 1 <= x <= i64::MAX
    &&& !has_id(rows, x)
    &&& forall|y: int| 1 <= y < x ==> #[trigger] has_id(rows, y)
}

/// The id a new job gets: one past the largest id (1 in an empty table)
/// while that fits in `i64`, and otherwise the smallest positive id that no
/// row holds. `None` when every positive id is taken.
pub open spec fn chosen_id<T>(rows: Seq<JobRow<T>>) -> Option<int> {
    if next_id(rows) <= i64::MAX {
        Some(next_id(rows))
    } else if exists|x: int| is_first_free(rows, x) {
        Some(choose|x: int| is_first_free(rows, x))
    } else {
        None
    }
}

/// At most one id is the smallest free one.
pub proof fn lemma_first_free_unique<T>(rows: Seq<JobRow<T>>, x: int)
    requires
        is_first_free(rows, x),
    ensures
        forall|y: int| #[trigger] is_first_free(rows, y) ==> y == x,
        (choose|y: int| is_first_free(rows, y)) == x,
{
    assert forall|y: int| #[trigger] is_first_free(rows, y) implies y == x by {
        if y < x {
            assert(has_id(rows, y));
        } else if x < y {
            assert(has_id(rows, x));
        }
    }
}

/// The id a new job gets is one that no row holds.
pub proof fn lemma_chosen_id_is_fresh<T>(rows: Seq<JobRow<T>>)
    requires
        ids_increasing(rows),
    ensures
        chosen_id(rows) matches Some(x) ==> i64::MIN < x <= i64::MAX && !has_id(rows, x),
{
    if next_id(rows) <= i64::MAX && rows.len() > 0 {
        if has_id(rows, next_id(rows)) {
            let i = choose|i: int| 0 <= i < rows.len() && rows[i].id == next_id(rows);
            if i < rows.len() - 1 {
                assert(rows[i].id < rows[rows.len() - 1].id);
            }
        }
    }
    if next_id(rows) > i64::MAX {
        if exists|x: int| is_first_free(rows, x) {
            let x = choose|x: int| is_first_free(rows, x);
            assert(is_first_free(rows, x));
        }
    }
}

/// The row that `enqueue` inserts.
pub open spec fn new_row<T>(id: int, payload: T, now: i64) -> JobRow<T> {
    JobRow {
        id: id as i64,
        status: JobStatus::Pending,
        attempts: 0,
        available_at: now,
        leased_until: None,
        last_error: None,
        payload,
        created_at: now,
        updated_at: now,
    }
}

/// A job may be claimed at `now` when it is pending and available, or leased
/// with a lease that has run out, and in both cases has been claimed fewer
/// than `max_attempts` times.
pub open spec fn claimable<T>(row: JobRow<T>, now: i64, max_attempts: i32) -> bool {
    &&& row.attempts < max_attempts
    &&& {
        ||| row.status == JobStatus::Pending && row.available_at <= now
        ||| row.status == JobStatus::Leased && (row.leased_until matches Some(t) && t < now)
    }
}

/// Claim order: earlier `available_at` first, then the smaller id.
pub open spec fn claimed_before<T>(a: JobRow<T>, b: JobRow<T>) -> bool {
    a.available_at < b.available_at || (a.available_at == b.available_at && a.id < b.id)
}

/// Row `k` is the one that a claim at `now` takes: claimable, and ahead of
/// every other claimable row in claim order.
pub open spec fn is_next_claim<T>(rows: Seq<JobRow<T>>, now: i64, max_attempts: i32, k: int) -> bool {
    &&& 0 <= k < rows.len()
    &&& claimable(rows[k], now, max_attempts)
    &&& forall|j: int|
        0 <= j < rows.len() && j != k && #[trigger] claimable(rows[j], now, max_attempts)
            ==> claimed_before(rows[k], rows[j])
}

/// The index of the row that a claim at `now` takes, if any row is claimable.
pub open spec fn next_claim<T>(rows: Seq<JobRow<T>>, now: i64, max_attempts: i32) -> Option<int> {
    if exists|k: int| is_next_claim(rows, now, max_attempts, k) {
        Some(choose|k: int| is_next_claim(rows, now, max_attempts, k))
    } else {
        None
    }
}

/// A row after it was claimed at `now` for `lease_for_secs` seconds.
pub open spec fn leased_row<T>(row: JobRow<T>, now: i64, lease_for_secs: i64) -> JobRow<T> {
    JobRow {
        status: JobStatus::Leased,
        attempts: (row.attempts + 1) as i32,
        leased_until: Some((now + lease_for_secs) as i64),
        updated_at: now,
        ..row
    }
}

/// The table after every row with id `job_id` was set to `status`.
pub open spec fn with_status<T>(rows: Seq<JobRow<T>>, job_id: i64, status: JobStatus) -> Seq<JobRow<T>> {
    Seq::new(
        rows.len(),
        |i: int|
            if rows[i].id == job_id {
                JobRow { status, ..rows[i] }
            } else {
                rows[i]
            },
    )
}

/// The index of the row with id `job_id`, if there is one.
pub open spec fn index_of<T>(rows: Seq<JobRow<T>>, job_id: i64) -> Option<int> {
    if exists|k: int| 0 <= k < rows.len() && rows[k].id == job_id {
        Some(choose|k: int| 0 <= k < rows.len() && rows[k].id == job_id)
    } else {
        None
    }
}

/// `after` is `before` put back in the queue: pending again, with `attempts`
/// and `error` recorded, every other field kept.
pub open spec fn is_requeued<T>(before: JobRow<T>, after: JobRow<T>, attempts: i32, error: Seq<char>) -> bool {
    &&& after.status == JobStatus::Pending
    &&& after.attempts == attempts
    &&& after.last_error matches Some(e) && e@ == error
    &&& after.id == before.id
    &&& after.available_at == before.available_at
    &&& after.leased_until == before.leased_until
    &&& after.payload == before.payload
    &&& after.created_at == before.created_at
    &&& after.updated_at == before.updated_at
}

/// A job with id `job_id` can be put back in the queue: it exists and is
/// leased.
pub open spec fn can_requeue<T>(rows: Seq<JobRow<T>>, job_id: i64) -> bool {
    index_of(rows, job_id) matches Some(k) && rows[k].status == JobStatus::Leased
}

/// What `requeue` does to the table `before`, giving `res` and the table
/// `after`.
pub open spec fn requeue_effect<T>(
    before: Seq<JobRow<T>>,
    job_id: i64,
    attempts: i32,
    error: Seq<char>,
    res: Result<(), RepoError>,
    after: Seq<JobRow<T>>,
) -> bool {
    if can_requeue(before, job_id) {
        let k = index_of(before, job_id).unwrap();
        &&& res is Ok
        &&& after.len() == before.len()
        &&& forall|j: int| 0 <= j < before.len() && j != k ==> #[trigger] after[j] == before[j]
        &&& is_requeued(before[k], after[k], attempts, error)
    } else {
        &&& res == Err::<(), RepoError>(RepoError::NotRequeued { job_id })
        &&& after == before
    }
}

/// Claim order is a strict order: no row comes before itself, and it is
/// transitive.
pub proof fn lemma_claimed_before_order<T>(a: JobRow<T>, b: JobRow<T>, c: JobRow<T>)
    ensures
        !(claimed_before(a, b) && claimed_before(b, a)),
        claimed_before(a, b) && claimed_before(b, c) ==> claimed_before(a, c),
        a.id != b.id ==> claimed_before(a, b) || claimed_before(b, a),
{
}

/// At most one row is the next claim.
pub proof fn lemma_next_claim_unique<T>(rows: Seq<JobRow<T>>, now: i64, max_attempts: i32, k: int)
    requires
        is_next_claim(rows, now, max_attempts, k),
    ensures
        next_claim(rows, now, max_attempts) == Some(k),
{
    let c = choose|c: int| is_next_claim(rows, now, max_attempts, c);
    assert(is_next_claim(rows, now, max_attempts, c));
    if c != k {
        assert(claimable(rows[c], now, max_attempts));
        assert(claimable(rows[k], now, max_attempts));
        lemma_claimed_before_order(rows[k], rows[c], rows[k]);
    }
}

/// With ids increasing, the index of an id is the row that holds it.
pub proof fn lemma_index_of<T>(rows: Seq<JobRow<T>>, job_id: i64, k: int)
    requires
        ids_increasing(rows),
        0 <= k < rows.len(),
        rows[k].id == job_id,
    ensures
        index_of(rows, job_id) == Some(k),
{
    let c = choose|c: int| 0 <= c < rows.len() && rows[c].id == job_id;
    if c < k {
        assert(rows[c].id < rows[k].id);
    } else if k < c {
        assert(rows[k].id < rows[c].id);
    }
}

/// The job table.
///
/// Rows are kept in id order; every operation of the queue is one of the
/// methods below.
pub struct JobRepo<T> {
    rows: Vec<JobRow<T>>,
}

impl<T> View for JobRepo<T> {
    type V = Seq<JobRow<T>>;

    closed spec fn view(&self) -> Seq<JobRow<T>> {
        self.rows@
    }
}

impl<T> JobRepo<T> {
    /// A table is well formed when its ids increase along it.
    pub open spec fn wf(&self) -> bool {
        ids_increasing(self@)
    }

    /// An empty queue.
    pub fn new() -> (repo: JobRepo<T>)
        ensures
            repo.wf(),
            repo@ == Seq::<JobRow<T>>::empty(),
    {
        JobRepo { rows: Vec::new() }
    }

    /// A queue holding `rows`, which must be ordered by strictly increasing id.
    pub fn from_rows(rows: Vec<JobRow<T>>) -> (res: Result<JobRepo<T>, RepoError>)
        ensures
            res matches Ok(repo) ==> repo.wf() && repo@ == rows@,
            res is Err <==> !ids_increasing(rows@),
            res matches Err(e) ==> e == RepoError::UnorderedIds,
    {
        let n = rows.len();
        let mut i: usize = 1;
        while i < n
            invariant
                n == rows@.len(),
                1 <= i <= n || n == 0,
                forall|a: int, b: int| 0 <= a < b < i && b < n ==> #[trigger] rows@[a].id < #[trigger] rows@[b].id,
            decreases n - i,
        {
            if rows[i - 1].id >= rows[i].id {
                return Err(RepoError::UnorderedIds);
            }
            assert forall|a: int, b: int| 0 <= a < b < i + 1 && b < n implies #[trigger] rows@[a].id
                < #[trigger] rows@[b].id by {
                if b == i as int && a < i - 1 {
                    assert(rows@[a].id < rows@[i - 1].id);
                }
            }
            i = i + 1;
        }
        Ok(JobRepo { rows })
    }

    /// The rows of the table, in id order.
    pub fn rows(&self) -> (r: &Vec<JobRow<T>>)
        ensures
            r@ == self@,
    {
        &self.rows
    }

    /// Where a new row goes and which id it gets: the id is
    /// `chosen_id(self@)`, every row before index `k` has a smaller id and
    /// every row from `k` on a larger one.
    fn free_slot(&self) -> (r: Option<(usize, i64)>)
        requires
            self.wf(),
        ensures
            r is None <==> chosen_id(self@) is None,
            r matches Some((k, x)) ==> {
                &&& chosen_id(self@) == Some(x as int)
                &&& k <= self@.len()
                &&& forall|j: int| 0 <= j < k ==> #[trigger] self@[j].id < x
                &&& forall|j: int| k <= j < self@.len() ==> #[trigger] self@[j].id > x
            },
    {
        let n = self.rows.len();
        if n == 0 {
            return Some((0, 1));
        }
        let last = self.rows[n - 1].id;
        if last < i64::MAX {
            proof {
                assert forall|j: int| 0 <= j < n implies #[trigger] self@[j].id < last + 1 by {
                    if j < n - 1 {
                        assert(self@[j].id < self@[n - 1].id);
                    }
                }
            }
            return Some((n, last + 1));
        }
        let mut cand: i64 = 1;
        let mut i: usize = 0;
        while i < n
            invariant
                n == self@.len(),
                n > 0,
                self.wf(),
                self@[n - 1].id == i64::MAX,
                1 <= cand <= i64::MAX,
                i <= n,
                forall|j: int| 0 <= j < i ==> #[trigger] self@[j].id < cand,
                forall|y: int| 1 <= y < cand ==> #[trigger] has_id(self@, y),
            decreases n - i,
        {
            let id = self.rows[i].id;
            if id > cand {
                proof {
                    assert forall|j: int| i <= j < n implies #[trigger] self@[j].id > cand by {
                        if i < j {
                            assert(self@[i as int].id < self@[j].id);
                        }
                    }
                    assert(!has_id(self@, cand as int));
                    assert(is_first_free(self@, cand as int));
                    lemma_first_free_unique(self@, cand as int);
                }
                return Some((i, cand));
            }
            if id == cand {
                assert(has_id(self@, cand as int)) by {
                    assert(self@[i as int].id == cand);
                }
                if cand == i64::MAX {
                    proof {
                        if exists|x: int| is_first_free(self@, x) {
                            let x = choose|x: int| is_first_free(self@, x);
                            assert(is_first_free(self@, x));
                        }
                    }
                    return None;
                }
                cand = cand + 1;
            }
            i = i + 1;
        }
        proof {
            assert(self@[n - 1].id < cand);
        }
        None
    }

    /// The id that `enqueue` would give a new job now: see [`chosen_id`].
    pub fn next_free_id(&self) -> (r: Option<i64>)
        requires
            self.wf(),
        ensures
            r is None <==> chosen_id(self@) is None,
            r matches Some(x) ==> chosen_id(self@) == Some(x as int),
    {
        match self.free_slot() {
            Some((_, x)) => Some(x),
            None => None,
        }
    }

    /// Adds a pending job with `payload`, available from `now`, and returns
    /// the number of rows inserted (always 1).
    ///
    /// The new row takes the id one past the largest id (1 in an empty
    /// table). When the largest id is `i64::MAX` it takes the smallest
    /// positive id that no row holds, and only when every positive id is
    /// taken is the job refused.
    pub fn enqueue(&mut self, payload: T, now: i64) -> (res: Result<u64, RepoError>)
        requires
            old(self).wf(),
        ensures
            final(self).wf(),
            res is Err <==> chosen_id(old(self)@) is None,
            res matches Err(e) ==> e == RepoError::IdSpaceExhausted && final(self)@ == old(self)@,
            res matches Ok(n) ==> n == 1 && exists|k: int|
                0 <= k <= old(self)@.len() && final(self)@ == old(self)@.insert(
                    k,
                    new_row(chosen_id(old(self)@).unwrap(), payload, now),
                ),
            res is Ok && next_id(old(self)@) <= i64::MAX ==> final(self)@ == old(self)@.push(
                new_row(next_id(old(self)@), payload, now),
            ),
    {
        match self.free_slot() {
            None => Err(RepoError::IdSpaceExhausted),
            Some((k, id)) => {
                let row = JobRow {
                    id,
                    status: JobStatus::Pending,
                    attempts: 0,
                    available_at: now,
                    leased_until: None,
                    last_error: None,
                    payload,
                    created_at: now,
                    updated_at: now,
                };
                let ghost before = self@;
                let mut rows = Vec::new();
                std::mem::swap(&mut rows, &mut self.rows);
                rows.insert(k, row);
                self.rows = rows;
                proof {
                    assert(self@ == before.insert(k as int, new_row(chosen_id(before).unwrap(), payload, now)));
                    assert forall|x: int, y: int| 0 <= x < y < self@.len() implies #[trigger] self@[x].id
                        < #[trigger] self@[y].id by {
                        if x < k && y < k {
                            assert(before[x].id < before[y].id);
                        } else if x > k && y > k {
                            assert(before[x - 1].id < before[y - 1].id);
                        } else if x < k && y > k {
                            assert(before[x].id < before[y - 1].id);
                        }
                    }
                    if next_id(before) <= i64::MAX {
                        assert(k == before.len());
                        assert(self@ =~= before.push(new_row(next_id(before), payload, now)));
                    }
                }
                Ok(1)
            },
        }
    }

    /// Leases the next job at `now` for `lease_for_secs` seconds.
    ///
    /// The job taken is the claimable one (see [`claimable`]) with the
    /// earliest `available_at`, the smaller id first among equals. It becomes
    /// leased until `now + lease_for_secs`, its attempt count grows by one and
    /// `updated_at` becomes `now`. Without a claimable job nothing changes and
    /// `None` comes back.
    #[verifier::spinoff_prover]
    #[verifier::rlimit(40)]
    pub fn claim_next(&mut self, now: i64, lease_for_secs: i64, max_attempts: i32) -> (res: Option<ClaimedJob<T>>)
        where T: Clone,
        requires
            old(self).wf(),
            i64::MIN <= now + lease_for_secs <= i64::MAX,
        ensures
            final(self).wf(),
            res is None <==> next_claim(old(self)@, now, max_attempts) is None,
            res is None ==> final(self)@ == old(self)@,
            res matches Some(job) ==> {
                let k = next_claim(old(self)@, now, max_attempts).unwrap();
                &&& final(self)@ == old(self)@.update(k, leased_row(old(self)@[k], now, lease_for_secs))
                &&& job.queue_id == old(self)@[k].id
                &&& job.attempts == old(self)@[k].attempts + 1
                &&& cloned(old(self)@[k].payload, job.payload)
            },
            res is None ==> forall|j: int|
                #![trigger old(self)@[j]]
                0 <= j < old(self)@.len() ==> !(old(self)@[j].attempts < max_attempts && ((old(self)@[j].status
                    == JobStatus::Pending && old(self)@[j].available_at <= now) || (old(self)@[j].status
                    == JobStatus::Leased && old(self)@[j].leased_until is Some && old(self)@[j].leased_until.unwrap()
                    < now))),
            res matches Some(job) ==> exists|k: int|
                #![trigger old(self)@[k]]
                {
                    &&& 0 <= k < old(self)@.len()
                    &&& old(self)@[k].id == job.queue_id
                    &&& job.attempts == old(self)@[k].attempts + 1
                    &&& old(self)@[k].attempts < max_attempts
                    &&& ((old(self)@[k].status == JobStatus::Pending && old(self)@[k].available_at <= now) || (
                    old(self)@[k].status == JobStatus::Leased && old(self)@[k].leased_until is Some
                        && old(self)@[k].leased_until.unwrap() < now))
                    &&& final(self)@[k].status == JobStatus::Leased
                    &&& final(self)@[k].leased_until == Some((now + lease_for_secs) as i64)
                    &&& forall|j: int|
                        #![trigger old(self)@[j]]
                        0 <= j < old(self)@.len() && j != k && old(self)@[j].attempts < max_attempts && ((
                        old(self)@[j].status == JobStatus::Pending && old(self)@[j].available_at <= now) || (
                        old(self)@[j].status == JobStatus::Leased && old(self)@[j].leased_until is Some
                            && old(self)@[j].leased_until.unwrap() < now)) ==> old(self)@[k].available_at
                            < old(self)@[j].available_at || (old(self)@[k].available_at
                            == old(self)@[j].available_at && old(self)@[k].id < old(self)@[j].id)
                },
    {
        let ghost before = self@;
        proof {
            crate::queue_laws::lemma_claim_takes_earliest_available(before, now, max_attempts);
        }
        let res = self.lease_next(now, lease_for_secs, max_attempts);
        proof {
            if res is Some {
                let k = next_claim(before, now, max_attempts).unwrap();
                assert(self@[k] == leased_row(before[k], now, lease_for_secs));
                assert(self@[k].status == JobStatus::Leased);
            }
        }
        res
    }

    fn lease_next(&mut self, now: i64, lease_for_secs: i64, max_attempts: i32) -> (res: Option<ClaimedJob<T>>)
        where T: Clone,
        requires
            old(self).wf(),
            i64::MIN <= now + lease_for_secs <= i64::MAX,
        ensures
            final(self).wf(),
            res is None <==> next_claim(old(self)@, now, max_attempts) is None,
            res is None ==> final(self)@ == old(self)@,
            res matches Some(job) ==> {
                let k = next_claim(old(self)@, now, max_attempts).unwrap();
                &&& final(self)@ == old(self)@.update(k, leased_row(old(self)@[k], now, lease_for_secs))
                &&& job.queue_id == old(self)@[k].id
                &&& job.attempts == old(self)@[k].attempts + 1
                &&& cloned(old(self)@[k].payload, job.payload)
            },
    {
        let n = self.rows.len();
        let mut best: Option<usize> = None;
        let mut i: usize = 0;
        while i < n
            invariant
                n == self@.len(),
                self.wf(),
                i <= n,
                best matches Some(b) ==> b < i && claimable(self@[b as int], now, max_attempts)
                    && forall|j: int| 0 <= j < i && j != b && #[trigger] claimable(self@[j], now, max_attempts)
                        ==> claimed_before(self@[b as int], self@[j]),
                best is None ==> forall|j: int| 0 <= j < i ==> !#[trigger] claimable(self@[j], now, max_attempts),
            decreases n - i,
        {
            let row = &self.rows[i];
            let eligible = row.attempts < max_attempts && match row.status {
                JobStatus::Pending => row.available_at <= now,
                JobStatus::Leased => match row.leased_until {
                    Some(t) => t < now,
                    None => false,
                },
                _ => false,
            };
            assert(eligible == claimable(self@[i as int], now, max_attempts));
            if eligible {
                match best {
                    None => {
                        best = Some(i);
                    },
                    Some(b) => {
                        let ahead = row.available_at < self.rows[b].available_at
                            || (row.available_at == self.rows[b].available_at && row.id < self.rows[b].id);
                        proof {
                            assert(self@[b as int].id < self@[i as int].id);
                            lemma_claimed_before_order(self@[i as int], self@[b as int], self@[i as int]);
                        }
                        if ahead {
                            proof {
                                assert forall|j: int| 0 <= j < i + 1 && j != i && #[trigger] claimable(self@[j], now, max_attempts)
                                    implies claimed_before(self@[i as int], self@[j]) by {
                                    if j != b {
                                        lemma_claimed_before_order(self@[i as int], self@[b as int], self@[j]);
                                    }
                                }
                            }
                            best = Some(i);
                        }
                    },
                }
            }
            i = i + 1;
        }
        match best {
            None => {
                proof {
                    if exists|k: int| is_next_claim(self@, now, max_attempts, k) {
                        let k = choose|k: int| is_next_claim(self@, now, max_attempts, k);
                        assert(claimable(self@[k], now, max_attempts));
                    }
                }
                None
            },
            Some(b) => {
                proof {
                    assert(is_next_claim(self@, now, max_attempts, b as int));
                    lemma_next_claim_unique(self@, now, max_attempts, b as int);
                }
                let ghost before = self@;
                let mut rows = Vec::new();
                std::mem::swap(&mut rows, &mut self.rows);
                let mut row = rows.remove(b);
                let payload = row.payload.clone();
                let job = ClaimedJob { queue_id: row.id, attempts: row.attempts + 1, payload };
                row.status = JobStatus::Leased;
                row.attempts = row.attempts + 1;
                row.leased_until = Some(now + lease_for_secs);
                row.updated_at = now;
                rows.insert(b, row);
                self.rows = rows;
                proof {
                    assert(self@ =~= before.update(b as int, leased_row(before[b as int], now, lease_for_secs)));
                    assert forall|x: int, y: int| 0 <= x < y < self@.len() implies #[trigger] self@[x].id
                        < #[trigger] self@[y].id by {
                        assert(before[x].id < before[y].id);
                    }
                }
                Some(job)
            },
        }
    }

    /// Sets the status of the job with id `job_id` to `Succeeded`; without
    /// such a job nothing changes.
    pub fn mark_succeeded(&mut self, job_id: i64)
        requires
            old(self).wf(),
        ensures
            final(self).wf(),
            final(self)@ == with_status(old(self)@, job_id, JobStatus::Succeeded),
    {
        self.set_status(job_id, JobStatus::Succeeded)
    }

    /// Sets the status of the job with id `job_id` to `Failed`; without such
    /// a job nothing changes.
    pub fn mark_failed(&mut self, job_id: i64)
        requires
            old(self).wf(),
        ensures
            final(self).wf(),
            final(self)@ == with_status(old(self)@, job_id, JobStatus::Failed),
    {
        self.set_status(job_id, JobStatus::Failed)
    }

    fn set_status(&mut self, job_id: i64, status: JobStatus)
        requires
            old(self).wf(),
        ensures
            final(self).wf(),
            final(self)@ == with_status(old(self)@, job_id, status),
    {
        let ghost before = self@;
        let mut rows = Vec::new();
        std::mem::swap(&mut rows, &mut self.rows);
        let n = rows.len();
        let mut i: usize = 0;
        while i < n
            invariant
                n == rows@.len(),
                n == before.len(),
                i <= n,
                forall|j: int| 0 <= j < i ==> #[trigger] rows@[j] == with_status(before, job_id, status)[j],
                forall|j: int| i <= j < n ==> #[trigger] rows@[j] == before[j],
            decreases n - i,
        {
            if rows[i].id == job_id {
                let mut row = rows.remove(i);
                row.status = status;
                rows.insert(i, row);
                assert(rows@[i as int] == with_status(before, job_id, status)[i as int]);
            }
            i = i + 1;
        }
        self.rows = rows;
        proof {
            assert(self@ =~= with_status(before, job_id, status));
            assert forall|x: int, y: int| 0 <= x < y < self@.len() implies #[trigger] self@[x].id
                < #[trigger] self@[y].id by {
                assert(before[x].id < before[y].id);
            }
        }
    }

    /// Puts the leased job with id `job_id` back in the queue: it becomes
    /// pending with `attempts` and `error` recorded.
    ///
    /// When no leased job has that id nothing changes and the call fails
    /// with `NotRequeued`.
    pub fn requeue(&mut self, job_id: i64, attempts: i32, error: &str) -> (res: Result<(), RepoError>)
        requires
            old(self).wf(),
        ensures
            final(self).wf(),
            requeue_effect(old(self)@, job_id, attempts, error@, res, final(self)@),
            final(self)@.len() == old(self)@.len(),
            forall|i: int|
                0 <= i < old(self)@.len() && old(self)@[i].status != JobStatus::Leased ==> #[trigger] final(self)@[i]
                    == old(self)@[i],
            (forall|i: int|
                0 <= i < old(self)@.len() && #[trigger] old(self)@[i].id == job_id ==> old(self)@[i].status
                    != JobStatus::Leased) ==> res == Err::<(), RepoError>(RepoError::NotRequeued { job_id })
                && final(self)@ == old(self)@,
            res is Ok ==> exists|i: int|
                0 <= i < old(self)@.len() && #[trigger] old(self)@[i].id == job_id && old(self)@[i].status
                    == JobStatus::Leased && final(self)@[i].status == JobStatus::Pending && final(self)@[i].attempts
                    == attempts,
    {
        let ghost before = self@;
        let res = self.requeue_leased(job_id, attempts, error);
        proof {
            crate::queue_laws::lemma_requeue_only_leased(before, job_id, attempts, error@, res, self@);
        }
        res
    }

    fn requeue_leased(&mut self, job_id: i64, attempts: i32, error: &str) -> (res: Result<(), RepoError>)
        requires
            old(self).wf(),
        ensures
            final(self).wf(),
            requeue_effect(old(self)@, job_id, attempts, error@, res, final(self)@),
    {
        let n = self.rows.len();
        let mut i: usize = 0;
        while i < n
            invariant
                n == self@.len(),
                self.wf(),
                i <= n,
                self@ == old(self)@,
                forall|j: int| 0 <= j < i ==> #[trigger] self@[j].id != job_id,
            decreases n - i,
        {
            if self.rows[i].id == job_id {
                proof {
                    lemma_index_of(self@, job_id, i as int);
                }
                match self.rows[i].status {
                    JobStatus::Leased => {},
                    _ => {
                        return Err(RepoError::NotRequeued { job_id });
                    },
                }
                let ghost before = self@;
                let mut rows = Vec::new();
                std::mem::swap(&mut rows, &mut self.rows);
                let mut row = rows.remove(i);
                row.status = JobStatus::Pending;
                row.attempts = attempts;
                row.last_error = Some(error.to_owned());
                rows.insert(i, row);
                self.rows = rows;
                proof {
                    assert forall|x: int, y: int| 0 <= x < y < self@.len() implies #[trigger] self@[x].id
                        < #[trigger] self@[y].id by {
                        assert(before[x].id < before[y].id);
                    }
                }
                return Ok(());
            }
            i = i + 1;
        }
        Err(RepoError::NotRequeued { job_id })
    }
}

} // verus!
