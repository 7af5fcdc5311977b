use tiny_workers::{ClaimedJob, JobRepo, JobRow, JobStatus, RepoError};

#[derive(Debug, Clone, PartialEq, Eq)]
enum JobPayload {
    Generate(GeneratePayload),
    Resolve(ResolvePayload),
}

#[derive(Debug, Clone, PartialEq, Eq)]
struct GeneratePayload {
    id: i64,
    min: i64,
    max: i64,
}

#[derive(Debug, Clone, PartialEq, Eq)]
struct ResolvePayload {
    id: i64,
    sleep_ms: u64,
}

const NOW: i64 = 1_725_029_869;

fn generate() -> JobPayload {
    JobPayload::Generate(GeneratePayload { id: 1, min: 10, max: 20 })
}

fn setup() -> JobRepo<JobPayload> {
    JobRepo::new()
}

fn setup_and_enqueue() -> JobRepo<JobPayload> {
    let mut repo = setup();
    assert_eq!(repo.enqueue(generate(), NOW).unwrap(), 1);
    repo
}

fn count_with_status(repo: &JobRepo<JobPayload>, status: JobStatus) -> usize {
    repo.rows().iter().filter(|r| r.status == status).count()
}

#[test]
fn enqueue_round_trip() {
    let mut repo = setup();
    let job_payload = generate();
    assert_eq!(repo.enqueue(job_payload.clone(), NOW).unwrap(), 1);

    let payload_resp = repo.rows()[0].payload.clone();
    if let JobPayload::Generate(gen_payload) = job_payload {
        match payload_resp {
            JobPayload::Generate(g) => {
                assert_eq!(gen_payload.id, g.id);
                assert_eq!(gen_payload.min, g.min);
                assert_eq!(gen_payload.max, g.max);
            }
            _ => panic!("payload changed variant"),
        }
    }
}

#[test]
fn claim_job_works() {
    let mut repo = setup();
    let job_payload = generate();
    assert_eq!(repo.enqueue(job_payload.clone(), NOW).unwrap(), 1);

    let claimed_job = repo.claim_next(NOW, 10, 3);
    match claimed_job {
        Some(claim) => {
            if let JobPayload::Generate(gen_payload) = job_payload {
                match claim.payload {
                    JobPayload::Generate(g) => {
                        assert_eq!(gen_payload.id, g.id);
                        assert_eq!(gen_payload.min, g.min);
                        assert_eq!(gen_payload.max, g.max);
                    }
                    _ => panic!("payload changed variant"),
                }
            }
        }
        None => panic!("the job was not claimed"),
    }

    assert_eq!(0, count_with_status(&repo, JobStatus::Pending));
}

#[test]
fn mark_succeeded_works() {
    let mut repo = setup_and_enqueue();
    repo.mark_succeeded(1);
    assert_eq!(repo.rows()[0].status.code(), JobStatus::Succeeded.code());
}

#[test]
fn mark_failed_works() {
    let mut repo = setup_and_enqueue();
    repo.mark_failed(1);
    assert_eq!(repo.rows()[0].status.code(), JobStatus::Failed.code());
}

#[test]
fn requeue_works() {
    let mut repo = setup_and_enqueue();
    let claimed_job = repo.claim_next(NOW, 10, 3);
    let last_error = "Test";
    match claimed_job {
        Some(claim) => {
            let _ = repo.requeue(claim.queue_id, claim.attempts + 1, last_error);
            let row = repo
                .rows()
                .iter()
                .find(|r| r.status == JobStatus::Pending)
                .expect("a pending job");
            assert_eq!(0, row.status.code());
            assert_eq!(Some(last_error.to_string()), row.last_error);
            assert_eq!(claim.attempts + 1, row.attempts);
        }
        None => panic!("the job was not claimed"),
    }
}

#[test]
fn leased_job_is_not_requeued() {
    let mut repo = setup_and_enqueue();
    let _ = repo.claim_next(NOW, 10, 3);
    let empty_claim = repo.claim_next(NOW, 10, 3);
    assert!(empty_claim.is_none())
}

#[test]
fn job_with_expired_lease_is_reclaimed() {
    let mut repo = setup_and_enqueue();
    let claim1 = repo.claim_next(NOW, 10, 3).unwrap();
    let claim2 = repo.claim_next(NOW + 1000, 10, 3).unwrap();
    assert_eq!(claim1.queue_id, claim2.queue_id)
}

#[test]
fn max_attempts_works() {
    let mut repo = setup_and_enqueue();
    let claim = repo.claim_next(NOW, 0, 3);
    assert!(claim.is_some());
    let claim = repo.claim_next(NOW + 1, 0, 3);
    assert!(claim.is_some());
    let claim = repo.claim_next(NOW + 2, 0, 3);
    assert!(claim.is_some());
}

#[test]
fn no_claim_if_max_attempts_exceeded() {
    let mut repo = setup_and_enqueue();
    let claim = repo.claim_next(NOW, 0, 2);
    assert!(claim.is_some());
    let claim = repo.claim_next(NOW + 1, 0, 2);
    assert!(claim.is_some());
    let claim = repo.claim_next(NOW + 2, 0, 2);
    assert!(claim.is_none());
}

#[test]
fn status_codes_match_stored_integers() {
    assert_eq!(JobStatus::Pending.code(), 0);
    assert_eq!(JobStatus::Leased.code(), 1);
    assert_eq!(JobStatus::Succeeded.code(), 2);
    assert_eq!(JobStatus::Failed.code(), 3);
    for s in [JobStatus::Pending, JobStatus::Leased, JobStatus::Succeeded, JobStatus::Failed] {
        assert_eq!(JobStatus::from_code(s.code()), Some(s));
    }
    assert_eq!(JobStatus::from_code(4), None);
    assert_eq!(JobStatus::from_code(-1), None);
}

#[test]
fn enqueue_assigns_increasing_ids_and_initial_fields() {
    let mut repo = setup();
    assert_eq!(repo.enqueue(generate(), 100), Ok(1));
    let resolve = JobPayload::Resolve(ResolvePayload { id: 2, sleep_ms: 5 });
    assert_eq!(repo.enqueue(resolve.clone(), 150), Ok(1));
    let rows = repo.rows();
    assert_eq!(rows.len(), 2);
    assert_eq!(rows[0].id, 1);
    assert_eq!(rows[1].id, 2);
    let expected = JobRow {
        id: 2,
        status: JobStatus::Pending,
        attempts: 0,
        available_at: 150,
        leased_until: None,
        last_error: None,
        payload: resolve,
        created_at: 150,
        updated_at: 150,
    };
    assert_eq!(rows[1], expected);
}

fn row(id: i64, status: JobStatus, attempts: i32, available_at: i64, leased_until: Option<i64>) -> JobRow<u32> {
    JobRow {
        id,
        status,
        attempts,
        available_at,
        leased_until,
        last_error: None,
        payload: id as u32,
        created_at: available_at,
        updated_at: available_at,
    }
}

#[test]
fn enqueue_continues_after_the_largest_id() {
    let mut repo = JobRepo::from_rows(vec![row(5, JobStatus::Succeeded, 1, 0, Some(10))]).unwrap();
    assert_eq!(repo.enqueue(7, 20), Ok(1));
    assert_eq!(repo.rows()[1].id, 6);
}

#[test]
fn enqueue_takes_a_free_id_after_the_largest_possible_id() {
    let mut repo = JobRepo::from_rows(vec![row(i64::MAX, JobStatus::Pending, 0, 0, None)]).unwrap();
    assert_eq!(repo.next_free_id(), Some(1));
    assert_eq!(repo.enqueue(7, 20), Ok(1));
    let ids: Vec<i64> = repo.rows().iter().map(|r| r.id).collect();
    assert_eq!(ids, vec![1, i64::MAX]);
    assert_eq!(repo.rows()[0].payload, 7);
    assert_eq!(repo.rows()[0].status, JobStatus::Pending);

    let mut repo = JobRepo::from_rows(vec![
        row(-4, JobStatus::Pending, 0, 0, None),
        row(1, JobStatus::Pending, 0, 0, None),
        row(2, JobStatus::Failed, 0, 0, None),
        row(5, JobStatus::Pending, 0, 0, None),
        row(i64::MAX, JobStatus::Pending, 0, 0, None),
    ])
    .unwrap();
    assert_eq!(repo.next_free_id(), Some(3));
    assert_eq!(repo.enqueue(9, 20), Ok(1));
    let ids: Vec<i64> = repo.rows().iter().map(|r| r.id).collect();
    assert_eq!(ids, vec![-4, 1, 2, 3, 5, i64::MAX]);
}

#[test]
fn next_free_id_follows_the_largest_id() {
    let repo = JobRepo::<u32>::new();
    assert_eq!(repo.next_free_id(), Some(1));
    let repo = JobRepo::from_rows(vec![row(3, JobStatus::Pending, 0, 0, None), row(8, JobStatus::Pending, 0, 0, None)])
        .unwrap();
    assert_eq!(repo.next_free_id(), Some(9));
}

#[test]
fn enqueue_round_trip_through_json() {
    let mut fields = serde_json::Map::new();
    fields.insert("type".to_string(), serde_json::Value::String("Generate".to_string()));
    fields.insert("id".to_string(), serde_json::Value::from(1));
    fields.insert("min".to_string(), serde_json::Value::from(10));
    fields.insert("max".to_string(), serde_json::Value::from(20));
    let payload = serde_json::Value::Object(fields);
    let text = serde_json::to_string(&payload).unwrap();

    let mut repo: JobRepo<String> = JobRepo::new();
    assert_eq!(repo.enqueue(text, NOW).unwrap(), 1);
    let claim = repo.claim_next(NOW, 10, 3).unwrap();
    let back: serde_json::Value = serde_json::from_str(&claim.payload).unwrap();
    assert_eq!(back, payload);
    assert_eq!(back["min"], serde_json::Value::from(10));
    assert_eq!(back["max"], serde_json::Value::from(20));
}

#[test]
fn from_rows_rejects_unordered_ids() {
    let res = JobRepo::from_rows(vec![row(2, JobStatus::Pending, 0, 0, None), row(2, JobStatus::Pending, 0, 0, None)]);
    assert!(matches!(res, Err(RepoError::UnorderedIds)));
    let res = JobRepo::from_rows(vec![row(3, JobStatus::Pending, 0, 0, None), row(1, JobStatus::Pending, 0, 0, None)]);
    assert!(matches!(res, Err(RepoError::UnorderedIds)));
    let res = JobRepo::<u32>::from_rows(vec![]);
    assert!(res.is_ok());
}

#[test]
fn claim_takes_earliest_available_then_smallest_id() {
    let mut repo = JobRepo::from_rows(vec![
        row(1, JobStatus::Pending, 0, 300, None),
        row(2, JobStatus::Pending, 0, 100, None),
        row(3, JobStatus::Pending, 0, 100, None),
        row(4, JobStatus::Succeeded, 0, 50, None),
        row(5, JobStatus::Failed, 0, 50, None),
        row(6, JobStatus::Pending, 0, 1000, None),
    ])
    .unwrap();
    let ids: Vec<i64> = (0..4).filter_map(|_| repo.claim_next(500, 10, 3)).map(|c| c.queue_id).collect();
    assert_eq!(ids, vec![2, 3, 1]);
    assert_eq!(repo.rows()[5].status, JobStatus::Pending);
}

#[test]
fn claim_sets_lease_attempts_and_update_time() {
    let mut repo = JobRepo::from_rows(vec![row(1, JobStatus::Pending, 1, 100, None)]).unwrap();
    let claim = repo.claim_next(200, 30, 3).unwrap();
    assert_eq!(claim, ClaimedJob { queue_id: 1, attempts: 2, payload: 1 });
    let r = &repo.rows()[0];
    assert_eq!(r.status, JobStatus::Leased);
    assert_eq!(r.attempts, 2);
    assert_eq!(r.leased_until, Some(230));
    assert_eq!(r.updated_at, 200);
    assert_eq!(r.available_at, 100);
    assert_eq!(r.created_at, 100);
}

#[test]
fn claim_skips_jobs_not_yet_available() {
    let mut repo = JobRepo::from_rows(vec![row(1, JobStatus::Pending, 0, 300, None)]).unwrap();
    assert!(repo.claim_next(299, 10, 3).is_none());
    assert_eq!(repo.claim_next(300, 10, 3).unwrap().queue_id, 1);
}

#[test]
fn lease_must_have_run_out_strictly() {
    let mut repo = JobRepo::from_rows(vec![row(1, JobStatus::Leased, 1, 0, Some(100))]).unwrap();
    assert!(repo.claim_next(100, 10, 3).is_none());
    assert_eq!(repo.claim_next(101, 10, 3).unwrap().attempts, 2);
    let mut repo = JobRepo::from_rows(vec![row(1, JobStatus::Leased, 1, 0, None)]).unwrap();
    assert!(repo.claim_next(i64::MAX - 10, 10, 3).is_none());
}

#[test]
fn terminal_jobs_are_never_claimed() {
    let mut repo = setup_and_enqueue();
    repo.mark_succeeded(1);
    assert!(repo.claim_next(NOW + 1_000_000, 10, i32::MAX).is_none());
    let mut repo = setup_and_enqueue();
    repo.mark_failed(1);
    assert!(repo.claim_next(NOW + 1_000_000, 10, i32::MAX).is_none());
}

#[test]
fn marking_an_unknown_job_changes_nothing() {
    let mut repo = setup_and_enqueue();
    let before = repo.rows().clone();
    repo.mark_succeeded(42);
    repo.mark_failed(42);
    assert_eq!(repo.rows(), &before);
}

#[test]
fn requeue_refuses_a_job_that_is_not_leased() {
    let mut repo = setup_and_enqueue();
    let before = repo.rows().clone();
    assert_eq!(repo.requeue(1, 1, "nope"), Err(RepoError::NotRequeued { job_id: 1 }));
    assert_eq!(repo.requeue(9, 1, "nope"), Err(RepoError::NotRequeued { job_id: 9 }));
    assert_eq!(repo.rows(), &before);
}

#[test]
fn requeued_job_keeps_its_other_fields_and_is_claimable_again() {
    let mut repo = setup_and_enqueue();
    let claim = repo.claim_next(NOW, 10, 3).unwrap();
    assert_eq!(repo.requeue(claim.queue_id, claim.attempts, "later"), Ok(()));
    let r = &repo.rows()[0];
    assert_eq!(r.status, JobStatus::Pending);
    assert_eq!(r.attempts, 1);
    assert_eq!(r.leased_until, Some(NOW + 10));
    assert_eq!(r.updated_at, NOW);
    assert_eq!(r.payload, generate());
    assert_eq!(repo.claim_next(NOW, 10, 3).unwrap().attempts, 2);
}

#[test]
fn attempts_never_exceed_the_limit() {
    let mut repo = setup_and_enqueue();
    for t in 0..10 {
        let _ = repo.claim_next(NOW + 100 * t, 0, 4);
    }
    assert_eq!(repo.rows()[0].attempts, 4);
}
