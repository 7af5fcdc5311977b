//! A small job queue with leasing, retries and terminal success or failure,
//! and the decisions a worker takes for each job it runs.

pub mod jobs;
pub mod queue_laws;
pub mod job_repo;

pub use jobs::{ClaimedJob, JobStatus};
pub use job_repo::{JobRepo, JobRow, RepoError};
pub mod handlers;

pub use handlers::{AlwaysFailsHandler, AlwaysRetryHandler, AlwaysSucceedHandler, HandleOutcome, HandlerError, HandlesJob};
pub mod worker;

pub use worker::{RepoAction, WorkerConfig, WorkerStep};
pub mod round_laws;
