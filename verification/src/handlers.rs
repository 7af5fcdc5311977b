//! What a job handler reports back, the handler trait, and three handlers
//! with a fixed answer.

use vstd::prelude::*;

verus! {

/// What a handler reports for a job that it ran to the end.
#[derive(Debug, Clone, PartialEq, Eq)]
pub enum HandleOutcome {
    /// The job is done.
    Succeeded,
    /// The job should run again later, for `reason`.
    Retry { reason: String },
}

/// A handler that could not process a job, with its message.
#[derive(Debug, Clone, PartialEq, Eq)]
pub struct HandlerError {
    pub message: String,
}

impl HandlerError {
    /// An error with `message`.
    pub fn new(message: &str) -> (e: HandlerError)
        ensures
            e.message@ == message@,
    {
        HandlerError { message: message.to_owned() }
    }

    /// The message of the error.
    pub fn to_string(&self) -> (s: String)
        ensures
            s == self.message,
    {
        self.message.clone()
    }
}

/// Runs the payload of a job, for `crate::worker::run_worker_once`.
///
/// What it returns decides what becomes of the job (see
/// `crate::worker::decision`). A handler whose answer comes from elsewhere,
/// such as an awaited task, hands that answer to `crate::worker::decide` or
/// `crate::worker::complete_job` instead.
pub trait HandlesJob<T> {
    fn handle_job(&self, job_payload: &T) -> Result<HandleOutcome, HandlerError>;
}

/// A handler that finishes every job.
pub struct AlwaysSucceedHandler {}

/// A handler that asks for every job to run again, for the reason
/// "alwaysretries".
pub struct AlwaysRetryHandler {}

/// A handler that fails every job with the message "alwaysfails".
pub struct AlwaysFailsHandler {}

impl<T> HandlesJob<T> for AlwaysSucceedHandler {
    fn handle_job(&self, _job_payload: &T) -> (r: Result<HandleOutcome, HandlerError>)
        ensures
            r == Ok::<HandleOutcome, HandlerError>(HandleOutcome::Succeeded),
    {
        Ok(HandleOutcome::Succeeded)
    }
}

impl<T> HandlesJob<T> for AlwaysRetryHandler {
    fn handle_job(&self, _job_payload: &T) -> (r: Result<HandleOutcome, HandlerError>)
        ensures
            r matches Ok(HandleOutcome::Retry { reason }) && reason@ == "alwaysretries"@,
    {
        Ok(HandleOutcome::Retry { reason: "alwaysretries".to_owned() })
    }
}

impl<T> HandlesJob<T> for AlwaysFailsHandler {
    fn handle_job(&self, _job_payload: &T) -> (r: Result<HandleOutcome, HandlerError>)
        ensures
            r matches Err(e) && e.message@ == "alwaysfails"@,
    {
        Err(HandlerError::new("alwaysfails"))
    }
}

} // verus!
