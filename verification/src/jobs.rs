//! The states a queued job moves through, and what a worker receives when it
//! claims one.

use vstd::prelude::*;

verus! {

/// The state of a job in the queue.
///
/// Each state is stored as a small integer: see [`JobStatus::code`].
#[derive(Debug, Clone, Copy, PartialEq, Eq, Structural)]
pub enum JobStatus {
    Pending,
    Leased,
    Succeeded,
    Failed,
}

impl JobStatus {
    /// The integer under which the state is stored.
    pub open spec fn spec_code(self) -> int {
        match self {
            JobStatus::Pending => 0,
            JobStatus::Leased => 1,
            JobStatus::Succeeded => 2,
            JobStatus::Failed => 3,
        }
    }

    /// A job in this state will never be handed out again.
    pub open spec fn is_terminal(self) -> bool {
        self == JobStatus::Succeeded || self == JobStatus::Failed
    }

    /// The integer under which the state is stored: `Pending` is 0, `Leased`
    /// 1, `Succeeded` 2 and `Failed` 3.
    pub fn code(&self) -> (c: i32)
        ensures
            c == self.spec_code(),
    {
        match self {
            JobStatus::Pending => 0,
            JobStatus::Leased => 1,
            JobStatus::Succeeded => 2,
            JobStatus::Failed => 3,
        }
    }

    /// The state stored under `code`, if `code` is one of the four codes.
    pub fn from_code(code: i32) -> (s: Option<JobStatus>)
        ensures
            s matches Some(st) ==> st.spec_code() == code,
            s is None <==> !(0 <= code <= 3),
    {
        if code == 0 {
            Some(JobStatus::Pending)
        } else if code == 1 {
            Some(JobStatus::Leased)
        } else if code == 2 {
            Some(JobStatus::Succeeded)
        } else if code == 3 {
            Some(JobStatus::Failed)
        } else {
            None
        }
    }
}

/// Decoding a stored state gives back the state that was stored.
pub proof fn lemma_status_code_round_trip(s: JobStatus)
    ensures
        0 <= s.spec_code() <= 3,
        forall|t: JobStatus| #[trigger] t.spec_code() == s.spec_code() ==> t == s,
{
}

/// A job handed to a worker: its id in the queue, how many times it has been
/// claimed (this claim included), and its payload.
#[derive(Debug, PartialEq, Eq)]
pub struct ClaimedJob<T> {
    pub queue_id: i64,
    pub attempts: i32,
    pub payload: T,
}

} // verus!
