//! The per-video job state machine.
//!
//! Each video group runs as one job: fetch the source, then produce the
//! clips. A failure is terminal for its own job and for it alone; jobs
//! never share state, so one job's failure cannot change another's
//! outcome.

use vstd::prelude::*;

verus! {

/// The states one job passes through.
#[derive(Clone, Copy, Debug, PartialEq, Eq, Structural)]
pub enum JobState {
    Pending,
    Fetching,
    /// Terminal: the source could not be fetched.
    FetchFailed,
    Fetched,
    Clipping,
    /// Terminal: a trim invocation failed; later clips of the job are
    /// abandoned.
    ClipFailed,
    /// Terminal: every clip was produced, or the job was an idempotent
    /// skip.
    Done,
}

/// The events a running job reports.
#[derive(Clone, Copy, Debug, PartialEq, Eq, Structural)]
pub enum JobEvent {
    Begin,
    FetchOk,
    FetchErr,
    ClipsBegin,
    ClipErr,
    ClipsDone,
}

/// The transition relation: terminal states absorb every event, and an
/// event that does not belong to the current state changes nothing.
pub open spec fn spec_job_step(s: JobState, e: JobEvent) -> JobState {
    match (s, e) {
        (JobState::Pending, JobEvent::Begin) => JobState::Fetching,
        (JobState::Fetching, JobEvent::FetchOk) => JobState::Fetched,
        (JobState::Fetching, JobEvent::FetchErr) => JobState::FetchFailed,
        (JobState::Fetched, JobEvent::ClipsBegin) => JobState::Clipping,
        (JobState::Clipping, JobEvent::ClipErr) => JobState::ClipFailed,
        (JobState::Clipping, JobEvent::ClipsDone) => JobState::Done,
        _ => s,
    }
}

/// Advances one job's state by one reported event.
pub fn job_step(s: JobState, e: JobEvent) -> (r: JobState)
    ensures
        r == spec_job_step(s, e),
{
    match (s, e) {
        (JobState::Pending, JobEvent::Begin) => JobState::Fetching,
        (JobState::Fetching, JobEvent::FetchOk) => JobState::Fetched,
        (JobState::Fetching, JobEvent::FetchErr) => JobState::FetchFailed,
        (JobState::Fetched, JobEvent::ClipsBegin) => JobState::Clipping,
        (JobState::Clipping, JobEvent::ClipErr) => JobState::ClipFailed,
        (JobState::Clipping, JobEvent::ClipsDone) => JobState::Done,
        _ => s,
    }
}

/// What one job's outside work reported back.
pub struct JobResult {
    /// The fetch (metadata, and the download on a cache miss) succeeded.
    pub fetch_ok: bool,
    /// The output directory was fresh; an existing one is a silent skip.
    pub dir_created: bool,
    /// One flag per attempted trim invocation, in clip order.
    pub clip_oks: Vec<bool>,
}

/// The abstract value of one job's report.
pub open spec fn result_view(j: JobResult) -> (bool, bool, Seq<bool>) {
    (j.fetch_ok, j.dir_created, j.clip_oks@)
}

/// The terminal state a job's report leads to.
pub open spec fn spec_outcome(rv: (bool, bool, Seq<bool>)) -> JobState {
    if !rv.0 {
        JobState::FetchFailed
    } else if !rv.1 {
        JobState::Done
    } else if exists|i: int| 0 <= i < rv.2.len() && !(#[trigger] rv.2[i]) {
        JobState::ClipFailed
    } else {
        JobState::Done
    }
}

/// The terminal state of one job from its report alone.
pub fn job_outcome(j: &JobResult) -> (r: JobState)
    ensures
        r == spec_outcome(result_view(*j)),
{
    if !j.fetch_ok {
        return JobState::FetchFailed;
    }
    if !j.dir_created {
        return JobState::Done;
    }
    let mut i: usize = 0;
    while i < j.clip_oks.len()
        invariant
            i <= j.clip_oks@.len(),
            j.fetch_ok,
            j.dir_created,
            forall|t: int| 0 <= t < i ==> #[trigger] j.clip_oks@[t],
        decreases j.clip_oks@.len() - i,
    {
        if !j.clip_oks[i] {
            proof {
                assert(result_view(*j).2[i as int] == j.clip_oks@[i as int]);
                assert(!result_view(*j).2[i as int]);
            }
            return JobState::ClipFailed;
        }
        i += 1;
    }
    JobState::Done
}

/// The terminal states of a whole batch: each job's outcome is a function
/// of its own report alone.
pub fn batch_outcomes(jobs: &Vec<JobResult>) -> (r: Vec<JobState>)
    ensures
        r@.len() == jobs@.len(),
        forall|i: int|
            0 <= i < jobs@.len() ==> r@[i] == spec_outcome(result_view(#[trigger] jobs@[i])),
{
    let mut out: Vec<JobState> = Vec::new();
    let mut k: usize = 0;
    while k < jobs.len()
        invariant
            k <= jobs@.len(),
            out@.len() == k,
            forall|i: int|
                0 <= i < k ==> out@[i] == spec_outcome(result_view(#[trigger] jobs@[i])),
        decreases jobs@.len() - k,
    {
        let s = job_outcome(&jobs[k]);
        out.push(s);
        k += 1;
    }
    out
}

/// A fetch failure of one job in a batch leaves it terminal in
/// `FetchFailed` while every fully successful job of the same batch still
/// ends `Done`: failures are isolated per job.
pub proof fn lemma_fetch_failure_isolated(jobs: Seq<(bool, bool, Seq<bool>)>, a: int, b: int)
    requires
        0 <= a < jobs.len(),
        0 <= b < jobs.len(),
        a != b,
        !jobs[a].0,
        jobs[b].0,
        jobs[b].1,
        forall|i: int| 0 <= i < jobs[b].2.len() ==> #[trigger] jobs[b].2[i],
    ensures
        spec_outcome(jobs[a]) == JobState::FetchFailed,
        spec_outcome(jobs[b]) == JobState::Done,
{
}

} // verus!
