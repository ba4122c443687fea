//! The job runtime's verified pieces.
//!
//! A job is a persisted record driven through a small state machine:
//! `Queued` to `Running` on pickup, pausing and resuming, and the three
//! terminal states. Submissions are deduplicated by a stable digest of the
//! job's init payload; the digest here is an FNV-1a fold over the payload's
//! fields, the same values giving the same digest in every process.

use vstd::prelude::*;
use vstd::string::StrSliceExecFns;

verus! {

/// The FNV-1a offset basis.
pub const FNV_OFFSET: u64 = 0xcbf29ce484222325;

/// One FNV-1a round: fold a value into the running digest.
pub open spec fn fnv_step(h: u64, x: u64) -> u64 {
    (((h ^ x) as u128 * 0x100000001b3) % 0x10000000000000000) as u64
}

/// The digest after folding in every character of a string.
pub open spec fn fnv_chars(h: u64, s: Seq<char>) -> u64
    decreases s.len(),
{
    if s.len() == 0 {
        h
    } else {
        fnv_chars(fnv_step(h, s[0] as u64), s.skip(1))
    }
}

/// One FNV-1a round.
pub fn fnv_step_exec(h: u64, x: u64) -> (r: u64)
    ensures
        r == fnv_step(h, x),
{
    let t: u128 = ((h ^ x) as u128) * 0x100000001b3u128;
    (t % 0x10000000000000000u128) as u64
}

/// Folds every character of a string into the digest.
pub fn fnv_fold_str(h0: u64, s: &str) -> (r: u64)
    ensures
        r == fnv_chars(h0, s@),
{
    let n = s.unicode_len();
    let mut h = h0;
    let mut i: usize = 0;
    proof {
        assert(s@.skip(0) =~= s@);
    }
    while i < n
        invariant
            i <= n,
            n == s@.len(),
            fnv_chars(h0, s@) == fnv_chars(h, s@.skip(i as int)),
        decreases n - i,
    {
        let c = s.get_char(i);
        proof {
            assert(s@.skip(i as int)[0] == s@[i as int]);
            assert(s@.skip(i as int).skip(1) =~= s@.skip(i + 1));
        }
        h = fnv_step_exec(h, c as u64);
        i += 1;
    }
    proof {
        assert(s@.skip(n as int) =~= Seq::<char>::empty());
    }
    h
}

/// Where a job stands in its lifecycle.
#[derive(Debug, PartialEq, Eq, Structural, Clone, Copy)]
pub enum JobStatus {
    Queued,
    Running,
    Paused,
    Completed,
    Failed,
    Canceled,
}

/// What can happen to a job.
#[derive(Debug, PartialEq, Eq, Structural, Clone, Copy)]
pub enum JobSignal {
    /// A worker picked the job up.
    Pickup,
    /// An external pause request; takes effect at the step boundary.
    Pause,
    /// An external resume request.
    Resume,
    /// The step queue ran dry and finalize succeeded.
    Complete,
    /// A step or finalize failed beyond retry.
    Fail,
    /// An external cancel request; observed at the next step boundary.
    Cancel,
}

/// The job lifecycle: which signal moves which state where. `None` is a
/// signal that the runtime never delivers in that state.
pub open spec fn spec_job_transition(s: JobStatus, ev: JobSignal) -> Option<JobStatus> {
    match (s, ev) {
        (JobStatus::Queued, JobSignal::Pickup) => Some(JobStatus::Running),
        (JobStatus::Queued, JobSignal::Cancel) => Some(JobStatus::Canceled),
        (JobStatus::Running, JobSignal::Pause) => Some(JobStatus::Paused),
        (JobStatus::Running, JobSignal::Complete) => Some(JobStatus::Completed),
        (JobStatus::Running, JobSignal::Fail) => Some(JobStatus::Failed),
        (JobStatus::Running, JobSignal::Cancel) => Some(JobStatus::Canceled),
        (JobStatus::Paused, JobSignal::Resume) => Some(JobStatus::Running),
        (JobStatus::Paused, JobSignal::Cancel) => Some(JobStatus::Canceled),
        _ => None,
    }
}

/// A state is terminal when no signal leaves it.
pub open spec fn is_terminal(s: JobStatus) -> bool {
    s is Completed || s is Failed || s is Canceled
}

/// Applies one lifecycle signal.
pub fn job_transition(s: JobStatus, ev: JobSignal) -> (r: Option<JobStatus>)
    ensures
        r == spec_job_transition(s, ev),
{
    match (s, ev) {
        (JobStatus::Queued, JobSignal::Pickup) => Some(JobStatus::Running),
        (JobStatus::Queued, JobSignal::Cancel) => Some(JobStatus::Canceled),
        (JobStatus::Running, JobSignal::Pause) => Some(JobStatus::Paused),
        (JobStatus::Running, JobSignal::Complete) => Some(JobStatus::Completed),
        (JobStatus::Running, JobSignal::Fail) => Some(JobStatus::Failed),
        (JobStatus::Running, JobSignal::Cancel) => Some(JobStatus::Canceled),
        (JobStatus::Paused, JobSignal::Resume) => Some(JobStatus::Running),
        (JobStatus::Paused, JobSignal::Cancel) => Some(JobStatus::Canceled),
        _ => None,
    }
}

/// Terminal states never move again.
pub proof fn lemma_terminal_states_stay(s: JobStatus, ev: JobSignal)
    requires
        is_terminal(s),
    ensures
        spec_job_transition(s, ev) is None,
{
}

/// A progress report handed to the runtime between steps.
#[derive(Debug)]
pub enum JobReportUpdate {
    TaskCount(u64),
    CompletedTaskCount(u64),
    Message(String),
    Phase(String),
}

/// A submission is rejected when an identical init digest is already live
/// (queued or running) and the caller did not force it.
pub fn should_reject_submission(live_hashes: &Vec<u64>, new_hash: u64, force: bool) -> (r: bool)
    ensures
        r == (!force && live_hashes@.contains(new_hash)),
{
    if force {
        return false;
    }
    let n = live_hashes.len();
    let mut i: usize = 0;
    while i < n
        invariant
            i <= n,
            n == live_hashes@.len(),
            !force,
            forall|m: int| 0 <= m < i ==> live_hashes@[m] != new_hash,
        decreases n - i,
    {
        if live_hashes[i] == new_hash {
            proof {
                assert(live_hashes@.contains(new_hash));
            }
            return true;
        }
        i += 1;
    }
    proof {
        assert(!live_hashes@.contains(new_hash));
    }
    false
}

} // verus!
