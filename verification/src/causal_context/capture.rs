//! What a run of the search gives, within bounds.

use vstd::prelude::*;

verus! {

/// The most bytes that are captured of what a search writes.
pub const MAX_RAW_SEARCH_BYTES: usize = 8_388_608;

/// How many seconds a search may run.
pub const EXECUTOR_TIMEOUT_SECONDS: u64 = 30;

/// Why the search is to be run again as it was written.
#[derive(Clone, Copy, Debug, PartialEq, Eq, Structural)]
pub enum ReplayReason {
    RequestExpired,
    SessionStale,
    RevisionStale,
    CaptureOverflow,
    CaptureTimedOut,
    RipgrepError,
    RipgrepExit,
    RawParse,
    SourceIdentityStale,
    Integrity,
    ProjectionTooLarge,
    ProjectionNotSmaller,
    ExecutionError,
}

/// What a run gave.
#[derive(Debug, PartialEq, Eq)]
pub struct Capture {
    pub stdout: Vec<u8>,
    pub stderr: Vec<u8>,
    pub exit_code: Option<i32>,
    pub overflowed: bool,
    pub timed_out: bool,
}

/// What a `Capture` says.
pub struct CaptureModel {
    pub stdout: Seq<u8>,
    pub stderr: Seq<u8>,
    pub exit_code: Option<i32>,
    pub overflowed: bool,
    pub timed_out: bool,
}

impl DeepView for Capture {
    type V = CaptureModel;

    open spec fn deep_view(&self) -> CaptureModel {
        CaptureModel {
            stdout: self.stdout@,
            stderr: self.stderr@,
            exit_code: self.exit_code,
            overflowed: self.overflowed,
            timed_out: self.timed_out,
        }
    }
}

/// Why a run does not count.
pub open spec fn replay_reason(capture: CaptureModel) -> Option<ReplayReason> {
    if capture.overflowed {
        Some(ReplayReason::CaptureOverflow)
    } else if capture.timed_out {
        Some(ReplayReason::CaptureTimedOut)
    } else if capture.stderr.len() > 0 {
        Some(ReplayReason::RipgrepError)
    } else if capture.exit_code != Some(0i32) {
        Some(ReplayReason::RipgrepExit)
    } else {
        None
    }
}

/// Why a run does not count.
pub fn capture_replay_reason(capture: &Capture) -> (r: Option<ReplayReason>)
    ensures
        r == replay_reason(capture.deep_view()),
{
    if capture.overflowed {
        return Some(ReplayReason::CaptureOverflow);
    }
    if capture.timed_out {
        return Some(ReplayReason::CaptureTimedOut);
    }
    if capture.stderr.len() > 0 {
        return Some(ReplayReason::RipgrepError);
    }
    match capture.exit_code {
        Some(code) => if code == 0 {
            None
        } else {
            Some(ReplayReason::RipgrepExit)
        },
        None => Some(ReplayReason::RipgrepExit),
    }
}

/// How many of the bytes that were read are kept, where `prior` were read before.
pub open spec fn kept_bytes(prior: nat, read: nat) -> nat {
    if prior >= MAX_RAW_SEARCH_BYTES {
        0
    } else if read > MAX_RAW_SEARCH_BYTES - prior {
        (MAX_RAW_SEARCH_BYTES - prior) as nat
    } else {
        read
    }
}

/// Takes in bytes that were read: how many of them are kept, and whether any are not.
pub fn keep_within_bound(prior: usize, read: usize) -> (r: (usize, bool))
    ensures
        r.0 == kept_bytes(prior as nat, read as nat),
        r.1 == (r.0 < read),
{
    let available: usize = if prior >= MAX_RAW_SEARCH_BYTES {
        0
    } else {
        MAX_RAW_SEARCH_BYTES - prior
    };
    if available < read {
        (available, true)
    } else {
        (read, false)
    }
}

/// What is to be done with a process that runs.
#[derive(Clone, Copy, Debug, PartialEq, Eq, Structural)]
pub enum Watch {
    Kill { timed_out: bool },
    Done,
    Wait,
}

/// What is to be done with a process that runs: it is killed where it wrote too much or ran
/// too long.
pub fn watch_process(overflowed: bool, elapsed_seconds: u64, exited: bool) -> (r: Watch)
    ensures
        r == (if overflowed || elapsed_seconds >= EXECUTOR_TIMEOUT_SECONDS {
            Watch::Kill { timed_out: elapsed_seconds >= EXECUTOR_TIMEOUT_SECONDS }
        } else if exited {
            Watch::Done
        } else {
            Watch::Wait
        }),
{
    let timed_out = elapsed_seconds >= EXECUTOR_TIMEOUT_SECONDS;
    if overflowed || timed_out {
        Watch::Kill { timed_out }
    } else if exited {
        Watch::Done
    } else {
        Watch::Wait
    }
}

/// How many bytes are kept of the reads from `i` on, where `prior` bytes were read before.
pub open spec fn kept_from(reads: Seq<nat>, i: int, prior: nat) -> nat
    decreases reads.len() - i,
{
    if i < 0 || i >= reads.len() {
        0
    } else {
        kept_bytes(prior, reads[i]) + kept_from(reads, i + 1, prior + reads[i])
    }
}

/// However much is read, and in whatever pieces, no more bytes are kept than the bound says.
pub proof fn captures_are_bounded(reads: Seq<nat>, i: int, prior: nat)
    requires
        0 <= i,
    ensures
        prior <= MAX_RAW_SEARCH_BYTES ==> prior + kept_from(reads, i, prior)
            <= MAX_RAW_SEARCH_BYTES,
        prior > MAX_RAW_SEARCH_BYTES ==> kept_from(reads, i, prior) == 0,
    decreases reads.len() - i,
{
    if i < reads.len() {
        captures_are_bounded(reads, i + 1, prior + reads[i]);
    }
}

} // verus!
