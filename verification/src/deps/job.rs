//! Job types and ids.
//!
//! A [`Job`] is one (unit, action, mode) triple queued in the manager. The
//! transaction engine produces a `Vec<Job>`; the runtime executes them in
//! the order returned. Ids are allocated centrally via [`JobIdAlloc`].

use crate::number;
use crate::number::decimal_string;
use crate::unit::name::{NameView, UnitName};
use vstd::prelude::*;

verus! {

/// Opaque, monotonically-allocated job id.
#[derive(Debug, Clone, Copy, PartialEq, Eq, Hash, PartialOrd, Ord, Structural)]
pub struct JobId(pub u32);

impl JobId {
    /// Sentinel used before an id is allocated. The runtime never sees this
    /// value because a built transaction has its ids.
    pub fn placeholder() -> (r: Self)
        ensures
            r == JobId(0),
    {
        JobId(0)
    }

    /// The id in decimal.
    pub fn to_text(&self) -> (r: String)
        ensures
            r@ == number::decimal(self.0 as nat),
    {
        decimal_string(self.0 as u64)
    }
}

/// The id that follows: after the largest one the ids start over.
pub open spec fn id_after(id: u32) -> u32 {
    if id == u32::MAX {
        0
    } else {
        (id + 1) as u32
    }
}

/// Id allocator. Hand one to the transaction builder.
///
/// Starts at 1: `JobId(0)` is reserved as a sentinel.
#[derive(Debug)]
pub struct JobIdAlloc {
    next: u32,
}

impl View for JobIdAlloc {
    type V = u32;

    /// The id that is handed out next.
    closed spec fn view(&self) -> u32 {
        self.next
    }
}

impl Default for JobIdAlloc {
    /// An allocator that starts at the sentinel.
    fn default() -> (r: Self)
        ensures
            r@ == 0,
    {
        JobIdAlloc { next: 0 }
    }
}

impl JobIdAlloc {
    /// New allocator starting at 1 (skips the sentinel).
    #[must_use]
    pub fn new() -> (r: Self)
        ensures
            r@ == 1,
    {
        JobIdAlloc { next: 1 }
    }

    /// New allocator starting at the given value. Useful for resuming after
    /// a daemon restart with persisted job ids.
    #[must_use]
    pub fn starting_at(start: u32) -> (r: Self)
        ensures
            r@ == if start == 0 {
                1
            } else {
                start
            },
    {
        JobIdAlloc { next: if start == 0 { 1 } else { start } }
    }

    /// Allocate a fresh id.
    pub fn allocate(&mut self) -> (r: JobId)
        ensures
            r == JobId(old(self)@),
            final(self)@ == id_after(old(self)@),
    {
        let id = self.next;
        self.next = if id == u32::MAX { 0 } else { id + 1 };
        JobId(id)
    }
}

/// What action a job performs on a unit.
#[derive(Debug, Clone, Copy, PartialEq, Eq, Hash, Structural)]
pub enum JobType {
    /// Activate.
    Start,
    /// Deactivate.
    Stop,
    /// Stop then start.
    Restart,
    /// Restart only if currently active; if inactive, do nothing.
    TryRestart,
    /// Reload (`ExecReload=`).
    Reload,
    /// Reload if active else start.
    ReloadOrStart,
    /// Verify the unit is active. Fails if inactive — never starts.
    VerifyActive,
    /// No-op placeholder used for ordering / collapsed propagation.
    Nop,
}

/// The jobs that leave the unit active.
pub open spec fn activates(kind: JobType) -> bool {
    kind is Start || kind is Restart || kind is ReloadOrStart || kind is Reload
        || kind is VerifyActive
}

impl JobType {
    /// True if this job will, on success, leave the unit active.
    pub fn results_in_active(self) -> (r: bool)
        ensures
            r == activates(self),
    {
        matches!(
            self,
            JobType::Start | JobType::Restart | JobType::ReloadOrStart | JobType::Reload
                | JobType::VerifyActive
        )
    }

    /// True if this job will, on success, leave the unit inactive.
    pub fn results_in_inactive(self) -> (r: bool)
        ensures
            r == (self is Stop),
    {
        matches!(self, JobType::Stop)
    }

    /// The kind for a unit that is inactive: a `TryRestart` has nothing to do.
    pub fn collapse_for_inactive(self) -> (r: Self)
        ensures
            r == if self is TryRestart {
                JobType::Nop
            } else {
                self
            },
    {
        match self {
            JobType::TryRestart => JobType::Nop,
            other => other,
        }
    }
}

/// systemd `--mode=` semantic for how a new job interacts with existing ones.
#[derive(Debug, Clone, Copy, PartialEq, Eq, Structural)]
pub enum JobMode {
    /// Refuse if existing jobs would be replaced.
    Fail,
    /// Replace conflicting jobs (default).
    Replace,
    /// Like `Replace` but also force-cancel `Irreversible` jobs.
    ReplaceIrreversibly,
    /// Stop everything not in the dependency closure of the new root.
    /// Only valid for units with `AllowIsolate=yes`.
    Isolate,
    /// Like `Replace` but flush queued jobs first.
    Flush,
    /// Bypass all dependency expansion.
    IgnoreDependencies,
    /// Expand pull dependencies but skip ordering.
    IgnoreRequirements,
}

impl Default for JobMode {
    fn default() -> (r: Self)
        ensures
            r is Replace,
    {
        JobMode::Replace
    }
}

/// Final outcome of a job once it completes.
#[derive(Debug, Clone, Copy, PartialEq, Eq, Structural)]
pub enum JobOutcome {
    /// Job ran to completion successfully.
    Done,
    /// Job was cancelled by another job.
    Canceled,
    /// Timed out.
    Timeout,
    /// Failed (process exit, condition false, etc).
    Failed,
    /// Dependency failed and propagated.
    DependencyFailed,
    /// Skipped because a `Condition*=` was not met.
    Skipped,
}

/// One queued or in-flight job.
#[derive(Debug, PartialEq, Eq)]
pub struct Job {
    /// Unique job id.
    pub id: JobId,
    /// Target unit name.
    pub unit: UnitName,
    /// What action.
    pub kind: JobType,
    /// Conflict resolution mode.
    pub mode: JobMode,
}

/// A [`Job`] by its characters.
pub struct JobView {
    pub id: JobId,
    pub unit: NameView,
    pub kind: JobType,
    pub mode: JobMode,
}

impl View for Job {
    type V = JobView;

    open spec fn view(&self) -> JobView {
        JobView { id: self.id, unit: self.unit@, kind: self.kind, mode: self.mode }
    }
}

/// The views of a list of jobs.
pub open spec fn jobs_view(v: Seq<Job>) -> Seq<JobView> {
    v.map_values(|j: Job| j@)
}

impl Clone for Job {
    fn clone(&self) -> (r: Self)
        ensures
            r@ == self@,
    {
        Job { id: self.id, unit: self.unit.clone(), kind: self.kind, mode: self.mode }
    }
}

impl Job {
    /// Construct a new job with the given fields.
    pub fn new(id: JobId, unit: UnitName, kind: JobType, mode: JobMode) -> (r: Self)
        ensures
            r@ == (JobView { id, unit: unit@, kind, mode }),
    {
        Job { id, unit, kind, mode }
    }
}

/// The ids handed out by successive allocations follow one another, and none of
/// them is the sentinel until all others have been used.
pub proof fn ids_follow_one_another(id: u32)
    ensures
        id < u32::MAX ==> id_after(id) == id + 1,
        id_after(id) == 0 <==> id == u32::MAX,
{
}

} // verus!
