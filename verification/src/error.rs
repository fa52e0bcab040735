use vstd::prelude::*;

verus! {

/// Everything that the stack logic can refuse.
#[derive(Debug, Clone, PartialEq, Eq)]
pub enum StackError {
    NotInitialized,
    BranchAlreadyTracked(String),
    InvalidGraph(String),
    DirtyWorktree,
    /// A branch that an operation was about to update is no longer tracked.
    BranchDisappeared(String),
    /// The state file has a version this library does not read.
    UnsupportedVersion(u32),
    /// A branch that must exist locally does not.
    BranchMissing(String),
    /// A recorded commit does not exist.
    CommitMissing(String),
    /// The branch is not tracked.
    BranchNotTracked(String),
    /// `az` output for this PR carried no REST URL, so it cannot be retargeted.
    MissingRestUrl(u64),
    /// The branch is not active.
    BranchNotActive(String),
    /// The branch already tracks a PR (its id).
    PrAlreadyTracked(String),
    /// No active branch with a PR targets trunk (trunk's name).
    NoLandablePr(String),
    /// Several branches with PRs target trunk (trunk's name, the branches).
    MultipleLandablePrs(String, Vec<String>),
    /// The branch (first) targets another branch (second) than trunk.
    NotTrunkFacing(String, String),
    /// The branch has no tracked PR.
    NoTrackedPr(String),
    /// A branch to be created already exists locally.
    BranchExists(String),
    /// The parent named for a new branch does not exist.
    ParentMissing(String),
    /// The parent named for a tracked branch does not exist locally.
    ParentNotLocal(String),
    /// HEAD is detached, so there is no current branch to track.
    DetachedHead,
    /// Trunk itself was to be tracked.
    TrunkNotTrackable,
    /// No tracked branch is active.
    NoActiveBranches,
    /// A menu selection that is not a number.
    SelectionNotNumber,
    /// A menu selection out of range (the number given).
    InvalidSelection(usize),
    /// A reparent is already pending.
    ReparentPending,
    /// A reparent was asked for without a branch.
    MissingReparentBranch,
    /// A reparent was asked for without a new parent.
    MissingReparentParent,
    /// A branch was to become its own parent.
    SelfParent(String),
    /// Trunk was to be reparented.
    TrunkReparent,
    /// The new parent is neither trunk nor tracked.
    ParentNotTracked(String),
    /// `--continue` was combined with other reparent options.
    ContinueConflict,
    /// `--abort` was combined with other reparent options.
    AbortConflict,
    /// No reparent is pending.
    NoPendingReparent,
    /// No rebase of a stack sync is in progress.
    NoSyncRebase,
    /// Conflict markers remain in these paths.
    UnresolvedConflicts(Vec<String>),
    /// The branch whose rebase was continued is not tracked.
    RebasedBranchNotTracked(String),
    /// The stack state already exists (at this path).
    StateExists(String),
}

} // verus!
