//! The arguments of the stack's commands, as plain values.
use vstd::prelude::*;

use crate::sync::SyncOptions;

verus! {

/// `init`: the trunk branch and the remote to use.
#[derive(Debug, Clone)]
pub struct InitArgs {
    pub trunk: String,
    pub remote: String,
}

/// `status`: print as JSON or as text.
#[derive(Debug, Clone, Copy)]
pub struct StatusArgs {
    pub json: bool,
}

/// `create`: the new branch, and its parent (the current branch when absent).
#[derive(Debug, Clone)]
pub struct CreateArgs {
    pub branch: String,
    pub parent: Option<String>,
}

/// `track`: the branch (the current one when absent) and its parent (trunk when absent).
#[derive(Debug, Clone)]
pub struct TrackArgs {
    pub branch: Option<String>,
    pub parent: Option<String>,
}

/// `rebase`: the branch, an optional branch to rebase onto, and whether only to plan.
#[derive(Debug, Clone)]
pub struct RebaseArgs {
    pub branch: String,
    pub onto: Option<String>,
    pub dry_run: bool,
}

/// `reparent`: start (branch and new parent), continue or abort a reparent.
#[derive(Debug, Clone)]
pub struct ReparentArgs {
    pub branch: Option<String>,
    pub parent: Option<String>,
    pub no_rebase: bool,
    pub continue_reparent: bool,
    pub abort: bool,
    pub dry_run: bool,
}

/// `sync`: restack the whole stack, or only what lies under `from`.
#[derive(Debug, Clone)]
pub struct SyncArgs {
    pub all: bool,
    pub from: Option<String>,
    pub continue_sync: bool,
    pub dry_run: bool,
    pub push: bool,
    pub no_pr: bool,
}

impl SyncArgs {
    /// The options that steer the sync run.
    pub fn options(&self) -> (r: SyncOptions)
        ensures
            r.dry_run == self.dry_run,
            r.push == self.push,
            r.no_pr == self.no_pr,
    {
        SyncOptions { dry_run: self.dry_run, push: self.push, no_pr: self.no_pr }
    }
}

/// `pr create`: the branch (the current one when absent), a title (the branch name when
/// absent), and whether to open a draft.
#[derive(Debug, Clone)]
pub struct PrCreateArgs {
    pub branch: Option<String>,
    pub title: Option<String>,
    pub draft: bool,
}

/// `pr sync` takes no arguments.
#[derive(Debug, Clone, Copy)]
pub struct PrSyncArgs {}

/// The `pr` subcommands.
#[derive(Debug, Clone)]
pub enum PrCommand {
    Create(PrCreateArgs),
    Sync(PrSyncArgs),
}

/// `pr`: one of its subcommands.
#[derive(Debug, Clone)]
pub struct PrArgs {
    pub command: PrCommand,
}

/// `land`: the branch to land (the one landable branch when absent).
#[derive(Debug, Clone)]
pub struct LandArgs {
    pub branch: Option<String>,
}

/// `mark-merged`: the branch (chosen from a menu when absent).
#[derive(Debug, Clone)]
pub struct MarkMergedArgs {
    pub branch: Option<String>,
}

/// `cleanup`: whether only to list the candidates.
#[derive(Debug, Clone, Copy)]
pub struct CleanupArgs {
    pub dry_run: bool,
}

} // verus!
