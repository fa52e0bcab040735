//! Where a branch belongs: its effective parent, and the rebase that moves it there.
use vstd::prelude::*;

use crate::error::StackError;
use crate::state::{find_branch, has_branch, lookup, BranchStatus, ManagedBranch, RepoState};

verus! {

/// A planned `git rebase --onto new_base old_base branch`.
#[derive(Debug, Clone)]
pub struct RebasePlan {
    pub branch: String,
    pub configured_parent: String,
    pub effective_parent: String,
    pub old_base: String,
    pub new_base: String,
}

/// The branch that `b` should sit on: trunk when its parent is trunk or a merged
/// tracked branch, otherwise its configured parent.
pub open spec fn effective_parent_spec(s: Seq<ManagedBranch>, trunk: Seq<char>, b: ManagedBranch) -> Seq<char> {
    if b.parent@ == trunk {
        trunk
    } else {
        match lookup(s, b.parent@) {
            Some(p) => if p.status == BranchStatus::Merged {
                trunk
            } else {
                b.parent@
            },
            None => b.parent@,
        }
    }
}

/// The branch that `branch` should sit on (see `effective_parent_spec`).
pub fn effective_parent(state: &RepoState, branch: &ManagedBranch) -> (r: String)
    ensures
        r@ == effective_parent_spec(state.branches@, state.repo.trunk@, *branch),
{
    if crate::text::str_eq(branch.parent.as_str(), state.repo.trunk.as_str()) {
        return state.repo.trunk.clone();
    }
    match state.branch(branch.parent.as_str()) {
        Some(p) => {
            if p.status == BranchStatus::Merged {
                state.repo.trunk.clone()
            } else {
                branch.parent.clone()
            }
        },
        None => branch.parent.clone(),
    }
}

/// The branch whose tip `branch_name` is to be rebased onto: `onto` when given,
/// otherwise its effective parent.
pub fn rebase_target(state: &RepoState, branch_name: &str, onto: Option<&str>) -> (r: Result<String, StackError>)
    ensures
        match lookup(state.branches@, branch_name@) {
            None => exists|m: String| r == Err::<String, StackError>(StackError::BranchNotTracked(m)) && m@ == branch_name@,
            Some(b) => r is Ok && r->Ok_0@ == match onto {
                Some(o) => o@,
                None => effective_parent_spec(state.branches@, state.repo.trunk@, b),
            },
        },
{
    let branch = match state.branch(branch_name) {
        Some(b) => b,
        None => return Err(StackError::BranchNotTracked(branch_name.to_string())),
    };
    match onto {
        Some(o) => Ok(o.to_string()),
        None => Ok(effective_parent(state, branch)),
    }
}

/// Plan the rebase of `branch_name` given `new_base`, the tip of its rebase target
/// (`rebase_target`): nothing to do when the recorded parent tip already is
/// `new_base`, otherwise move the commits above the recorded tip onto `new_base`.
pub fn plan_rebase(state: &RepoState, branch_name: &str, onto: Option<&str>, new_base: &str) -> (r: Result<Option<RebasePlan>, StackError>)
    ensures
        match lookup(state.branches@, branch_name@) {
            None => exists|m: String| r == Err::<Option<RebasePlan>, StackError>(StackError::BranchNotTracked(m)) && m@ == branch_name@,
            Some(b) => r is Ok && if b.recorded_parent_tip@ == new_base@ {
                r->Ok_0 is None
            } else {
                r->Ok_0 matches Some(p) && p.branch == b.name && p.configured_parent == b.parent
                    && p.effective_parent@ == match onto {
                        Some(o) => o@,
                        None => effective_parent_spec(state.branches@, state.repo.trunk@, b),
                    } && p.old_base == b.recorded_parent_tip && p.new_base@ == new_base@
            },
        },
{
    let target = rebase_target(state, branch_name, onto)?;
    let branch = match state.branch(branch_name) {
        Some(b) => b,
        None => return Err(StackError::BranchNotTracked(branch_name.to_string())),
    };
    if crate::text::str_eq(branch.recorded_parent_tip.as_str(), new_base) {
        return Ok(None);
    }
    Ok(Some(RebasePlan {
        branch: branch.name.clone(),
        configured_parent: branch.parent.clone(),
        effective_parent: target,
        old_base: branch.recorded_parent_tip.clone(),
        new_base: new_base.to_string(),
    }))
}

/// Law: once a tracked branch is marked merged, every branch whose parent it is sits on
/// trunk.
pub proof fn lemma_merged_parent_redirects_children(
    s: Seq<ManagedBranch>,
    t: Seq<char>,
    parent: Seq<char>,
    child: ManagedBranch,
)
    requires
        has_branch(s, parent),
        child.parent@ == parent,
    ensures
        ({
            let i = find_branch(s, parent)->0;
            let merged = s.update(i, ManagedBranch { status: BranchStatus::Merged, ..s[i] });
            effective_parent_spec(merged, t, child) == t
        }),
{
    crate::state::lemma_has_branch_found(s, parent);
    let i = find_branch(s, parent)->0;
    let b = ManagedBranch { status: BranchStatus::Merged, ..s[i] };
    let merged = s.update(i, b);
    crate::state::lemma_find_after_update(s, i, b, parent);
    assert(lookup(merged, parent) == Some(b));
}

/// Law: once the rebase of a branch onto `new_base` is recorded, the branch is found
/// sitting on `new_base`, so planning its rebase against that same tip finds nothing to
/// do (see `plan_rebase`).
pub proof fn lemma_recorded_rebase_is_current(s: Seq<ManagedBranch>, name: Seq<char>, new_base: String)
    requires
        has_branch(s, name),
    ensures
        ({
            let i = find_branch(s, name)->0;
            let after = s.update(i, ManagedBranch { recorded_parent_tip: new_base, ..s[i] });
            lookup(after, name) matches Some(b) && b.recorded_parent_tip == new_base
        }),
{
    crate::state::lemma_has_branch_found(s, name);
    let i = find_branch(s, name)->0;
    let b = ManagedBranch { recorded_parent_tip: new_base, ..s[i] };
    crate::state::lemma_find_after_update(s, i, b, name);
}

/// Law: the effective parent of a branch is trunk exactly when its parent is trunk or a
/// tracked branch that is merged; otherwise it is the configured parent, also when that
/// parent is not tracked.
pub proof fn lemma_effective_parent_cases(s: Seq<ManagedBranch>, t: Seq<char>, b: ManagedBranch)
    ensures
        (b.parent@ == t || (has_branch(s, b.parent@) && lookup(s, b.parent@)->0.status
            == BranchStatus::Merged)) ==> effective_parent_spec(s, t, b) == t,
        !(b.parent@ == t || (has_branch(s, b.parent@) && lookup(s, b.parent@)->0.status
            == BranchStatus::Merged)) ==> effective_parent_spec(s, t, b) == b.parent@,
        !has_branch(s, b.parent@) ==> effective_parent_spec(s, t, b) == b.parent@,
{
    if has_branch(s, b.parent@) {
        crate::state::lemma_has_branch_found(s, b.parent@);
    } else {
        assert(find_branch(s, b.parent@) is None);
    }
}

} // verus!
