//! The decisions of a stack sync: which branches are restacked, in which order, and
//! what follows the restacking.
use vstd::prelude::*;

use crate::error::StackError;
use crate::graph::{descendants_of, descendants_result, descendants_topo, topo_result};
use crate::state::{find_branch, has_branch, lookup, BranchStatus, ManagedBranch, RepoState};
use crate::git::{GitCommand, GitRepo};
use crate::order::names_of;
use crate::text::str_eq;

verus! {

/// The options of a sync run.
#[derive(Debug, Clone, Copy)]
pub struct SyncOptions {
    /// Only report the planned rebases.
    pub dry_run: bool,
    /// Push the active branches afterwards.
    pub push: bool,
    /// Leave Azure DevOps alone.
    pub no_pr: bool,
}

/// What a sync does after restacking, in order.
#[derive(Debug, Clone)]
pub enum SyncAction {
    /// Check the branch out again.
    Checkout(String),
    /// Push the branch with a lease.
    Push(String),
    /// Fold PR state back in and retarget drifted PRs.
    Retarget,
    /// Refresh the stack block in PR descriptions.
    Describe,
    /// Compare trunk with this remote-tracking branch and hint when they differ.
    CheckTrunk(String),
}

/// Some tracked branch tracks a PR.
pub open spec fn any_pr(s: Seq<ManagedBranch>) -> bool {
    exists|i: int| 0 <= i < s.len() && (#[trigger] s[i]).pr is Some
}

/// Whether some tracked branch tracks a PR.
pub fn has_prs(state: &RepoState) -> (r: bool)
    ensures
        r == any_pr(state.branches@),
{
    let mut i: usize = 0;
    while i < state.branches.len()
        invariant
            i <= state.branches@.len(),
            forall|j: int| 0 <= j < i ==> (#[trigger] state.branches@[j]).pr is None,
        decreases state.branches@.len() - i,
    {
        if state.branches[i].pr.is_some() {
            return true;
        }
        i = i + 1;
    }
    false
}

/// Whether the sync talks to Azure DevOps: PRs are tracked and not switched off.
pub fn pr_work(options: &SyncOptions, has_prs: bool) -> (r: bool)
    ensures
        r == (!options.no_pr && has_prs),
{
    !options.no_pr && has_prs
}

/// Names whose branch is tracked and active.
pub open spec fn active_name(s: Seq<ManagedBranch>) -> spec_fn(Seq<char>) -> bool {
    |n: Seq<char>| lookup(s, n) matches Some(b) && b.status == BranchStatus::Active
}

/// The position of the first name in `order` that is not tracked.
pub open spec fn first_untracked(s: Seq<ManagedBranch>, order: Seq<Seq<char>>) -> Option<int> {
    if exists|k: int| 0 <= k < order.len() && !has_branch(s, #[trigger] order[k]) {
        Some(
            choose|k: int|
                0 <= k < order.len() && !has_branch(s, #[trigger] order[k]) && forall|j: int|
                    0 <= j < k ==> has_branch(s, #[trigger] order[j]),
        )
    } else {
        None
    }
}

/// The branches of `order` that a sync restacks, in that order: the active ones. A name
/// that is no longer tracked is refused.
pub fn restack_queue(state: &RepoState, order: &Vec<String>) -> (r: Result<Vec<String>, StackError>)
    ensures
        match first_untracked(state.branches@, crate::order::names_of(order@)) {
            Some(k) => r matches Err(StackError::BranchDisappeared(m)) && m@ == order@[k]@,
            None => r matches Ok(v) && crate::order::names_of(v@) == crate::order::names_of(order@).filter(
                active_name(state.branches@),
            ),
        },
{
    let ghost s = state.branches@;
    let ghost names = crate::order::names_of(order@);
    let ghost p = active_name(s);
    let mut out: Vec<String> = Vec::new();
    let mut k: usize = 0;
    while k < order.len()
        invariant
            s == state.branches@,
            names == crate::order::names_of(order@),
            p == active_name(s),
            k <= order@.len(),
            forall|j: int| 0 <= j < k ==> has_branch(s, #[trigger] names[j]),
            crate::order::names_of(out@) == names.take(k as int).filter(p),
        decreases order@.len() - k,
    {
        proof {
            assert(names.take(k + 1) =~= names.take(k as int).push(names[k as int]));
            names.take(k as int).lemma_filter_push(names[k as int], p);
        }
        match state.branch(order[k].as_str()) {
            None => {
                proof {
                    crate::state::lemma_find_branch_none(s, names[k as int]);
                    assert(!has_branch(s, names[k as int]));
                    let w = k as int;
                    assert(0 <= w < names.len() && !has_branch(s, names[w]) && forall|j: int|
                        0 <= j < w ==> has_branch(s, #[trigger] names[j]));
                    let c = choose|c: int|
                        0 <= c < names.len() && !has_branch(s, #[trigger] names[c]) && forall|j: int|
                            0 <= j < c ==> has_branch(s, #[trigger] names[j]);
                    if c < w {
                        assert(has_branch(s, names[c]));
                    }
                    if w < c {
                        assert(has_branch(s, names[w]));
                    }
                }
                return Err(StackError::BranchDisappeared(order[k].clone()));
            },
            Some(b) => {
                proof {
                    assert(lookup(s, names[k as int]) is Some);
                    assert(find_branch(s, names[k as int]) is Some);
                    assert(has_branch(s, names[k as int]));
                }
                if b.status == BranchStatus::Active {
                    let ghost before = crate::order::names_of(out@);
                    out.push(order[k].clone());
                    assert(crate::order::names_of(out@) =~= before.push(names[k as int]));
                }
            },
        }
        k = k + 1;
    }
    proof {
        assert(names.take(k as int) =~= names);
        assert(!exists|j: int| 0 <= j < names.len() && !has_branch(s, #[trigger] names[j]));
    }
    Ok(out)
}

/// The branches a sync goes through: every tracked branch in stack order, or with
/// `from`, only the branches under that branch (itself left out).
pub fn sync_order(state: &RepoState, from: Option<&str>) -> (r: Result<Vec<String>, StackError>)
    requires
        !has_branch(state.branches@, state.repo.trunk@),
    ensures
        match from {
            None => topo_result(state.branches@, state.repo.trunk@, r),
            Some(f) => descendants_result(state.branches@, state.repo.trunk@, f@, r),
        },
{
    match from {
        None => descendants_topo(state),
        Some(f) => descendants_of(state, f),
    }
}

/// Active branches.
pub open spec fn is_active() -> spec_fn(ManagedBranch) -> bool {
    |b: ManagedBranch| b.status == BranchStatus::Active
}

/// The remote-tracking branch that trunk is compared with.
pub open spec fn remote_trunk_spec(trunk: Seq<char>) -> Seq<char> {
    "origin/"@ + trunk
}

/// The remote-tracking branch that trunk is compared with.
pub fn remote_trunk(trunk: &str) -> (r: String)
    ensures
        r@ == remote_trunk_spec(trunk@),
{
    let mut r = String::from_str("origin/");
    r.append(trunk);
    r
}

/// What a sync does after restacking: nothing when nothing was rebased and nothing is
/// to be pushed. Otherwise, in order: check out the starting branch again unless it is
/// trunk; push each active branch (in state order) when pushing; retarget PRs when PRs
/// are tracked and Azure DevOps is used (not in a dry run); refresh PR descriptions
/// likewise; and compare trunk with its remote-tracking branch.
pub fn finish_actions(
    state: &RepoState,
    options: &SyncOptions,
    has_prs: bool,
    starting_branch: &str,
    rebased: bool,
) -> (r: Option<Vec<SyncAction>>)
    ensures
        (!rebased && !options.push) <==> r is None,
        r matches Some(a) ==> {
            let s = state.branches@;
            let t = state.repo.trunk@;
            let c: int = if starting_branch@ != t { 1 } else { 0 };
            let active = s.filter(is_active());
            let p: int = if options.push { active.len() as int } else { 0 };
            let pr = !options.no_pr && has_prs;
            let rt: int = if pr && !options.dry_run { 1 } else { 0 };
            let ds: int = if pr { 1 } else { 0 };
            &&& a@.len() == c + p + rt + ds + 1
            &&& c == 1 ==> (a@[0] matches SyncAction::Checkout(b) && b@ == starting_branch@)
            &&& forall|k: int|
                0 <= k < p ==> (#[trigger] a@[c + k] matches SyncAction::Push(b) && b == active[k].name)
            &&& rt == 1 ==> a@[c + p] is Retarget
            &&& ds == 1 ==> a@[c + p + rt] is Describe
            &&& a@[c + p + rt + ds] matches SyncAction::CheckTrunk(x) && x@ == remote_trunk_spec(t)
        },
{
    if !rebased && !options.push {
        return None;
    }
    let ghost s = state.branches@;
    let ghost t = state.repo.trunk@;
    let ghost active = s.filter(is_active());
    let mut a: Vec<SyncAction> = Vec::new();
    if !str_eq(starting_branch, state.repo.trunk.as_str()) {
        a.push(SyncAction::Checkout(starting_branch.to_string()));
    }
    let ghost c = a@.len() as int;
    if options.push {
        let ghost p = is_active();
        let mut i: usize = 0;
        while i < state.branches.len()
            invariant
                s == state.branches@,
                p == is_active(),
                i <= s.len(),
                a@.len() == c + s.take(i as int).filter(p).len(),
                c == 0 || c == 1,
                c == 1 ==> (a@[0] matches SyncAction::Checkout(b) && b@ == starting_branch@),
                forall|k: int|
                    0 <= k < s.take(i as int).filter(p).len() ==> (#[trigger] a@[c + k] matches SyncAction::Push(
                        b,
                    ) && b == s.take(i as int).filter(p)[k].name),
            decreases s.len() - i,
        {
            proof {
                assert(s.take(i + 1) =~= s.take(i as int).push(s[i as int]));
                s.take(i as int).lemma_filter_push(s[i as int], p);
            }
            if state.branches[i].status == BranchStatus::Active {
                a.push(SyncAction::Push(state.branches[i].name.clone()));
            }
            i = i + 1;
        }
        assert(s.take(i as int) =~= s);
    }
    let pr = !options.no_pr && has_prs;
    if pr && !options.dry_run {
        a.push(SyncAction::Retarget);
    }
    if pr {
        a.push(SyncAction::Describe);
    }
    a.push(SyncAction::CheckTrunk(remote_trunk(state.repo.trunk.as_str())));
    Some(a)
}

/// The hint printed when local trunk and its remote-tracking branch point at different
/// commits.
pub open spec fn trunk_hint_spec(trunk: Seq<char>) -> Seq<char> {
    "Tip: local "@ + trunk + " is behind "@ + remote_trunk_spec(trunk) + ". Run 'git checkout "@ + trunk
        + " && git pull' to update."@
}

/// The hint for trunk, given its local tip and the tip of its remote-tracking branch:
/// none when they agree.
pub fn trunk_hint(trunk: &str, local_tip: &str, remote_tip: &str) -> (r: Option<String>)
    ensures
        local_tip@ == remote_tip@ <==> r is None,
        r matches Some(h) ==> h@ == trunk_hint_spec(trunk@),
{
    if str_eq(local_tip, remote_tip) {
        return None;
    }
    let mut h = String::from_str("Tip: local ");
    h.append(trunk);
    h.append(" is behind ");
    h.append(remote_trunk(trunk).as_str());
    h.append(". Run 'git checkout ");
    h.append(trunk);
    h.append(" && git pull' to update.");
    Some(h)
}

/// The rebase that a continued sync resumes: refused when no rebase is in progress.
pub fn resumed_rebase(in_progress: Option<(String, String)>) -> (r: Result<(String, String), StackError>)
    ensures
        match in_progress {
            Some(p) => r == Ok::<(String, String), StackError>(p),
            None => r == Err::<(String, String), StackError>(StackError::NoSyncRebase),
        },
{
    match in_progress {
        Some(p) => Ok(p),
        None => Err(StackError::NoSyncRebase),
    }
}

/// Refuse to go on while conflict markers remain in `unresolved`.
pub fn ensure_resolved(unresolved: Vec<String>) -> (r: Result<(), StackError>)
    ensures
        unresolved@.len() == 0 <==> r is Ok,
        r matches Err(e) ==> e == StackError::UnresolvedConflicts(unresolved),
{
    if unresolved.len() == 0 {
        Ok(())
    } else {
        Err(StackError::UnresolvedConflicts(unresolved))
    }
}

/// Record that the continued rebase of `name` onto `new_base` completed. Refused when
/// the branch is not tracked.
pub fn record_continued_rebase(state: &mut RepoState, name: &str, new_base: String) -> (r: Result<
    (),
    StackError,
>)
    ensures
        match find_branch(old(state).branches@, name@) {
            Some(i) => r is Ok && final(state).branches@ == old(state).branches@.update(
                i,
                ManagedBranch { recorded_parent_tip: new_base, ..old(state).branches@[i] },
            ) && final(state).version == old(state).version && final(state).repo == old(state).repo,
            None => *final(state) == *old(state) && (r matches Err(StackError::RebasedBranchNotTracked(m))
                && m@ == name@),
        },
{
    match state.record_rebase(name, new_base) {
        Ok(()) => Ok(()),
        Err(_) => Err(StackError::RebasedBranchNotTracked(name.to_string())),
    }
}

/// The push a sync makes for `branch`: to the configured remote, with a lease.
pub fn sync_push(repo: &GitRepo, state: &RepoState, branch: &str) -> (r: GitCommand)
    ensures
        names_of(r.args@) == seq![
            "push"@,
            "--force-with-lease"@,
            "--set-upstream"@,
            state.repo.remote@,
            branch@,
        ],
{
    repo.push(state.repo.remote.as_str(), branch, true)
}

} // verus!
