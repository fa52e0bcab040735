//! The decisions of the stack's commands: what each one checks before it acts, and how
//! it changes the stack state.
use vstd::prelude::*;

use crate::cli::{InitArgs, ReparentArgs};
use crate::error::StackError;
use crate::git::{GitCommand, GitRepo};
use crate::order::names_of;
use crate::output::{short_sha, short_sha_spec};
use crate::state::{find_branch, has_branch, lookup, BranchStatus, ManagedBranch, PendingReparent, RepoState};
use crate::text::{parse_usize, parse_usize_spec, str_eq, to_decimal, decimal, trim, trim_spec};

verus! {

/// Trunk of a state created without `init`.
pub const DEFAULT_TRUNK: &'static str = "develop";

/// Remote of a state created without `init`.
pub const DEFAULT_REMOTE: &'static str = "origin";

/// The state a repository starts with when `create` or `track` runs before `init`.
pub fn default_state() -> (r: RepoState)
    ensures
        r.version == 1,
        r.repo.trunk@ == DEFAULT_TRUNK@,
        r.repo.remote@ == DEFAULT_REMOTE@,
        r.branches@.len() == 0,
{
    RepoState::new(DEFAULT_TRUNK.to_string(), DEFAULT_REMOTE.to_string())
}

/// The loaded state, or, when none exists yet, the default one; the flag tells whether
/// it is the fresh default state (which the caller saves).
pub fn load_or_init_default_state(loaded: Option<RepoState>) -> (r: (RepoState, bool))
    ensures
        match loaded {
            Some(s) => r.0 == s && !r.1,
            None => r.1 && r.0.version == 1 && r.0.repo.trunk@ == DEFAULT_TRUNK@ && r.0.repo.remote@
                == DEFAULT_REMOTE@ && r.0.branches@.len() == 0,
        },
{
    match loaded {
        Some(s) => (s, false),
        None => (default_state(), true),
    }
}

/// `init`: a fresh state with the given trunk and remote; refused when a state file
/// already exists (at `path`).
pub fn init(state_exists: bool, path: &str, args: InitArgs) -> (r: Result<RepoState, StackError>)
    ensures
        state_exists ==> (r matches Err(StackError::StateExists(p)) && p@ == path@),
        !state_exists ==> (r matches Ok(s) && s.version == 1 && s.repo.trunk == args.trunk && s.repo.remote
            == args.remote && s.branches@.len() == 0),
{
    if state_exists {
        return Err(StackError::StateExists(path.to_string()));
    }
    Ok(RepoState::new(args.trunk, args.remote))
}

/// What tracking `branch` with `parent` is refused for, checked in this order: no
/// branch (HEAD detached), trunk itself, already tracked, missing locally, and a parent
/// other than trunk that is missing locally.
pub open spec fn track_refusal(
    s: Seq<ManagedBranch>,
    t: Seq<char>,
    branch: Seq<char>,
    parent: Seq<char>,
    branch_exists: bool,
    parent_exists: bool,
    r: Result<(), StackError>,
) -> bool {
    if branch.len() == 0 {
        r == Err::<(), StackError>(StackError::DetachedHead)
    } else if branch == t {
        r == Err::<(), StackError>(StackError::TrunkNotTrackable)
    } else if has_branch(s, branch) {
        r matches Err(StackError::BranchAlreadyTracked(m)) && m@ == branch
    } else if !branch_exists {
        r matches Err(StackError::BranchMissing(m)) && m@ == branch
    } else if !parent_exists && parent != t {
        r matches Err(StackError::ParentNotLocal(m)) && m@ == parent
    } else {
        r is Ok
    }
}

/// Check that `branch` can be tracked with `parent`, given whether each exists locally.
pub fn check_track(state: &RepoState, branch: &str, parent: &str, branch_exists: bool, parent_exists: bool) -> (r:
    Result<(), StackError>)
    ensures
        track_refusal(state.branches@, state.repo.trunk@, branch@, parent@, branch_exists, parent_exists, r),
{
    if branch.unicode_len() == 0 {
        return Err(StackError::DetachedHead);
    }
    if str_eq(branch, state.repo.trunk.as_str()) {
        return Err(StackError::TrunkNotTrackable);
    }
    if state.is_tracked(branch) {
        return Err(StackError::BranchAlreadyTracked(branch.to_string()));
    }
    if !branch_exists {
        return Err(StackError::BranchMissing(branch.to_string()));
    }
    if !parent_exists && !str_eq(parent, state.repo.trunk.as_str()) {
        return Err(StackError::ParentNotLocal(parent.to_string()));
    }
    Ok(())
}

/// Track `branch` with `parent`, recording `parent_tip` as the parent tip it sits on;
/// refused as `check_track` refuses.
pub fn track_branch_with_parent(
    state: &mut RepoState,
    branch: String,
    parent: String,
    branch_exists: bool,
    parent_exists: bool,
    parent_tip: String,
) -> (r: Result<(), StackError>)
    ensures
        track_refusal(
            old(state).branches@,
            old(state).repo.trunk@,
            branch@,
            parent@,
            branch_exists,
            parent_exists,
            r,
        ),
        r is Err ==> *final(state) == *old(state),
        r is Ok ==> {
            &&& final(state).version == old(state).version
            &&& final(state).repo == old(state).repo
            &&& final(state).branches@.len() == old(state).branches@.len() + 1
            &&& final(state).branches@.drop_last() == old(state).branches@
            &&& final(state).branches@.last().name == branch
            &&& final(state).branches@.last().parent == parent
            &&& final(state).branches@.last().recorded_parent_tip == parent_tip
            &&& final(state).branches@.last().status == BranchStatus::Active
            &&& final(state).branches@.last().pr is None
        },
{
    check_track(state, branch.as_str(), parent.as_str(), branch_exists, parent_exists)?;
    let b = ManagedBranch::new(branch, parent, parent_tip);
    let r = state.add_branch(b);
    proof {
        assert(final(state).branches@.drop_last() =~= old(state).branches@);
    }
    r
}

/// Law: tracking keeps the names distinct and trunk untracked.
pub proof fn lemma_track_keeps_names_sound(
    s: Seq<ManagedBranch>,
    t: Seq<char>,
    b: ManagedBranch,
    branch_exists: bool,
    parent_exists: bool,
)
    requires
        crate::graph::names_distinct(s),
        !has_branch(s, t),
        track_refusal(s, t, b.name@, b.parent@, branch_exists, parent_exists, Ok::<(), StackError>(())),
    ensures
        crate::graph::names_distinct(s.push(b)),
        !has_branch(s.push(b), t),
{
    let s2 = s.push(b);
    assert forall|i: int, j: int| 0 <= i < j < s2.len() implies s2[i].name@ != s2[j].name@ by {
        if j == s.len() {
            assert(s2[i] == s[i]);
        } else {
            assert(s2[i] == s[i] && s2[j] == s[j]);
        }
    }
    assert forall|j: int| 0 <= j < s2.len() implies s2[j].name@ != t by {
        if j < s.len() {
            assert(s2[j] == s[j]);
        }
    }
}

/// The parent that `track` uses: the one given, else trunk.
pub fn track_parent(state: &RepoState, parent: Option<String>) -> (r: String)
    ensures
        match parent {
            Some(p) => r == p,
            None => r == state.repo.trunk,
        },
{
    match parent {
        Some(p) => p,
        None => state.repo.trunk.clone(),
    }
}

/// Check that `branch` can be created: not tracked and not existing locally.
pub fn check_create(state: &RepoState, branch: &str, branch_exists: bool) -> (r: Result<(), StackError>)
    ensures
        has_branch(state.branches@, branch@) ==> (r matches Err(StackError::BranchAlreadyTracked(m)) && m@
            == branch@),
        !has_branch(state.branches@, branch@) && branch_exists ==> (r matches Err(
            StackError::BranchExists(m),
        ) && m@ == branch@),
        !has_branch(state.branches@, branch@) && !branch_exists ==> r is Ok,
{
    if state.is_tracked(branch) {
        return Err(StackError::BranchAlreadyTracked(branch.to_string()));
    }
    if branch_exists {
        return Err(StackError::BranchExists(branch.to_string()));
    }
    Ok(())
}

/// Check the parent of a new branch, which must exist locally, and tell whether it is
/// first to be tracked with trunk as parent: when it was not named explicitly, is not
/// trunk and is not tracked.
pub fn create_parent_plan(state: &RepoState, parent: &str, explicit_parent: bool, parent_exists: bool) -> (r:
    Result<bool, StackError>)
    ensures
        !parent_exists ==> (r matches Err(StackError::ParentMissing(m)) && m@ == parent@),
        parent_exists ==> r == Ok::<bool, StackError>(
            !explicit_parent && parent@ != state.repo.trunk@ && !has_branch(state.branches@, parent@),
        ),
{
    if !parent_exists {
        return Err(StackError::ParentMissing(parent.to_string()));
    }
    Ok(!explicit_parent && !str_eq(parent, state.repo.trunk.as_str()) && !state.is_tracked(parent))
}

/// The git commands that create `branch` at `parent` and check it out right away.
pub fn create_branch_commands(repo: &GitRepo, branch: &str, parent: &str) -> (r: Vec<GitCommand>)
    ensures
        r@.len() == 2,
        names_of(r@[0].args@) == seq!["branch"@, branch@, parent@],
        names_of(r@[1].args@) == seq!["checkout"@, branch@],
{
    vec![repo.create_branch(branch, parent), repo.checkout(branch)]
}

/// Mark `branch` as merged; refused when it is not tracked.
pub fn mark_merged(state: &mut RepoState, branch: &str) -> (r: Result<(), StackError>)
    ensures
        match find_branch(old(state).branches@, branch@) {
            Some(i) => r is Ok && final(state).branches@ == old(state).branches@.update(
                i,
                ManagedBranch { status: BranchStatus::Merged, ..old(state).branches@[i] },
            ) && final(state).version == old(state).version && final(state).repo == old(state).repo,
            None => *final(state) == *old(state) && (r matches Err(StackError::BranchNotTracked(m)) && m@
                == branch@),
        },
{
    match state.branch_mut(branch) {
        Some(b) => {
            b.status = BranchStatus::Merged;
            Ok(())
        },
        None => Err(StackError::BranchNotTracked(branch.to_string())),
    }
}

/// Active branches.
pub open spec fn is_active_branch() -> spec_fn(ManagedBranch) -> bool {
    |b: ManagedBranch| b.status == BranchStatus::Active
}

/// The branches offered for marking as merged: the active ones, in state order;
/// refused when there are none.
pub fn merge_candidates(state: &RepoState) -> (r: Result<Vec<String>, StackError>)
    ensures
        state.branches@.filter(is_active_branch()).len() == 0 <==> r is Err,
        r is Err ==> r == Err::<Vec<String>, StackError>(StackError::NoActiveBranches),
        r matches Ok(v) ==> v@.len() == state.branches@.filter(is_active_branch()).len() && forall|k: int|
            0 <= k < v@.len() ==> #[trigger] v@[k] == state.branches@.filter(is_active_branch())[k].name,
{
    let ghost s = state.branches@;
    let ghost p = is_active_branch();
    let mut out: Vec<String> = Vec::new();
    let mut i: usize = 0;
    while i < state.branches.len()
        invariant
            s == state.branches@,
            p == is_active_branch(),
            i <= s.len(),
            out@.len() == s.take(i as int).filter(p).len(),
            forall|k: int| 0 <= k < out@.len() ==> #[trigger] out@[k] == s.take(i as int).filter(p)[k].name,
        decreases s.len() - i,
    {
        proof {
            assert(s.take(i + 1) =~= s.take(i as int).push(s[i as int]));
            s.take(i as int).lemma_filter_push(s[i as int], p);
        }
        if state.branches[i].status == BranchStatus::Active {
            out.push(state.branches[i].name.clone());
        }
        i = i + 1;
    }
    assert(s.take(i as int) =~= s);
    if out.len() == 0 {
        return Err(StackError::NoActiveBranches);
    }
    Ok(out)
}

/// The menu line for candidate `name` at position `index` (counting from zero).
pub open spec fn menu_line_spec(index: nat, name: Seq<char>) -> Seq<char> {
    "  "@ + decimal(index + 1) + ". "@ + name
}

/// The menu of candidates, one line each, numbered from 1.
pub fn selection_menu(candidates: &Vec<String>) -> (r: Vec<String>)
    requires
        candidates@.len() < u64::MAX,
    ensures
        r@.len() == candidates@.len(),
        forall|k: int| 0 <= k < r@.len() ==> (#[trigger] r@[k])@ == menu_line_spec(k as nat, candidates@[k]@),
{
    let mut out: Vec<String> = Vec::new();
    let mut i: usize = 0;
    while i < candidates.len()
        invariant
            candidates@.len() < u64::MAX,
            i <= candidates@.len(),
            out@.len() == i,
            forall|k: int| 0 <= k < i ==> (#[trigger] out@[k])@ == menu_line_spec(k as nat, candidates@[k]@),
        decreases candidates@.len() - i,
    {
        let mut line = String::from_str("  ");
        line.append(to_decimal(i as u64 + 1).as_str());
        line.append(". ");
        line.append(candidates[i].as_str());
        out.push(line);
        i = i + 1;
    }
    out
}

/// The candidate that the menu answer `input` selects: the answer is trimmed and read
/// as a number; 1 selects the first candidate, and so does 0. Refused when the answer
/// is not a number or selects no candidate.
pub fn select_candidate(candidates: &Vec<String>, input: &str) -> (r: Result<String, StackError>)
    ensures
        match parse_usize_spec(trim_spec(input@)) {
            None => r == Err::<String, StackError>(StackError::SelectionNotNumber),
            Some(n) => {
                let k: int = if n == 0 { 0 } else { n - 1 };
                if k < candidates@.len() {
                    r == Ok::<String, StackError>(candidates@[k])
                } else {
                    r == Err::<String, StackError>(StackError::InvalidSelection(n))
                }
            },
        },
{
    let t = trim(input);
    let n = match parse_usize(t.as_str()) {
        Some(n) => n,
        None => return Err(StackError::SelectionNotNumber),
    };
    let k = if n == 0 {
        0
    } else {
        n - 1
    };
    if k < candidates.len() {
        Ok(candidates[k].clone())
    } else {
        Err(StackError::InvalidSelection(n))
    }
}

/// Refuse `--continue` together with any other reparent option.
pub fn check_continue_args(args: &ReparentArgs) -> (r: Result<(), StackError>)
    ensures
        (args.branch is Some || args.parent is Some || args.no_rebase || args.dry_run || args.abort) ==> r
            == Err::<(), StackError>(StackError::ContinueConflict),
        !(args.branch is Some || args.parent is Some || args.no_rebase || args.dry_run || args.abort)
            ==> r is Ok,
{
    if args.branch.is_some() || args.parent.is_some() || args.no_rebase || args.dry_run || args.abort {
        return Err(StackError::ContinueConflict);
    }
    Ok(())
}

/// Refuse `--abort` together with any other reparent option.
pub fn check_abort_args(args: &ReparentArgs) -> (r: Result<(), StackError>)
    ensures
        (args.branch is Some || args.parent is Some || args.no_rebase || args.dry_run
            || args.continue_reparent) ==> r == Err::<(), StackError>(StackError::AbortConflict),
        !(args.branch is Some || args.parent is Some || args.no_rebase || args.dry_run
            || args.continue_reparent) ==> r is Ok,
{
    if args.branch.is_some() || args.parent.is_some() || args.no_rebase || args.dry_run
        || args.continue_reparent {
        return Err(StackError::AbortConflict);
    }
    Ok(())
}

/// The pending reparent to continue or abort; refused when there is none.
pub fn require_pending(pending: Option<PendingReparent>) -> (r: Result<PendingReparent, StackError>)
    ensures
        match pending {
            Some(p) => r == Ok::<PendingReparent, StackError>(p),
            None => r == Err::<PendingReparent, StackError>(StackError::NoPendingReparent),
        },
{
    match pending {
        Some(p) => Ok(p),
        None => Err(StackError::NoPendingReparent),
    }
}

/// Refuse to start a reparent while another one is pending.
pub fn check_no_pending(pending_exists: bool) -> (r: Result<(), StackError>)
    ensures
        pending_exists <==> r is Err,
        r is Err ==> r == Err::<(), StackError>(StackError::ReparentPending),
{
    if pending_exists {
        Err(StackError::ReparentPending)
    } else {
        Ok(())
    }
}

/// What starting a reparent is refused for, checked in this order: no branch, no new
/// parent, the branch as its own parent, trunk as the branch, an untracked branch, and a
/// new parent that is neither trunk nor tracked. Otherwise the branch and new parent.
pub open spec fn reparent_check(s: Seq<ManagedBranch>, t: Seq<char>, args: ReparentArgs, r: Result<
    (String, String),
    StackError,
>) -> bool {
    match args.branch {
        None => r == Err::<(String, String), StackError>(StackError::MissingReparentBranch),
        Some(b) => match args.parent {
            None => r == Err::<(String, String), StackError>(StackError::MissingReparentParent),
            Some(p) => if b@ == p@ {
                r matches Err(StackError::SelfParent(m)) && m@ == b@
            } else if b@ == t {
                r == Err::<(String, String), StackError>(StackError::TrunkReparent)
            } else if !has_branch(s, b@) {
                r matches Err(StackError::BranchNotTracked(m)) && m@ == b@
            } else if p@ != t && !has_branch(s, p@) {
                r matches Err(StackError::ParentNotTracked(m)) && m@ == p@
            } else {
                r == Ok::<(String, String), StackError>((b, p))
            },
        },
    }
}

/// Check the arguments of a new reparent against the state (see `reparent_check`).
pub fn check_reparent(state: &RepoState, args: ReparentArgs) -> (r: Result<(String, String), StackError>)
    ensures
        reparent_check(state.branches@, state.repo.trunk@, args, r),
{
    let branch = match args.branch {
        Some(b) => b,
        None => return Err(StackError::MissingReparentBranch),
    };
    let parent = match args.parent {
        Some(p) => p,
        None => return Err(StackError::MissingReparentParent),
    };
    if str_eq(branch.as_str(), parent.as_str()) {
        return Err(StackError::SelfParent(branch));
    }
    if str_eq(branch.as_str(), state.repo.trunk.as_str()) {
        return Err(StackError::TrunkReparent);
    }
    if !state.is_tracked(branch.as_str()) {
        return Err(StackError::BranchNotTracked(branch));
    }
    if !str_eq(parent.as_str(), state.repo.trunk.as_str()) && !state.is_tracked(parent.as_str()) {
        return Err(StackError::ParentNotTracked(parent));
    }
    Ok((branch, parent))
}

/// Refuse a new parent that does not exist locally.
pub fn ensure_parent_local(parent: &str, exists: bool) -> (r: Result<(), StackError>)
    ensures
        exists ==> r is Ok,
        !exists ==> (r matches Err(StackError::ParentNotLocal(m)) && m@ == parent@),
{
    if exists {
        Ok(())
    } else {
        Err(StackError::ParentNotLocal(parent.to_string()))
    }
}

/// The pending reparent of tracked `branch` to `parent`, whose tip is `new_parent_tip`:
/// it moves the branch from its configured parent and recorded tip.
pub fn reparent_pending(state: &RepoState, branch: &str, parent: &str, new_parent_tip: &str) -> (r:
    PendingReparent)
    requires
        has_branch(state.branches@, branch@),
    ensures
        r.operation@ == "reparent"@,
        r.branch@ == branch@,
        r.new_parent@ == parent@,
        r.new_parent_tip@ == new_parent_tip@,
        r.old_parent == lookup(state.branches@, branch@)->0.parent,
        r.old_parent_tip == lookup(state.branches@, branch@)->0.recorded_parent_tip,
{
    proof {
        crate::state::lemma_has_branch_found(state.branches@, branch@);
    }
    let (old_parent, old_tip) = match state.branch(branch) {
        Some(b) => (b.parent.clone(), b.recorded_parent_tip.clone()),
        None => (String::new(), String::new()),
    };
    PendingReparent::new(
        branch.to_string(),
        old_parent,
        parent.to_string(),
        old_tip,
        new_parent_tip.to_string(),
    )
}

/// The line that announces a reparent.
pub open spec fn reparent_line_spec(p: PendingReparent) -> Seq<char> {
    "reparent "@ + p.branch@ + ": parent="@ + p.new_parent@ + " old_base="@ + short_sha_spec(
        p.old_parent_tip@,
    ) + " new_base="@ + short_sha_spec(p.new_parent_tip@)
}

/// The line that announces a reparent.
pub fn reparent_line(pending: &PendingReparent) -> (r: String)
    ensures
        r@ == reparent_line_spec(*pending),
{
    let mut r = String::from_str("reparent ");
    r.append(pending.branch.as_str());
    r.append(": parent=");
    r.append(pending.new_parent.as_str());
    r.append(" old_base=");
    r.append(short_sha(pending.old_parent_tip.as_str()).as_str());
    r.append(" new_base=");
    r.append(short_sha(pending.new_parent_tip.as_str()).as_str());
    r
}

/// Whether a reparent rebases: unless asked not to, when the parent tip moves.
pub fn reparent_needs_rebase(args: &ReparentArgs, pending: &PendingReparent) -> (r: bool)
    ensures
        r == (!args.no_rebase && pending.old_parent_tip@ != pending.new_parent_tip@),
{
    !args.no_rebase && !str_eq(pending.old_parent_tip.as_str(), pending.new_parent_tip.as_str())
}

/// Finish a reparent: the branch gets its new parent and sits on the new parent tip.
/// Refused when the branch is no longer tracked.
pub fn finalize_reparent(state: &mut RepoState, pending: &PendingReparent) -> (r: Result<(), StackError>)
    ensures
        match find_branch(old(state).branches@, pending.branch@) {
            Some(i) => r is Ok && final(state).branches@ == old(state).branches@.update(
                i,
                ManagedBranch {
                    parent: pending.new_parent,
                    recorded_parent_tip: pending.new_parent_tip,
                    ..old(state).branches@[i]
                },
            ) && final(state).version == old(state).version && final(state).repo == old(state).repo,
            None => *final(state) == *old(state) && (r matches Err(StackError::BranchDisappeared(m)) && m@
                == pending.branch@),
        },
{
    match state.branch_mut(pending.branch.as_str()) {
        Some(b) => {
            b.parent = pending.new_parent.clone();
            b.recorded_parent_tip = pending.new_parent_tip.clone();
            Ok(())
        },
        None => Err(StackError::BranchDisappeared(pending.branch.clone())),
    }
}

/// What `doctor` reports once the state has been validated.
pub fn doctor_message(is_clean: bool) -> (r: String)
    ensures
        is_clean ==> r@ == "Doctor OK: repository and stack state look healthy"@,
        !is_clean ==> r@ == "Doctor warning: repository has uncommitted changes"@,
{
    if is_clean {
        String::from_str("Doctor OK: repository and stack state look healthy")
    } else {
        String::from_str("Doctor warning: repository has uncommitted changes")
    }
}

} // verus!
