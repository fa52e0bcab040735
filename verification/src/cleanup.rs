//! Which branches a cleanup deletes, and which it only drops from the state.
use vstd::prelude::*;

use crate::graph::{active_child, active_children, proper_ancestor, under_exec, valid_graph};
use crate::state::{has_branch, BranchStatus, ManagedBranch, RepoState};
use crate::text::str_eq;

verus! {

/// Some other branch that exists locally (`ex`, by state position) lies below `name`.
pub open spec fn has_existing_descendant_spec(
    s: Seq<ManagedBranch>,
    t: Seq<char>,
    ex: Seq<bool>,
    name: Seq<char>,
) -> bool {
    exists|j: int|
        0 <= j < s.len() && s[j].name@ != name && ex[j] && proper_ancestor(s, t, name, #[trigger] s[j].name@)
}

/// Whether some other branch that exists locally lies below `branch_name`: walking up
/// the parents of that branch reaches `branch_name`.
pub fn has_existing_descendant(state: &RepoState, exists: &Vec<bool>, branch_name: &str) -> (r: bool)
    requires
        valid_graph(state.branches@, state.repo.trunk@),
        !has_branch(state.branches@, state.repo.trunk@),
        has_branch(state.branches@, branch_name@),
        exists@.len() == state.branches@.len(),
    ensures
        r == has_existing_descendant_spec(state.branches@, state.repo.trunk@, exists@, branch_name@),
{
    let ghost s = state.branches@;
    let ghost t = state.repo.trunk@;
    assert(branch_name@ != t);
    let mut j: usize = 0;
    while j < state.branches.len()
        invariant
            s == state.branches@,
            t == state.repo.trunk@,
            branch_name@ != t,
            exists@.len() == s.len(),
            j <= s.len(),
            forall|k: int|
                0 <= k < j ==> !(s[k].name@ != branch_name@ && exists@[k] && proper_ancestor(
                    s,
                    t,
                    branch_name@,
                    #[trigger] s[k].name@,
                )),
        decreases s.len() - j,
    {
        let b = &state.branches[j];
        if !str_eq(b.name.as_str(), branch_name) && exists[j] && under_exec(
            state,
            branch_name,
            b.name.as_str(),
        ) {
            return true;
        }
        j = j + 1;
    }
    false
}

/// The branch at `i` is deleted by a cleanup: it is not the current branch, exists
/// locally, is merged, and no active branch has it as parent.
pub open spec fn is_delete_candidate(s: Seq<ManagedBranch>, current: Seq<char>, ex: Seq<bool>, i: int) -> bool {
    &&& s[i].name@ != current
    &&& ex[i]
    &&& s[i].status == BranchStatus::Merged
    &&& s.filter(active_child(s[i].name@)).len() == 0
}

/// The branch at `i` is dropped from the state by a cleanup: it is not the current
/// branch, is missing locally, and no other branch that exists lies below it.
pub open spec fn is_prune_candidate(
    s: Seq<ManagedBranch>,
    t: Seq<char>,
    current: Seq<char>,
    ex: Seq<bool>,
    i: int,
) -> bool {
    &&& s[i].name@ != current
    &&& !ex[i]
    &&& !has_existing_descendant_spec(s, t, ex, s[i].name@)
}

/// The names of the delete candidates among the first `n` branches, in state order.
pub open spec fn delete_candidates(s: Seq<ManagedBranch>, current: Seq<char>, ex: Seq<bool>, n: int) -> Seq<
    Seq<char>,
>
    decreases n,
{
    if n <= 0 {
        seq![]
    } else {
        let prev = delete_candidates(s, current, ex, n - 1);
        if is_delete_candidate(s, current, ex, n - 1) {
            prev.push(s[n - 1].name@)
        } else {
            prev
        }
    }
}

/// The names of the prune candidates among the first `n` branches, in state order.
pub open spec fn prune_candidates(
    s: Seq<ManagedBranch>,
    t: Seq<char>,
    current: Seq<char>,
    ex: Seq<bool>,
    n: int,
) -> Seq<Seq<char>>
    decreases n,
{
    if n <= 0 {
        seq![]
    } else {
        let prev = prune_candidates(s, t, current, ex, n - 1);
        if is_prune_candidate(s, t, current, ex, n - 1) {
            prev.push(s[n - 1].name@)
        } else {
            prev
        }
    }
}

/// The branches that a cleanup deletes (first) and those it only drops from the state
/// (second), given the current branch and which tracked branches exist locally (by
/// state position).
pub fn cleanup_candidates(state: &RepoState, current: &str, exists: &Vec<bool>) -> (r: (
    Vec<String>,
    Vec<String>,
))
    requires
        valid_graph(state.branches@, state.repo.trunk@),
        !has_branch(state.branches@, state.repo.trunk@),
        exists@.len() == state.branches@.len(),
    ensures
        r.0@.len() == delete_candidates(state.branches@, current@, exists@, state.branches@.len() as int).len(),
        forall|k: int|
            0 <= k < r.0@.len() ==> (#[trigger] r.0@[k])@ == delete_candidates(
                state.branches@,
                current@,
                exists@,
                state.branches@.len() as int,
            )[k],
        r.1@.len() == prune_candidates(
            state.branches@,
            state.repo.trunk@,
            current@,
            exists@,
            state.branches@.len() as int,
        ).len(),
        forall|k: int|
            0 <= k < r.1@.len() ==> (#[trigger] r.1@[k])@ == prune_candidates(
                state.branches@,
                state.repo.trunk@,
                current@,
                exists@,
                state.branches@.len() as int,
            )[k],
{
    let ghost s = state.branches@;
    let ghost t = state.repo.trunk@;
    let mut delete: Vec<String> = Vec::new();
    let mut prune: Vec<String> = Vec::new();
    let mut i: usize = 0;
    while i < state.branches.len()
        invariant
            s == state.branches@,
            t == state.repo.trunk@,
            valid_graph(s, t),
            !has_branch(s, t),
            exists@.len() == s.len(),
            i <= s.len(),
            delete@.len() == delete_candidates(s, current@, exists@, i as int).len(),
            forall|k: int|
                0 <= k < delete@.len() ==> (#[trigger] delete@[k])@ == delete_candidates(
                    s,
                    current@,
                    exists@,
                    i as int,
                )[k],
            prune@.len() == prune_candidates(s, t, current@, exists@, i as int).len(),
            forall|k: int|
                0 <= k < prune@.len() ==> (#[trigger] prune@[k])@ == prune_candidates(
                    s,
                    t,
                    current@,
                    exists@,
                    i as int,
                )[k],
        decreases s.len() - i,
    {
        let b = &state.branches[i];
        if !str_eq(b.name.as_str(), current) {
            if !exists[i] {
                proof {
                    assert(has_branch(s, s[i as int].name@));
                }
                if !has_existing_descendant(state, exists, b.name.as_str()) {
                    prune.push(b.name.clone());
                }
            } else if b.status == BranchStatus::Merged {
                let children = active_children(state, b.name.as_str());
                if children.len() == 0 {
                    delete.push(b.name.clone());
                }
            }
        }
        i = i + 1;
    }
    (delete, prune)
}

/// Law: a cleanup deletes only merged branches that exist locally, that no active
/// branch has as parent, and that are not the current branch.
pub proof fn lemma_cleanup_deletes_only_merged_leaves(
    s: Seq<ManagedBranch>,
    current: Seq<char>,
    ex: Seq<bool>,
    n: int,
    k: int,
)
    requires
        0 <= n <= s.len(),
        0 <= k < delete_candidates(s, current, ex, n).len(),
    ensures
        exists|i: int|
            0 <= i < n && s[i].name@ == delete_candidates(s, current, ex, n)[k] && #[trigger] is_delete_candidate(
                s,
                current,
                ex,
                i,
            ),
        delete_candidates(s, current, ex, n)[k] != current,
    decreases n,
{
    let prev = delete_candidates(s, current, ex, n - 1);
    if k < prev.len() {
        lemma_cleanup_deletes_only_merged_leaves(s, current, ex, n - 1, k);
        let i = choose|i: int|
            0 <= i < n - 1 && s[i].name@ == prev[k] && #[trigger] is_delete_candidate(s, current, ex, i);
        assert(is_delete_candidate(s, current, ex, i));
    } else {
        assert(is_delete_candidate(s, current, ex, n - 1));
    }
}

/// Law: a cleanup never drops a missing branch from the state while some other branch
/// that exists locally lies below it, however many tracked branches lie between them.
pub proof fn lemma_prune_spares_ancestors_of_existing(
    s: Seq<ManagedBranch>,
    t: Seq<char>,
    current: Seq<char>,
    ex: Seq<bool>,
    n: int,
    k: int,
    j: int,
)
    requires
        0 <= n <= s.len(),
        ex.len() == s.len(),
        0 <= k < prune_candidates(s, t, current, ex, n).len(),
        0 <= j < s.len(),
        ex[j],
        s[j].name@ != prune_candidates(s, t, current, ex, n)[k],
    ensures
        !proper_ancestor(s, t, prune_candidates(s, t, current, ex, n)[k], s[j].name@),
    decreases n,
{
    let prev = prune_candidates(s, t, current, ex, n - 1);
    if k < prev.len() {
        lemma_prune_spares_ancestors_of_existing(s, t, current, ex, n - 1, k, j);
    } else {
        assert(is_prune_candidate(s, t, current, ex, n - 1));
        let name = s[n - 1].name@;
        if proper_ancestor(s, t, name, s[j].name@) {
            assert(has_existing_descendant_spec(s, t, ex, name));
        }
    }
}

/// Law: a branch that exists locally is never dropped from the state by a cleanup.
pub proof fn lemma_prune_only_missing(
    s: Seq<ManagedBranch>,
    t: Seq<char>,
    current: Seq<char>,
    ex: Seq<bool>,
    n: int,
    k: int,
)
    requires
        0 <= n <= s.len(),
        0 <= k < prune_candidates(s, t, current, ex, n).len(),
    ensures
        exists|i: int|
            0 <= i < n && s[i].name@ == prune_candidates(s, t, current, ex, n)[k] && !ex[i]
                && s[i].name@ != current,
    decreases n,
{
    let prev = prune_candidates(s, t, current, ex, n - 1);
    if k < prev.len() {
        lemma_prune_only_missing(s, t, current, ex, n - 1, k);
        let i = choose|i: int|
            0 <= i < n - 1 && s[i].name@ == prev[k] && !ex[i] && s[i].name@ != current;
        assert(0 <= i < n && s[i].name@ == prune_candidates(s, t, current, ex, n)[k]);
    } else {
        assert(is_prune_candidate(s, t, current, ex, n - 1));
        assert(s[n - 1].name@ == prune_candidates(s, t, current, ex, n)[k]);
    }
}

/// Law: a branch that a cleanup deletes exists locally, is merged, is not the current
/// branch, and no active tracked branch has it as parent.
pub proof fn lemma_deleted_branch_has_no_active_child(
    s: Seq<ManagedBranch>,
    current: Seq<char>,
    ex: Seq<bool>,
    n: int,
    k: int,
    j: int,
)
    requires
        0 <= n <= s.len(),
        0 <= k < delete_candidates(s, current, ex, n).len(),
        0 <= j < s.len(),
    ensures
        !(s[j].parent@ == delete_candidates(s, current, ex, n)[k] && s[j].status == BranchStatus::Active),
{
    lemma_cleanup_deletes_only_merged_leaves(s, current, ex, n, k);
    let i = choose|i: int|
        0 <= i < n && s[i].name@ == delete_candidates(s, current, ex, n)[k] && #[trigger] is_delete_candidate(
            s,
            current,
            ex,
            i,
        );
    let p = active_child(s[i].name@);
    if s[j].parent@ == s[i].name@ && s[j].status == BranchStatus::Active {
        s.lemma_filter_contains(p, j);
        assert(s.filter(p).len() > 0);
    }
}

} // verus!
