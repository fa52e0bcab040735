//! The persisted stack state: tracked branches, their parents and pull requests.
use vstd::prelude::*;

use crate::error::StackError;
use crate::graph::{valid_graph, graph_error, validate_graph};
use crate::order::names_of;
use crate::text::str_eq;

verus! {

/// Lifecycle of a tracked branch.
#[derive(Debug, Clone, Copy, PartialEq, Eq, Structural)]
pub enum BranchStatus {
    Active,
    Merged,
    Archived,
}

/// A pull request recorded for a tracked branch.
#[derive(Debug, Clone)]
pub struct PullRequestRef {
    pub provider: String,
    pub id: String,
    pub url: Option<String>,
    pub target_branch: Option<String>,
}

/// A branch managed by the stack, with its configured parent and the parent tip
/// it was last rebased onto.
#[derive(Debug, Clone)]
pub struct ManagedBranch {
    pub name: String,
    pub parent: String,
    pub recorded_parent_tip: String,
    pub status: BranchStatus,
    pub pr: Option<PullRequestRef>,
}

/// Repository-wide settings: the trunk branch and the remote.
#[derive(Debug, Clone)]
pub struct RepoConfig {
    pub trunk: String,
    pub remote: String,
}

/// The whole stack state of one repository.
#[derive(Debug, Clone)]
pub struct RepoState {
    pub version: u32,
    pub repo: RepoConfig,
    pub branches: Vec<ManagedBranch>,
}

/// `i` is the first position in `s` whose branch is called `name`.
pub open spec fn is_first_match(s: Seq<ManagedBranch>, name: Seq<char>, i: int) -> bool {
    &&& 0 <= i < s.len()
    &&& s[i].name@ == name
    &&& forall|j: int| 0 <= j < i ==> s[j].name@ != name
}

/// Some branch in `s` is called `name`.
pub open spec fn has_branch(s: Seq<ManagedBranch>, name: Seq<char>) -> bool {
    exists|i: int| 0 <= i < s.len() && s[i].name@ == name
}

/// Position of the first branch in `s` called `name`.
pub open spec fn find_branch(s: Seq<ManagedBranch>, name: Seq<char>) -> Option<int> {
    if has_branch(s, name) {
        Some(choose|i: int| is_first_match(s, name, i))
    } else {
        None
    }
}

/// The first branch in `s` called `name`, as `RepoState::branch` finds it.
pub open spec fn lookup(s: Seq<ManagedBranch>, name: Seq<char>) -> Option<ManagedBranch> {
    match find_branch(s, name) {
        Some(i) => Some(s[i]),
        None => None,
    }
}

/// Keeps the branches not called `name`.
pub open spec fn not_named(name: Seq<char>) -> spec_fn(ManagedBranch) -> bool {
    |b: ManagedBranch| b.name@ != name
}

/// The first match is unique, and exists exactly when some branch has the name.
pub proof fn lemma_find_branch(s: Seq<ManagedBranch>, name: Seq<char>, i: int)
    requires
        is_first_match(s, name, i),
    ensures
        find_branch(s, name) == Some(i),
{
    assert(has_branch(s, name));
    let k = choose|k: int| is_first_match(s, name, k);
    assert(is_first_match(s, name, k)) by {
        assert(exists|k: int| is_first_match(s, name, k));
    }
    if k < i {
        assert(s[k].name@ != name);
    } else if i < k {
        assert(s[i].name@ != name);
    }
}

proof fn lemma_first_match_below(s: Seq<ManagedBranch>, name: Seq<char>, k: int)
    requires
        0 <= k < s.len(),
        s[k].name@ == name,
    ensures
        exists|i: int| is_first_match(s, name, i),
    decreases k,
{
    if forall|j: int| 0 <= j < k ==> s[j].name@ != name {
        assert(is_first_match(s, name, k));
    } else {
        let j = choose|j: int| 0 <= j < k && s[j].name@ == name;
        lemma_first_match_below(s, name, j);
    }
}

/// A tracked name is found, at its first position.
pub proof fn lemma_has_branch_found(s: Seq<ManagedBranch>, name: Seq<char>)
    requires
        has_branch(s, name),
    ensures
        find_branch(s, name) is Some,
        is_first_match(s, name, find_branch(s, name)->0),
        lookup(s, name) == Some(s[find_branch(s, name)->0]),
        lookup(s, name)->0.name@ == name,
{
    let k = choose|k: int| 0 <= k < s.len() && s[k].name@ == name;
    lemma_first_match_below(s, name, k);
}

/// No branch has the name: the lookup finds nothing.
pub proof fn lemma_find_branch_none(s: Seq<ManagedBranch>, name: Seq<char>)
    requires
        forall|j: int| 0 <= j < s.len() ==> s[j].name@ != name,
    ensures
        find_branch(s, name) is None,
{
}

/// Law: once a branch is added under a new name, looking that name up gives the
/// branch, and every other name is found as before.
pub proof fn lemma_lookup_after_add(s: Seq<ManagedBranch>, b: ManagedBranch, other: Seq<char>)
    requires
        !has_branch(s, b.name@),
    ensures
        lookup(s.push(b), b.name@) == Some(b),
        other != b.name@ ==> lookup(s.push(b), other) == lookup(s, other),
{
    let s2 = s.push(b);
    assert(is_first_match(s2, b.name@, s.len() as int)) by {
        assert forall|j: int| 0 <= j < s.len() implies s2[j].name@ != b.name@ by {
            assert(s2[j] == s[j]);
        }
    }
    lemma_find_branch(s2, b.name@, s.len() as int);
    if other != b.name@ {
        if has_branch(s, other) {
            lemma_has_branch_found(s, other);
            let i = find_branch(s, other)->0;
            assert(is_first_match(s2, other, i)) by {
                assert forall|j: int| 0 <= j < i implies s2[j].name@ != other by {
                    assert(s2[j] == s[j]);
                }
            }
            lemma_find_branch(s2, other, i);
        } else {
            assert forall|j: int| 0 <= j < s2.len() implies s2[j].name@ != other by {
                if j < s.len() {
                    assert(s2[j] == s[j]);
                }
            }
            lemma_find_branch_none(s2, other);
        }
    }
}

/// Changing the branch at the first position named `name` without renaming it keeps
/// every lookup pointing at the same position.
pub proof fn lemma_find_after_update(s: Seq<ManagedBranch>, i: int, b: ManagedBranch, name: Seq<char>)
    requires
        0 <= i < s.len(),
        b.name == s[i].name,
    ensures
        find_branch(s.update(i, b), name) == find_branch(s, name),
{
    let s2 = s.update(i, b);
    assert forall|j: int| 0 <= j < s.len() implies s2[j].name@ == s[j].name@ by {
        if j == i {
        } else {
            assert(s2[j] == s[j]);
        }
    }
    if has_branch(s, name) {
        lemma_has_branch_found(s, name);
        let k = find_branch(s, name)->0;
        assert(is_first_match(s2, name, k));
        lemma_find_branch(s2, name, k);
    } else {
        lemma_find_branch_none(s2, name);
    }
}

/// What the repository says about the names and commits that the state refers to,
/// each entry at the position of its branch in `RepoState::branches`.
pub struct RepoFacts {
    /// The trunk branch exists locally.
    pub trunk_exists: bool,
    /// The recorded parent tip of each branch is a commit.
    pub tip_exists: Vec<bool>,
    /// Each branch exists locally.
    pub branch_exists: Vec<bool>,
    /// The parent of each branch exists locally.
    pub parent_exists: Vec<bool>,
}

impl RepoFacts {
    /// Facts that cover every branch of `state`.
    pub open spec fn covers(&self, state: &RepoState) -> bool {
        &&& self.tip_exists@.len() == state.branches@.len()
        &&& self.branch_exists@.len() == state.branches@.len()
        &&& self.parent_exists@.len() == state.branches@.len()
    }
}

impl RepoState {
    /// The state's own structure is sound: version 1, trunk not tracked, valid graph.
    pub open spec fn structure_ok(&self) -> bool {
        &&& self.version == 1
        &&& !has_branch(self.branches@, self.repo.trunk@)
        &&& valid_graph(self.branches@, self.repo.trunk@)
    }

    /// The state is sound and every fact it relies on holds: trunk exists and every
    /// recorded parent tip is a commit.
    pub open spec fn metadata_ok(&self, facts: &RepoFacts) -> bool {
        &&& self.structure_ok()
        &&& facts.trunk_exists
        &&& forall|i: int| 0 <= i < self.branches@.len() ==> #[trigger] facts.tip_exists@[i]
    }

    /// Branch `i` and its parent exist as the full check demands: a branch that is not
    /// archived must exist, and a parent other than trunk must exist.
    pub open spec fn branch_present(&self, facts: &RepoFacts, i: int) -> bool {
        &&& (self.branches@[i].status != BranchStatus::Archived ==> facts.branch_exists@[i])
        &&& (self.branches@[i].parent@ != self.repo.trunk@ ==> facts.parent_exists@[i])
    }

    /// What `check_structure` returns: the version, then trunk not tracked, then the
    /// graph, each with its error.
    pub open spec fn structure_result(&self, r: Result<(), StackError>) -> bool {
        if self.version != 1 {
            r == Err::<(), StackError>(StackError::UnsupportedVersion(self.version))
        } else if has_branch(self.branches@, self.repo.trunk@) {
            exists|m: String|
                r == Err::<(), StackError>(StackError::InvalidGraph(m)) && m@
                    == "trunk branch cannot be tracked"@
        } else if !valid_graph(self.branches@, self.repo.trunk@) {
            exists|m: String|
                r == Err::<(), StackError>(StackError::InvalidGraph(m)) && graph_error(
                    self.branches@,
                    self.repo.trunk@,
                ) == Some(m@)
        } else {
            r is Ok
        }
    }

    /// What `validate_metadata` returns: `structure_result`, then a missing trunk, then
    /// the first recorded parent tip that is not a commit.
    pub open spec fn metadata_result(&self, facts: &RepoFacts, r: Result<(), StackError>) -> bool {
        if !self.structure_ok() {
            self.structure_result(r)
        } else if !facts.trunk_exists {
            r == Err::<(), StackError>(StackError::BranchMissing(self.repo.trunk))
        } else {
            &&& (r is Ok <==> forall|i: int| 0 <= i < self.branches@.len() ==> #[trigger] facts.tip_exists@[i])
            &&& forall|i: int|
                0 <= i < self.branches@.len() && !facts.tip_exists@[i] && (forall|j: int|
                    0 <= j < i ==> #[trigger] facts.tip_exists@[j]) ==> r == Err::<(), StackError>(
                    StackError::CommitMissing(self.branches@[i].recorded_parent_tip),
                )
        }
    }

    /// What `validate` returns: `metadata_result`, then the first branch that is missing
    /// (not archived and absent) or whose parent other than trunk is missing.
    pub open spec fn validate_result(&self, facts: &RepoFacts, r: Result<(), StackError>) -> bool {
        if !self.metadata_ok(facts) {
            self.metadata_result(facts, r)
        } else {
            &&& (r is Ok <==> forall|i: int|
                0 <= i < self.branches@.len() ==> #[trigger] self.branch_present(facts, i))
            &&& forall|i: int|
                0 <= i < self.branches@.len() && !#[trigger] self.branch_present(facts, i) && (
                forall|j: int| 0 <= j < i ==> self.branch_present(facts, j)) ==> r == Err::<
                    (),
                    StackError,
                >(StackError::BranchMissing(
                    if self.branches@[i].status != BranchStatus::Archived
                        && !facts.branch_exists@[i] {
                        self.branches@[i].name
                    } else {
                        self.branches@[i].parent
                    },
                ))
        }
    }

    /// Check the state's own structure: version, trunk not tracked, graph.
    pub fn check_structure(&self) -> (r: Result<(), StackError>)
        ensures
            r is Ok <==> self.structure_ok(),
            self.structure_result(r),
    {
        if self.version != 1 {
            return Err(StackError::UnsupportedVersion(self.version));
        }
        if self.is_tracked(self.repo.trunk.as_str()) {
            return Err(StackError::InvalidGraph(String::from_str("trunk branch cannot be tracked")));
        }
        validate_graph(self)
    }

    /// Check the state against the repository facts: `check_structure`, then trunk
    /// exists, then the first recorded parent tip that is not a commit.
    pub fn validate_metadata(&self, facts: &RepoFacts) -> (r: Result<(), StackError>)
        requires
            facts.covers(self),
        ensures
            r is Ok <==> self.metadata_ok(facts),
            self.metadata_result(facts, r),
    {
        let checked = self.check_structure();
        if checked.is_err() {
            return checked;
        }
        if !facts.trunk_exists {
            return Err(StackError::BranchMissing(self.repo.trunk.clone()));
        }
        let mut i: usize = 0;
        while i < self.branches.len()
            invariant
                facts.covers(self),
                self.structure_ok(),
                facts.trunk_exists,
                i <= self.branches@.len(),
                forall|j: int| 0 <= j < i ==> #[trigger] facts.tip_exists@[j],
            decreases self.branches@.len() - i,
        {
            if !facts.tip_exists[i] {
                return Err(StackError::CommitMissing(self.branches[i].recorded_parent_tip.clone()));
            }
            i = i + 1;
        }
        Ok(())
    }

    /// Full check: `validate_metadata`, then, branch by branch, that each branch that
    /// is not archived exists and that each parent other than trunk exists.
    pub fn validate(&self, facts: &RepoFacts) -> (r: Result<(), StackError>)
        requires
            facts.covers(self),
        ensures
            r is Ok <==> self.metadata_ok(facts) && forall|i: int|
                0 <= i < self.branches@.len() ==> #[trigger] self.branch_present(facts, i),
            self.validate_result(facts, r),
    {
        let checked = self.validate_metadata(facts);
        if checked.is_err() {
            return checked;
        }
        let mut i: usize = 0;
        while i < self.branches.len()
            invariant
                facts.covers(self),
                self.metadata_ok(facts),
                i <= self.branches@.len(),
                forall|j: int| 0 <= j < i ==> #[trigger] self.branch_present(facts, j),
            decreases self.branches@.len() - i,
        {
            if self.branches[i].status != BranchStatus::Archived && !facts.branch_exists[i] {
                assert(!self.branch_present(facts, i as int));
                return Err(StackError::BranchMissing(self.branches[i].name.clone()));
            }
            if !str_eq(self.branches[i].parent.as_str(), self.repo.trunk.as_str())
                && !facts.parent_exists[i] {
                assert(!self.branch_present(facts, i as int));
                return Err(StackError::BranchMissing(self.branches[i].parent.clone()));
            }
            i = i + 1;
        }
        Ok(())
    }

    /// A fresh state at version 1 with no tracked branches.
    pub fn new(trunk: String, remote: String) -> (r: Self)
        ensures
            r.version == 1,
            r.repo.trunk == trunk,
            r.repo.remote == remote,
            r.branches@.len() == 0,
    {
        RepoState { version: 1, repo: RepoConfig { trunk, remote }, branches: Vec::new() }
    }

    /// Position of the first tracked branch called `name`.
    pub fn branch_index(&self, name: &str) -> (r: Option<usize>)
        ensures
            match r {
                Some(i) => i < self.branches@.len() && find_branch(self.branches@, name@) == Some(
                    i as int,
                ),
                None => find_branch(self.branches@, name@) is None,
            },
    {
        let mut i: usize = 0;
        while i < self.branches.len()
            invariant
                i <= self.branches@.len(),
                forall|j: int| 0 <= j < i ==> self.branches@[j].name@ != name@,
            decreases self.branches@.len() - i,
        {
            if str_eq(self.branches[i].name.as_str(), name) {
                proof {
                    lemma_find_branch(self.branches@, name@, i as int);
                }
                return Some(i);
            }
            i = i + 1;
        }
        None
    }

    /// The first tracked branch called `name`.
    pub fn branch(&self, name: &str) -> (r: Option<&ManagedBranch>)
        ensures
            match r {
                Some(b) => lookup(self.branches@, name@) == Some(*b),
                None => lookup(self.branches@, name@) is None,
            },
    {
        match self.branch_index(name) {
            Some(i) => Some(&self.branches[i]),
            None => None,
        }
    }

    /// The first tracked branch called `name`, for changing it in place.
    pub fn branch_mut(&mut self, name: &str) -> (r: Option<&mut ManagedBranch>)
        ensures
            match r {
                Some(b) => {
                    &&& find_branch(old(self).branches@, name@) is Some
                    &&& *b == old(self).branches@[find_branch(old(self).branches@, name@)->0]
                    &&& final(self).branches@ == old(self).branches@.update(
                        find_branch(old(self).branches@, name@)->0,
                        *final(b),
                    )
                    &&& final(self).version == old(self).version
                    &&& final(self).repo == old(self).repo
                },
                None => find_branch(old(self).branches@, name@) is None && *final(self) == *old(self),
            },
    {
        match self.branch_index(name) {
            Some(i) => Some(&mut self.branches[i]),
            None => None,
        }
    }

    /// Stop tracking every branch called `name`; the others keep their order.
    pub fn remove_branch(&mut self, name: &str)
        ensures
            final(self).branches@ == old(self).branches@.filter(not_named(name@)),
            !has_branch(final(self).branches@, name@),
            final(self).version == old(self).version,
            final(self).repo == old(self).repo,
    {
        let ghost orig = self.branches@;
        let ghost p = not_named(name@);
        let mut i: usize = self.branches.len();
        proof {
            assert(orig.skip(i as int) =~= Seq::<ManagedBranch>::empty());
            reveal(Seq::filter);
            assert(orig.take(i as int) =~= orig);
        }
        while i > 0
            invariant
                i <= orig.len(),
                p == not_named(name@),
                self.branches@ == orig.take(i as int) + orig.skip(i as int).filter(p),
                self.version == old(self).version,
                self.repo == old(self).repo,
            decreases i,
        {
            i = i - 1;
            let ghost x = orig[i as int];
            proof {
                assert(orig.skip(i as int) =~= seq![x] + orig.skip(i + 1));
                orig.skip(i + 1).lemma_filter_prepend(x, p);
                assert(orig.take(i + 1) =~= orig.take(i as int).push(x));
                assert(self.branches@[i as int] == x);
            }
            if str_eq(self.branches[i].name.as_str(), name) {
                self.branches.remove(i);
                proof {
                    assert(self.branches@ =~= orig.take(i as int) + orig.skip(i as int).filter(p));
                }
            } else {
                proof {
                    assert(self.branches@ =~= orig.take(i as int) + orig.skip(i as int).filter(p));
                }
            }
        }
        proof {
            assert(orig.take(0) =~= Seq::<ManagedBranch>::empty());
            assert(orig.skip(0) =~= orig);
            assert(self.branches@ =~= orig.filter(p));
            assert forall|j: int| 0 <= j < self.branches@.len() implies self.branches@[j].name@
                != name@ by {
                orig.lemma_filter_pred(p, j);
            }
        }
    }

    /// Record that `name` was rebased onto `new_base`.
    pub fn record_rebase(&mut self, name: &str, new_base: String) -> (r: Result<(), StackError>)
        ensures
            match find_branch(old(self).branches@, name@) {
                Some(i) => r is Ok && final(self).branches@ == old(self).branches@.update(
                    i,
                    ManagedBranch { recorded_parent_tip: new_base, ..old(self).branches@[i] },
                ) && final(self).version == old(self).version && final(self).repo == old(self).repo,
                None => *final(self) == *old(self) && exists|m: String|
                    r == Err::<(), StackError>(StackError::BranchDisappeared(m)) && m@ == name@,
            },
    {
        match self.branch_mut(name) {
            Some(b) => {
                b.recorded_parent_tip = new_base;
                Ok(())
            },
            None => Err(StackError::BranchDisappeared(name.to_string())),
        }
    }

    /// Whether a branch called `name` is tracked.
    pub fn is_tracked(&self, name: &str) -> (r: bool)
        ensures
            r == has_branch(self.branches@, name@),
    {
        self.branch_index(name).is_some()
    }

    /// Start tracking `branch`; refused when a branch of that name is already tracked.
    pub fn add_branch(&mut self, branch: ManagedBranch) -> (r: Result<(), StackError>)
        ensures
            has_branch(old(self).branches@, branch.name@) ==> r == Err::<(), StackError>(
                StackError::BranchAlreadyTracked(branch.name),
            ) && *final(self) == *old(self),
            !has_branch(old(self).branches@, branch.name@) ==> r is Ok
                && final(self).branches@ == old(self).branches@.push(branch)
                && final(self).version == old(self).version
                && final(self).repo == old(self).repo,
    {
        if self.is_tracked(branch.name.as_str()) {
            return Err(StackError::BranchAlreadyTracked(branch.name));
        }
        self.branches.push(branch);
        Ok(())
    }
}

impl ManagedBranch {
    /// A new active branch with no pull request.
    pub fn new(name: String, parent: String, recorded_parent_tip: String) -> (r: Self)
        ensures
            r.name == name,
            r.parent == parent,
            r.recorded_parent_tip == recorded_parent_tip,
            r.status == BranchStatus::Active,
            r.pr is None,
    {
        ManagedBranch { name, parent, recorded_parent_tip, status: BranchStatus::Active, pr: None }
    }
}

/// A reparent that was started and waits for its rebase to finish.
#[derive(Debug, Clone)]
pub struct PendingReparent {
    pub operation: String,
    pub branch: String,
    pub old_parent: String,
    pub new_parent: String,
    pub old_parent_tip: String,
    pub new_parent_tip: String,
}

impl PendingReparent {
    /// A pending reparent of `branch` from `old_parent` to `new_parent`.
    pub fn new(
        branch: String,
        old_parent: String,
        new_parent: String,
        old_parent_tip: String,
        new_parent_tip: String,
    ) -> (r: Self)
        ensures
            r.operation@ == "reparent"@,
            r.branch == branch,
            r.old_parent == old_parent,
            r.new_parent == new_parent,
            r.old_parent_tip == old_parent_tip,
            r.new_parent_tip == new_parent_tip,
    {
        PendingReparent {
            operation: String::from_str("reparent"),
            branch,
            old_parent,
            new_parent,
            old_parent_tip,
            new_parent_tip,
        }
    }

    /// The components of the pending-operation file's path under `root`.
    pub fn path_in(root: &str) -> (r: Vec<String>)
        ensures
            names_of(r@) == seq![root@, ".stacked-prs"@, "pending.json"@],
    {
        let mut v = Vec::new();
        v.push(root.to_string());
        v.push(String::from_str(".stacked-prs"));
        v.push(String::from_str("pending.json"));
        proof {
            assert(names_of(v@) =~= seq![root@, ".stacked-prs"@, "pending.json"@]);
        }
        v
    }
}

impl RepoState {
    /// The components of the state file's path under `root`.
    pub fn path_in(root: &str) -> (r: Vec<String>)
        ensures
            names_of(r@) == seq![root@, ".stacked-prs"@, "state.json"@],
    {
        let mut v = Vec::new();
        v.push(root.to_string());
        v.push(String::from_str(".stacked-prs"));
        v.push(String::from_str("state.json"));
        proof {
            assert(names_of(v@) =~= seq![root@, ".stacked-prs"@, "state.json"@]);
        }
        v
    }
}

} // verus!
