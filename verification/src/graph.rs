//! The branch graph: validation (unique names, no self-parent, no cycle) and the
//! stack order in which branches are listed and rebased.
use vstd::prelude::*;

use crate::error::StackError;
use crate::order::{lemma_name_order, name_le, name_le_exec, name_order, names_of, path_le, path_le_exec};
use crate::state::{has_branch, lookup, BranchStatus, ManagedBranch, RepoState};
use vstd::relations::total_ordering;
use crate::text::str_eq;

verus! {

/// The parent link that the stack follows from `name`: the parent of the branch
/// called `name`, when that parent is itself a tracked branch other than trunk.
pub open spec fn link(s: Seq<ManagedBranch>, trunk: Seq<char>, name: Seq<char>) -> Option<Seq<char>> {
    match lookup(s, name) {
        Some(b) => if b.parent@ != trunk && has_branch(s, b.parent@) {
            Some(b.parent@)
        } else {
            None
        },
        None => None,
    }
}

/// `name` followed by its ancestors through `link`, taking at most `fuel` links.
pub open spec fn chain(s: Seq<ManagedBranch>, trunk: Seq<char>, name: Seq<char>, fuel: nat) -> Seq<
    Seq<char>,
>
    decreases fuel,
{
    if fuel > 0 && link(s, trunk, name) is Some {
        seq![name] + chain(s, trunk, link(s, trunk, name)->0, (fuel - 1) as nat)
    } else {
        seq![name]
    }
}

/// Following `link` from `name` reaches a branch without link within `fuel` steps.
pub open spec fn ends(s: Seq<ManagedBranch>, trunk: Seq<char>, name: Seq<char>, fuel: nat) -> bool
    decreases fuel,
{
    if link(s, trunk, name) is None {
        true
    } else if fuel == 0 {
        false
    } else {
        ends(s, trunk, link(s, trunk, name)->0, (fuel - 1) as nat)
    }
}

/// Once the chain has ended, more fuel changes nothing.
pub proof fn lemma_chain_stable(
    s: Seq<ManagedBranch>,
    trunk: Seq<char>,
    name: Seq<char>,
    f: nat,
    g: nat,
)
    requires
        ends(s, trunk, name, f),
        f <= g,
    ensures
        chain(s, trunk, name, f) == chain(s, trunk, name, g),
        ends(s, trunk, name, g),
    decreases f,
{
    if link(s, trunk, name) is Some {
        lemma_chain_stable(s, trunk, link(s, trunk, name)->0, (f - 1) as nat, (g - 1) as nat);
    }
}

/// The link from `name`, computed.
pub fn link_exec(state: &RepoState, name: &str) -> (r: Option<String>)
    ensures
        match r {
            Some(p) => link(state.branches@, state.repo.trunk@, name@) == Some(p@),
            None => link(state.branches@, state.repo.trunk@, name@) is None,
        },
{
    match state.branch(name) {
        Some(b) => {
            if !str_eq(b.parent.as_str(), state.repo.trunk.as_str()) && state.is_tracked(
                b.parent.as_str(),
            ) {
                Some(b.parent.clone())
            } else {
                None
            }
        },
        None => None,
    }
}

/// The chain from `name` with at most `fuel` links, and whether it ended within them.
pub fn chain_exec(state: &RepoState, name: &str, fuel: usize) -> (r: (Vec<String>, bool))
    ensures
        names_of(r.0@) == chain(state.branches@, state.repo.trunk@, name@, fuel as nat),
        r.1 == ends(state.branches@, state.repo.trunk@, name@, fuel as nat),
{
    let ghost s = state.branches@;
    let ghost t = state.repo.trunk@;
    let mut out: Vec<String> = Vec::new();
    let mut cur = name.to_string();
    out.push(cur.clone());
    let mut steps: usize = 0;
    loop
        invariant
            steps <= fuel,
            s == state.branches@,
            t == state.repo.trunk@,
            out@.len() >= 1,
            names_of(out@).last() == cur@,
            names_of(out@) + chain(s, t, cur@, (fuel - steps) as nat).drop_first() == chain(
                s,
                t,
                name@,
                fuel as nat,
            ),
            ends(s, t, cur@, (fuel - steps) as nat) == ends(s, t, name@, fuel as nat),
        decreases fuel - steps,
    {
        let next = link_exec(state, cur.as_str());
        match next {
            None => {
                assert(chain(s, t, cur@, (fuel - steps) as nat).drop_first() =~= Seq::empty());
                assert(names_of(out@) + Seq::empty() =~= names_of(out@));
                return (out, true);
            },
            Some(p) => {
                if steps == fuel {
                    assert(chain(s, t, cur@, (fuel - steps) as nat).drop_first() =~= Seq::empty());
                    assert(names_of(out@) + Seq::empty() =~= names_of(out@));
                    return (out, false);
                }
                let ghost before = names_of(out@);
                out.push(p.clone());
                proof {
                    let f = (fuel - steps) as nat;
                    let rest = chain(s, t, p@, (f - 1) as nat);
                    assert(chain(s, t, cur@, f) == seq![cur@] + rest);
                    assert((seq![cur@] + rest).drop_first() =~= rest);
                    assert(names_of(out@) =~= before.push(p@));
                    assert(before + rest =~= before.push(p@) + rest.drop_first());
                }
                cur = p;
                steps = steps + 1;
            },
        }
    }
}

/// The branch at `i` repeats the name of an earlier branch.
pub open spec fn duplicate_at(s: Seq<ManagedBranch>, i: int) -> bool {
    exists|j: int| 0 <= j < i && s[j].name@ == s[i].name@
}

/// The branch at `i` names itself as parent.
pub open spec fn self_parent_at(s: Seq<ManagedBranch>, i: int) -> bool {
    s[i].name@ == s[i].parent@
}

/// `i` is the first position with a duplicate name or a self-parent.
pub open spec fn first_bad(s: Seq<ManagedBranch>, i: int) -> bool {
    &&& 0 <= i < s.len()
    &&& (duplicate_at(s, i) || self_parent_at(s, i))
    &&& forall|j: int| 0 <= j < i ==> !duplicate_at(s, j) && !self_parent_at(s, j)
}

/// `k` is the first branch whose chain of parents does not end (so runs into a cycle).
pub open spec fn first_cyclic(s: Seq<ManagedBranch>, t: Seq<char>, k: int) -> bool {
    &&& 0 <= k < s.len()
    &&& !ends(s, t, s[k].name@, s.len())
    &&& forall|j: int| 0 <= j < k ==> ends(s, t, s[j].name@, s.len())
}

/// `j` is the first position of `c` that repeats an earlier element.
pub open spec fn first_repeat(c: Seq<Seq<char>>, j: int) -> bool {
    &&& 0 <= j < c.len()
    &&& exists|i: int| 0 <= i < j && c[i] == c[j]
    &&& forall|j2: int, i: int| 0 <= i < j2 < j ==> c[i] != c[j2]
}

/// All tracked names are different.
pub open spec fn names_distinct(s: Seq<ManagedBranch>) -> bool {
    forall|i: int, j: int| 0 <= i < j < s.len() ==> s[i].name@ != s[j].name@
}

/// Following parents from any tracked branch ends: there is no cycle. (With distinct
/// names, a chain of more than `s.len()` links would have to revisit a branch.)
pub open spec fn acyclic(s: Seq<ManagedBranch>, t: Seq<char>) -> bool {
    forall|i: int| 0 <= i < s.len() ==> ends(s, t, #[trigger] s[i].name@, s.len())
}

/// The graph is well formed: distinct names, no branch its own parent, no cycle.
pub open spec fn valid_graph(s: Seq<ManagedBranch>, t: Seq<char>) -> bool {
    &&& names_distinct(s)
    &&& forall|i: int| 0 <= i < s.len() ==> !self_parent_at(s, i)
    &&& acyclic(s, t)
}

pub open spec fn duplicate_message(name: Seq<char>) -> Seq<char> {
    "duplicate branch '"@ + name + "'"@
}

pub open spec fn self_parent_message(name: Seq<char>) -> Seq<char> {
    "branch '"@ + name + "' cannot parent itself"@
}

pub open spec fn cycle_message(name: Seq<char>) -> Seq<char> {
    "cycle detected at '"@ + name + "'"@
}

/// The branch at which the cycle through branch `k` is detected: walking up from `k`,
/// the first branch met a second time.
pub open spec fn cycle_node(s: Seq<ManagedBranch>, t: Seq<char>, k: int) -> Seq<char> {
    let c = chain(s, t, s[k].name@, s.len());
    c[choose|j: int| first_repeat(c, j)]
}

/// The message with which the graph is refused, if it is: the first branch (in state
/// order) with a duplicate name or a self-parent, else the first branch whose parents
/// run into a cycle.
pub open spec fn graph_error(s: Seq<ManagedBranch>, t: Seq<char>) -> Option<Seq<char>> {
    if exists|i: int| first_bad(s, i) {
        let i = choose|i: int| first_bad(s, i);
        if duplicate_at(s, i) {
            Some(duplicate_message(s[i].name@))
        } else {
            Some(self_parent_message(s[i].name@))
        }
    } else if exists|k: int| first_cyclic(s, t, k) {
        let k = choose|k: int| first_cyclic(s, t, k);
        Some(cycle_message(cycle_node(s, t, k)))
    } else {
        None
    }
}

proof fn lemma_first_bad_unique(s: Seq<ManagedBranch>, i: int)
    requires
        first_bad(s, i),
    ensures
        (choose|k: int| first_bad(s, k)) == i,
{
    let k = choose|k: int| first_bad(s, k);
    assert(first_bad(s, k));
    if k < i {
        assert(!duplicate_at(s, k) && !self_parent_at(s, k));
    } else if i < k {
        assert(!duplicate_at(s, i) && !self_parent_at(s, i));
    }
}

proof fn lemma_first_cyclic_unique(s: Seq<ManagedBranch>, t: Seq<char>, i: int)
    requires
        first_cyclic(s, t, i),
    ensures
        (choose|k: int| first_cyclic(s, t, k)) == i,
{
    let k = choose|k: int| first_cyclic(s, t, k);
    assert(first_cyclic(s, t, k));
}

proof fn lemma_first_repeat_unique(c: Seq<Seq<char>>, j: int)
    requires
        first_repeat(c, j),
    ensures
        (choose|k: int| first_repeat(c, k)) == j,
{
    let k = choose|k: int| first_repeat(c, k);
    assert(first_repeat(c, k));
    if k < j {
        let i = choose|i: int| 0 <= i < k && c[i] == c[k];
        assert(c[i] != c[k]);
    } else if j < k {
        let i = choose|i: int| 0 <= i < j && c[i] == c[j];
        assert(c[i] != c[j]);
    }
}

/// Every element of a chain that starts at a tracked branch is tracked, and a chain
/// that has not ended has used all its fuel.
pub proof fn lemma_chain_tracked(s: Seq<ManagedBranch>, t: Seq<char>, name: Seq<char>, f: nat)
    requires
        has_branch(s, name),
    ensures
        forall|k: int|
            0 <= k < chain(s, t, name, f).len() ==> has_branch(s, #[trigger] chain(s, t, name, f)[k]),
        !ends(s, t, name, f) ==> chain(s, t, name, f).len() == f + 1,
    decreases f,
{
    if f > 0 && link(s, t, name) is Some {
        let p = link(s, t, name)->0;
        lemma_chain_tracked(s, t, p, (f - 1) as nat);
        let c = chain(s, t, name, f);
        let rest = chain(s, t, p, (f - 1) as nat);
        assert forall|k: int| 0 <= k < c.len() implies has_branch(s, #[trigger] c[k]) by {
            if k > 0 {
                assert(c[k] == rest[k - 1]);
            }
        }
    }
}

/// A chain longer than the number of tracked branches repeats a branch.
proof fn lemma_pigeonhole(s: Seq<ManagedBranch>, c: Seq<Seq<char>>)
    requires
        c.len() > s.len(),
        forall|k: int| 0 <= k < c.len() ==> has_branch(s, #[trigger] c[k]),
    ensures
        !c.no_duplicates(),
{
    let names = s.map_values(|b: ManagedBranch| b.name@);
    assert(c.to_set().subset_of(names.to_set())) by {
        assert forall|x: Seq<char>| c.to_set().contains(x) implies names.to_set().contains(x) by {
            let k = choose|k: int| 0 <= k < c.len() && c[k] == x;
            assert(has_branch(s, c[k]));
            let i = choose|i: int| 0 <= i < s.len() && s[i].name@ == x;
            assert(names[i] == x);
        }
    }
    names.lemma_cardinality_of_set();
    vstd::set_lib::lemma_len_subset(c.to_set(), names.to_set());
    if c.no_duplicates() {
        c.unique_seq_to_set();
    }
}

/// Whether the branch at `i` has a duplicate name or names itself as parent; the
/// message says which.
fn local_error(state: &RepoState, i: usize) -> (r: Option<String>)
    requires
        i < state.branches@.len(),
    ensures
        match r {
            Some(m) => (duplicate_at(state.branches@, i as int) && m@ == duplicate_message(
                state.branches@[i as int].name@,
            )) || (!duplicate_at(state.branches@, i as int) && self_parent_at(
                state.branches@,
                i as int,
            ) && m@ == self_parent_message(state.branches@[i as int].name@)),
            None => !duplicate_at(state.branches@, i as int) && !self_parent_at(
                state.branches@,
                i as int,
            ),
        },
{
    let ghost s = state.branches@;
    let name = state.branches[i].name.as_str();
    let mut j: usize = 0;
    while j < i
        invariant
            i < s.len(),
            s == state.branches@,
            name@ == s[i as int].name@,
            j <= i,
            forall|k: int| 0 <= k < j ==> s[k].name@ != name@,
        decreases i - j,
    {
        if str_eq(state.branches[j].name.as_str(), name) {
            let mut m = String::from_str("duplicate branch '");
            m.append(name);
            m.append("'");
            return Some(m);
        }
        j = j + 1;
    }
    if str_eq(name, state.branches[i].parent.as_str()) {
        let mut m = String::from_str("branch '");
        m.append(name);
        m.append("' cannot parent itself");
        return Some(m);
    }
    None
}

/// The first element of `c` that repeats an earlier one.
fn find_repeat(c: &Vec<String>) -> (r: Option<usize>)
    ensures
        match r {
            Some(j) => first_repeat(names_of(c@), j as int),
            None => names_of(c@).no_duplicates(),
        },
{
    let ghost n = names_of(c@);
    let mut j: usize = 0;
    while j < c.len()
        invariant
            n == names_of(c@),
            j <= c@.len(),
            forall|j2: int, i: int| 0 <= i < j2 < j ==> n[i] != n[j2],
        decreases c@.len() - j,
    {
        let mut i: usize = 0;
        while i < j
            invariant
                n == names_of(c@),
                j < c@.len(),
                i <= j,
                forall|j2: int, i3: int| 0 <= i3 < j2 < j ==> n[i3] != n[j2],
                forall|i2: int| 0 <= i2 < i ==> n[i2] != n[j as int],
            decreases j - i,
        {
            if str_eq(c[i].as_str(), c[j].as_str()) {
                assert(n[i as int] == n[j as int]);
                return Some(j);
            }
            i = i + 1;
        }
        j = j + 1;
    }
    None
}

/// Check the graph of tracked branches: no name twice, no branch its own parent, no
/// cycle. The error names the first offending branch, as `graph_error` describes.
pub fn validate_graph(state: &RepoState) -> (r: Result<(), StackError>)
    ensures
        r is Ok <==> valid_graph(state.branches@, state.repo.trunk@),
        graph_error(state.branches@, state.repo.trunk@) is None <==> valid_graph(
            state.branches@,
            state.repo.trunk@,
        ),
        match r {
            Ok(_) => true,
            Err(e) => exists|m: String|
                e == StackError::InvalidGraph(m) && graph_error(
                    state.branches@,
                    state.repo.trunk@,
                ) == Some(m@),
        },
{
    let ghost s = state.branches@;
    let ghost t = state.repo.trunk@;
    let n = state.branches.len();
    let mut i: usize = 0;
    while i < n
        invariant
            n == s.len(),
            s == state.branches@,
            t == state.repo.trunk@,
            i <= n,
            forall|j: int| 0 <= j < i ==> !duplicate_at(s, j) && !self_parent_at(s, j),
        decreases n - i,
    {
        match local_error(state, i) {
            Some(m) => {
                proof {
                    assert(first_bad(s, i as int));
                    lemma_first_bad_unique(s, i as int);
                }
                return Err(StackError::InvalidGraph(m));
            },
            None => {},
        }
        i = i + 1;
    }
    assert(!exists|i: int| first_bad(s, i));
    assert(names_distinct(s)) by {
        assert forall|i: int, j: int| 0 <= i < j < s.len() implies s[i].name@ != s[j].name@ by {
            assert(!duplicate_at(s, j));
        }
    }
    let mut k: usize = 0;
    while k < n
        invariant
            n == s.len(),
            s == state.branches@,
            t == state.repo.trunk@,
            k <= n,
            !exists|i: int| first_bad(s, i),
            names_distinct(s),
            forall|i: int| 0 <= i < s.len() ==> !self_parent_at(s, i),
            forall|j: int| 0 <= j < k ==> ends(s, t, #[trigger] s[j].name@, s.len()),
        decreases n - k,
    {
        let (c, ended) = chain_exec(state, state.branches[k].name.as_str(), n);
        if !ended {
            proof {
                assert(first_cyclic(s, t, k as int));
                lemma_first_cyclic_unique(s, t, k as int);
                assert(has_branch(s, s[k as int].name@));
                lemma_chain_tracked(s, t, s[k as int].name@, n as nat);
            }
            match find_repeat(&c) {
                Some(j) => {
                    proof {
                        lemma_first_repeat_unique(names_of(c@), j as int);
                    }
                    let mut m = String::from_str("cycle detected at '");
                    m.append(c[j].as_str());
                    m.append("'");
                    return Err(StackError::InvalidGraph(m));
                },
                None => {
                    proof {
                        lemma_pigeonhole(s, names_of(c@));
                    }
                    return Ok(());
                },
            }
        }
        k = k + 1;
    }
    assert(!exists|k: int| first_cyclic(s, t, k));
    Ok(())
}

/// The path from the root of `name`'s stack down to `name`.
pub open spec fn path(s: Seq<ManagedBranch>, t: Seq<char>, name: Seq<char>) -> Seq<Seq<char>> {
    chain(s, t, name, s.len()).reverse()
}

/// `r` lists names in stack order: by their root-to-branch paths, so that each stack
/// comes after the stacks whose roots sort before it, every branch comes right before
/// its subtree, and siblings come in name order.
pub open spec fn in_stack_order(s: Seq<ManagedBranch>, t: Seq<char>, r: Seq<Seq<char>>) -> bool {
    forall|i: int, j: int| 0 <= i < j < r.len() ==> path_le(path(s, t, r[i]), path(s, t, r[j]))
}

/// `r` holds each tracked branch name exactly once.
pub open spec fn is_permutation_of_names(s: Seq<ManagedBranch>, r: Seq<Seq<char>>) -> bool {
    &&& r.len() == s.len()
    &&& r.no_duplicates()
    &&& forall|k: int| 0 <= k < r.len() ==> has_branch(s, #[trigger] r[k])
}

/// In a valid graph, the path of a branch with a link is the path of its parent, then
/// the branch.
pub proof fn lemma_path_link(s: Seq<ManagedBranch>, t: Seq<char>, x: Seq<char>)
    requires
        valid_graph(s, t),
        has_branch(s, x),
        link(s, t, x) is Some,
    ensures
        path(s, t, x) == path(s, t, link(s, t, x)->0).push(x),
{
    let p = link(s, t, x)->0;
    let n = s.len();
    let i = choose|i: int| 0 <= i < s.len() && s[i].name@ == x;
    assert(ends(s, t, s[i].name@, n));
    assert(n > 0);
    assert(ends(s, t, p, (n - 1) as nat));
    lemma_chain_stable(s, t, p, (n - 1) as nat, n);
    let c = chain(s, t, p, n);
    assert(chain(s, t, x, n) == seq![x] + c);
    assert((seq![x] + c).reverse() =~= c.reverse().push(x));
}

/// A path is never a proper extension's upper bound: `a.push(x)` comes strictly after `a`.
proof fn lemma_path_prefix_before(a: Seq<Seq<char>>, x: Seq<char>)
    ensures
        path_le(a, a.push(x)),
        !path_le(a.push(x), a),
    decreases a.len(),
{
    if a.len() > 0 {
        assert(a.push(x).drop_first() =~= a.drop_first().push(x));
        lemma_path_prefix_before(a.drop_first(), x);
    }
}

/// Reversal of a vector of strings.
fn reverse_strings(v: &Vec<String>) -> (r: Vec<String>)
    ensures
        names_of(r@) == names_of(v@).reverse(),
{
    let mut out: Vec<String> = Vec::new();
    let mut i: usize = v.len();
    while i > 0
        invariant
            i <= v@.len(),
            out@.len() == v@.len() - i,
            forall|k: int| 0 <= k < out@.len() ==> #[trigger] out@[k]@ == v@[v@.len() - 1 - k]@,
        decreases i,
    {
        i = i - 1;
        out.push(v[i].clone());
    }
    assert(names_of(out@) =~= names_of(v@).reverse());
    out
}

/// The root-to-branch path of every tracked branch, in state order.
fn all_paths(state: &RepoState) -> (r: Vec<Vec<String>>)
    ensures
        r@.len() == state.branches@.len(),
        forall|i: int|
            0 <= i < r@.len() ==> names_of(#[trigger] r@[i]@) == path(
                state.branches@,
                state.repo.trunk@,
                state.branches@[i].name@,
            ),
{
    let n = state.branches.len();
    let mut out: Vec<Vec<String>> = Vec::new();
    let mut i: usize = 0;
    while i < n
        invariant
            n == state.branches@.len(),
            i <= n,
            out@.len() == i,
            forall|k: int|
                0 <= k < i ==> names_of(#[trigger] out@[k]@) == path(
                    state.branches@,
                    state.repo.trunk@,
                    state.branches@[k].name@,
                ),
        decreases n - i,
    {
        let (c, _) = chain_exec(state, state.branches[i].name.as_str(), n);
        out.push(reverse_strings(&c));
        i = i + 1;
    }
    out
}

/// Positions `0..keys.len()` sorted by their keys in path order.
pub(crate) fn sort_by_path(keys: &Vec<Vec<String>>) -> (r: Vec<usize>)
    ensures
        r@.len() == keys@.len(),
        r@.no_duplicates(),
        forall|k: int| 0 <= k < r@.len() ==> #[trigger] r@[k] < keys@.len(),
        forall|x: usize| x < keys@.len() ==> #[trigger] r@.contains(x),
        forall|i: int, j: int|
            0 <= i < j < r@.len() ==> path_le(
                names_of(keys@[r@[i] as int]@),
                names_of(keys@[r@[j] as int]@),
            ),
{
    proof {
        crate::order::lemma_name_order();
    }
    let ghost key = |k: int| names_of(keys@[k]@);
    let n = keys.len();
    let mut order: Vec<usize> = Vec::new();
    let mut i: usize = 0;
    while i < n
        invariant
            n == keys@.len(),
            i <= n,
            key == (|k: int| names_of(keys@[k]@)),
            vstd::relations::total_ordering(crate::order::name_order()),
            order@.len() == i,
            order@.no_duplicates(),
            forall|k: int| 0 <= k < order@.len() ==> #[trigger] order@[k] < i,
            forall|x: usize| x < i ==> #[trigger] order@.contains(x),
            forall|a: int, b: int|
                0 <= a < b < order@.len() ==> path_le(key(order@[a] as int), key(order@[b] as int)),
        decreases n - i,
    {
        let mut pos: usize = 0;
        while pos < order.len() && path_le_exec(&keys[order[pos]], &keys[i])
            invariant
                n == keys@.len(),
                i < n,
                key == (|k: int| names_of(keys@[k]@)),
                pos <= order@.len(),
                forall|k: int| 0 <= k < order@.len() ==> #[trigger] order@[k] < i,
                forall|a: int| 0 <= a < pos ==> path_le(key(order@[a] as int), key(i as int)),
            decreases order@.len() - pos,
        {
            pos = pos + 1;
        }
        let ghost old_order = order@;
        proof {
            if pos < old_order.len() {
                crate::order::lemma_lex_total(
                    key(old_order[pos as int] as int),
                    key(i as int),
                    crate::order::name_order(),
                );
                assert forall|b: int| pos <= b < old_order.len() implies path_le(
                    key(i as int),
                    key(old_order[b] as int),
                ) by {
                    if b > pos {
                        crate::order::lemma_lex_trans(
                            key(i as int),
                            key(old_order[pos as int] as int),
                            key(old_order[b] as int),
                            crate::order::name_order(),
                        );
                    }
                }
            }
        }
        order.insert(pos, i);
        proof {
            let o = order@;
            assert(o == old_order.insert(pos as int, i));
            assert forall|x: usize| x < i + 1 implies #[trigger] o.contains(x) by {
                if x < i {
                    assert(old_order.contains(x));
                    let y = choose|y: int| 0 <= y < old_order.len() && old_order[y] == x;
                    if y < pos {
                        assert(o[y] == x);
                    } else {
                        assert(o[y + 1] == x);
                    }
                } else {
                    assert(o[pos as int] == i);
                }
            }
            assert forall|a: int, b: int| 0 <= a < b < o.len() implies path_le(
                key(o[a] as int),
                key(o[b] as int),
            ) by {
                if a < pos && b < pos {
                } else if a < pos && b == pos {
                } else if a < pos {
                    assert(o[b] == old_order[b - 1]);
                    if pos < old_order.len() {
                        crate::order::lemma_lex_trans(
                            key(o[a] as int),
                            key(i as int),
                            key(o[b] as int),
                            crate::order::name_order(),
                        );
                    }
                } else if a == pos {
                    assert(o[b] == old_order[b - 1]);
                } else {
                    assert(o[a] == old_order[a - 1]);
                    assert(o[b] == old_order[b - 1]);
                }
            }
            assert forall|x: int, y: int| 0 <= x < o.len() && 0 <= y < o.len() && x != y implies o[x]
                != o[y] by {
                if x != pos as int && y != pos as int {
                    let xo = if x < pos { x } else { x - 1 };
                    let yo = if y < pos { y } else { y - 1 };
                    assert(o[x] == old_order[xo]);
                    assert(o[y] == old_order[yo]);
                }
            }
        }
        i = i + 1;
    }
    order
}

/// `r` is what `descendants_topo` gives for the branches `s` and trunk `t`: refused as
/// `validate_graph` refuses an invalid graph, otherwise every tracked name once, in
/// stack order.
pub open spec fn topo_result(s: Seq<ManagedBranch>, t: Seq<char>, r: Result<Vec<String>, StackError>) -> bool {
    &&& (r is Ok <==> valid_graph(s, t))
    &&& match r {
        Ok(v) => is_permutation_of_names(s, names_of(v@)) && in_stack_order(s, t, names_of(v@)),
        Err(e) => exists|m: String| e == StackError::InvalidGraph(m) && graph_error(s, t) == Some(m@),
    }
}

/// `r` is what `descendants_of` gives for `parent`: refused when `parent` is neither
/// trunk nor tracked, or as `validate_graph` refuses an invalid graph; otherwise
/// exactly the branches under `parent`, each once, in stack order.
pub open spec fn descendants_result(
    s: Seq<ManagedBranch>,
    t: Seq<char>,
    parent: Seq<char>,
    r: Result<Vec<String>, StackError>,
) -> bool {
    &&& (parent != t && !has_branch(s, parent) ==> exists|m: String|
        r == Err::<Vec<String>, StackError>(StackError::InvalidGraph(m)) && m@ == "branch is not tracked: "@
            + parent)
    &&& ((parent == t || has_branch(s, parent)) ==> (r is Ok <==> valid_graph(s, t)))
    &&& match r {
        Ok(v) => {
            &&& names_of(v@).no_duplicates()
            &&& forall|k: int|
                0 <= k < v@.len() ==> has_branch(s, #[trigger] v@[k]@) && under(s, t, parent, v@[k]@)
            &&& forall|i: int|
                0 <= i < s.len() && under(s, t, parent, #[trigger] s[i].name@) ==> names_of(v@).contains(
                    s[i].name@,
                )
            &&& in_stack_order(s, t, names_of(v@))
        },
        Err(_) => true,
    }
}

/// All tracked branches in stack order: ordered by their root-to-branch paths, which
/// visits each stack root in name order and, under every branch, its children in name
/// order, each followed by its own subtree. Refused, as `validate_graph` refuses, when
/// the graph is not valid.
pub fn descendants_topo(state: &RepoState) -> (r: Result<Vec<String>, StackError>)
    requires
        !has_branch(state.branches@, state.repo.trunk@),
    ensures
        topo_result(state.branches@, state.repo.trunk@, r),
{
    validate_graph(state)?;
    let ghost s = state.branches@;
    let ghost t = state.repo.trunk@;
    let paths = all_paths(state);
    let order = sort_by_path(&paths);
    let mut out: Vec<String> = Vec::new();
    let mut k: usize = 0;
    while k < order.len()
        invariant
            s == state.branches@,
            t == state.repo.trunk@,
            valid_graph(s, t),
            paths@.len() == s.len(),
            order@.len() == s.len(),
            order@.no_duplicates(),
            forall|x: int| 0 <= x < order@.len() ==> #[trigger] order@[x] < s.len(),
            forall|x: int|
                0 <= x < paths@.len() ==> names_of(#[trigger] paths@[x]@) == path(s, t, s[x].name@),
            k <= order@.len(),
            out@.len() == k,
            forall|x: int| 0 <= x < k ==> #[trigger] out@[x]@ == s[order@[x] as int].name@,
        decreases order@.len() - k,
    {
        out.push(state.branches[order[k]].name.clone());
        k = k + 1;
    }
    proof {
        let r = names_of(out@);
        assert forall|x: int| 0 <= x < r.len() implies has_branch(s, #[trigger] r[x]) by {
            assert(r[x] == s[order@[x] as int].name@);
        }
        assert forall|x: int, y: int| 0 <= x < r.len() && 0 <= y < r.len() && x != y implies r[x]
            != r[y] by {
            assert(order@[x] != order@[y]);
            if order@[x] < order@[y] {
                assert(s[order@[x] as int].name@ != s[order@[y] as int].name@);
            } else {
                assert(s[order@[y] as int].name@ != s[order@[x] as int].name@);
            }
        }
        assert forall|x: int, y: int| 0 <= x < y < r.len() implies path_le(
            path(s, t, r[x]),
            path(s, t, r[y]),
        ) by {
            assert(names_of(paths@[order@[x] as int]@) == path(s, t, r[x]));
            assert(names_of(paths@[order@[y] as int]@) == path(s, t, r[y]));
        }
    }
    Ok(out)
}

/// The last element of a path is the branch itself.
pub proof fn lemma_path_last(s: Seq<ManagedBranch>, t: Seq<char>, x: Seq<char>)
    ensures
        path(s, t, x).len() >= 1,
        path(s, t, x).last() == x,
{
    let c = chain(s, t, x, s.len());
    assert(c[0] == x);
    assert(c.reverse().last() == c[0]);
}

/// A list that holds each tracked name once holds every tracked name.
pub proof fn lemma_permutation_complete(s: Seq<ManagedBranch>, r: Seq<Seq<char>>, i: int)
    requires
        names_distinct(s),
        is_permutation_of_names(s, r),
        0 <= i < s.len(),
    ensures
        r.contains(s[i].name@),
{
    let names = s.map_values(|b: ManagedBranch| b.name@);
    assert(names.no_duplicates()) by {
        assert forall|a: int, b: int| 0 <= a < names.len() && 0 <= b < names.len() && a != b implies names[a]
            != names[b] by {
            if a < b {
                assert(s[a].name@ != s[b].name@);
            } else {
                assert(s[b].name@ != s[a].name@);
            }
        }
    }
    names.unique_seq_to_set();
    r.unique_seq_to_set();
    assert(r.to_set().subset_of(names.to_set())) by {
        assert forall|x: Seq<char>| r.to_set().contains(x) implies names.to_set().contains(x) by {
            let k = choose|k: int| 0 <= k < r.len() && r[k] == x;
            assert(has_branch(s, r[k]));
            let j = choose|j: int| 0 <= j < s.len() && s[j].name@ == x;
            assert(names[j] == x);
        }
    }
    vstd::set_lib::lemma_subset_equality(r.to_set(), names.to_set());
    assert(names[i] == s[i].name@);
    assert(names.to_set().contains(s[i].name@));
}

/// Law: in stack order a parent is listed before each of its children.
pub proof fn lemma_stack_order_parent_first(
    s: Seq<ManagedBranch>,
    t: Seq<char>,
    r: Seq<Seq<char>>,
    j: int,
)
    requires
        valid_graph(s, t),
        is_permutation_of_names(s, r),
        in_stack_order(s, t, r),
        0 <= j < r.len(),
        link(s, t, r[j]) is Some,
    ensures
        exists|i: int| 0 <= i < j && r[i] == link(s, t, r[j])->0,
{
    let x = r[j];
    let p = link(s, t, x)->0;
    assert(has_branch(s, x));
    lemma_path_link(s, t, x);
    assert(has_branch(s, p));
    let k = choose|k: int| 0 <= k < s.len() && s[k].name@ == p;
    lemma_permutation_complete(s, r, k);
    let i = choose|i: int| 0 <= i < r.len() && r[i] == p;
    lemma_path_prefix_before(path(s, t, p), x);
    if i >= j {
        if i == j {
            lemma_path_last(s, t, x);
            lemma_path_last(s, t, p);
            assert(path(s, t, x).len() == path(s, t, p).len() + 1);
        } else {
            assert(path_le(path(s, t, x), path(s, t, p)));
        }
    }
}

/// Law: the stack order is unique: two lists that both hold every tracked branch once
/// and are both in stack order are the same list.
pub proof fn lemma_stack_order_unique(
    s: Seq<ManagedBranch>,
    t: Seq<char>,
    r1: Seq<Seq<char>>,
    r2: Seq<Seq<char>>,
)
    requires
        valid_graph(s, t),
        is_permutation_of_names(s, r1),
        in_stack_order(s, t, r1),
        is_permutation_of_names(s, r2),
        in_stack_order(s, t, r2),
    ensures
        r1 == r2,
{
    lemma_stack_order_unique_from(s, t, r1, r2, 0);
}

proof fn lemma_stack_order_unique_from(
    s: Seq<ManagedBranch>,
    t: Seq<char>,
    r1: Seq<Seq<char>>,
    r2: Seq<Seq<char>>,
    i: int,
)
    requires
        valid_graph(s, t),
        is_permutation_of_names(s, r1),
        in_stack_order(s, t, r1),
        is_permutation_of_names(s, r2),
        in_stack_order(s, t, r2),
        0 <= i <= r1.len(),
        forall|j: int| 0 <= j < i ==> r1[j] == r2[j],
    ensures
        r1 == r2,
    decreases r1.len() - i,
{
    if i == r1.len() {
        assert(r1 =~= r2);
    } else {
        let x = r1[i];
        let y = r2[i];
        if x != y {
            crate::order::lemma_name_order();
            let kx = choose|k: int| 0 <= k < s.len() && s[k].name@ == x;
            let ky = choose|k: int| 0 <= k < s.len() && s[k].name@ == y;
            lemma_permutation_complete(s, r2, kx);
            lemma_permutation_complete(s, r1, ky);
            let a = choose|a: int| 0 <= a < r2.len() && r2[a] == x;
            let b = choose|b: int| 0 <= b < r1.len() && r1[b] == y;
            if a < i {
                assert(r1[a] == x);
            }
            if b < i {
                assert(r2[b] == y);
            }
            assert(a > i && b > i);
            assert(path_le(path(s, t, x), path(s, t, y)));
            assert(path_le(path(s, t, y), path(s, t, x)));
            crate::order::lemma_lex_antisym(
                path(s, t, x),
                path(s, t, y),
                crate::order::name_order(),
            );
            lemma_path_last(s, t, x);
            lemma_path_last(s, t, y);
        }
        lemma_stack_order_unique_from(s, t, r1, r2, i + 1);
    }
}

/// The root of `x`'s stack: the last branch reached by following links.
pub open spec fn root_of(s: Seq<ManagedBranch>, t: Seq<char>, x: Seq<char>) -> Seq<char> {
    chain(s, t, x, s.len()).last()
}

/// `p` is a proper ancestor of `x`: reached from `x` by following one or more links.
pub open spec fn proper_ancestor(s: Seq<ManagedBranch>, t: Seq<char>, p: Seq<char>, x: Seq<char>) -> bool {
    exists|k: int| 1 <= k < chain(s, t, x, s.len()).len() && chain(s, t, x, s.len())[k] == p
}

/// `x` lies under `parent`: for trunk, `x`'s stack root names trunk as parent; for a
/// tracked branch, that branch is a proper ancestor of `x`.
pub open spec fn under(s: Seq<ManagedBranch>, t: Seq<char>, parent: Seq<char>, x: Seq<char>) -> bool {
    if parent == t {
        match lookup(s, root_of(s, t, x)) {
            Some(b) => b.parent@ == t,
            None => false,
        }
    } else {
        proper_ancestor(s, t, parent, x)
    }
}

/// Whether `x` lies under `parent`, computed.
pub(crate) fn under_exec(state: &RepoState, parent: &str, x: &str) -> (r: bool)
    ensures
        r == under(state.branches@, state.repo.trunk@, parent@, x@),
{
    let ghost s = state.branches@;
    let ghost t = state.repo.trunk@;
    let (c, _) = chain_exec(state, x, state.branches.len());
    let ghost cs = names_of(c@);
    assert(cs.len() >= 1) by {
        assert(cs == chain(s, t, x@, s.len()));
    }
    if str_eq(parent, state.repo.trunk.as_str()) {
        let root = c[c.len() - 1].as_str();
        match state.branch(root) {
            Some(b) => str_eq(b.parent.as_str(), state.repo.trunk.as_str()),
            None => false,
        }
    } else {
        let mut k: usize = 1;
        while k < c.len()
            invariant
                cs == names_of(c@),
                cs == chain(s, t, x@, s.len()),
                s == state.branches@,
                t == state.repo.trunk@,
                parent@ != t,
                1 <= k <= c@.len(),
                forall|j: int| 1 <= j < k ==> cs[j] != parent@,
            decreases c@.len() - k,
        {
            if str_eq(c[k].as_str(), parent) {
                assert(cs[k as int] == parent@);
                assert(parent@ != t);
                return true;
            }
            k = k + 1;
        }
        false
    }
}

/// The branches under `parent` (trunk or a tracked branch), in stack order: the
/// children of `parent` in name order, each followed by its own subtree.
pub fn descendants_of(state: &RepoState, parent: &str) -> (r: Result<Vec<String>, StackError>)
    requires
        !has_branch(state.branches@, state.repo.trunk@),
    ensures
        descendants_result(state.branches@, state.repo.trunk@, parent@, r),
{
    let ghost s = state.branches@;
    let ghost t = state.repo.trunk@;
    if !str_eq(parent, state.repo.trunk.as_str()) && !state.is_tracked(parent) {
        let mut m = String::from_str("branch is not tracked: ");
        m.append(parent);
        return Err(StackError::InvalidGraph(m));
    }
    let topo = descendants_topo(state)?;
    let ghost all = names_of(topo@);
    let mut out: Vec<String> = Vec::new();
    let ghost mut idx: Seq<int> = Seq::empty();
    let mut k: usize = 0;
    while k < topo.len()
        invariant
            s == state.branches@,
            t == state.repo.trunk@,
            all == names_of(topo@),
            valid_graph(s, t),
            is_permutation_of_names(s, all),
            in_stack_order(s, t, all),
            k <= topo@.len(),
            idx.len() == out@.len(),
            forall|a: int| 0 <= a < out@.len() ==> 0 <= #[trigger] idx[a] < k && out@[a]@ == all[idx[a]],
            forall|a: int| 0 <= a < out@.len() ==> under(s, t, parent@, #[trigger] out@[a]@),
            forall|m: int| 0 <= m < k && under(s, t, parent@, #[trigger] all[m]) ==> names_of(out@).contains(all[m]),
            names_of(out@).no_duplicates(),
            in_stack_order(s, t, names_of(out@)),
        decreases topo@.len() - k,
    {
        if under_exec(state, parent, topo[k].as_str()) {
            let ghost before = names_of(out@);
            out.push(topo[k].clone());
            let ghost old_idx = idx;
            proof {
                idx = idx.push(k as int);
                let o = names_of(out@);
                assert(o == before.push(all[k as int]));
                assert forall|a: int| 0 <= a < before.len() implies before[a] != all[k as int] && path_le(path(s, t, before[a]), path(s, t, all[k as int])) by {
                    assert(out@[a]@ == before[a]);
                    assert(old_idx[a] < k);
                    assert(all[old_idx[a]] != all[k as int]);
                }
                assert forall|a: int| 0 <= a < out@.len() implies 0 <= #[trigger] idx[a] < k + 1 && out@[a]@ == all[idx[a]] by {
                    if a < before.len() {
                        assert(idx[a] == old_idx[a]);
                    }
                }
                assert forall|m: int| 0 <= m < k + 1 && under(s, t, parent@, #[trigger] all[m]) implies o.contains(all[m]) by {
                    if m < k {
                        assert(before.contains(all[m]));
                        let a = choose|a: int| 0 <= a < before.len() && before[a] == all[m];
                        assert(o[a] == all[m]);
                    } else {
                        assert(o[before.len() as int] == all[m]);
                    }
                }
                assert forall|a: int, b: int| 0 <= a < o.len() && 0 <= b < o.len() && a != b implies o[a] != o[b] by {
                    if a < before.len() && b < before.len() {
                    } else if a < before.len() {
                        assert(o[a] == before[a]);
                    } else {
                        assert(o[b] == before[b]);
                    }
                }
                assert forall|a: int, b: int| 0 <= a < b < o.len() implies path_le(path(s, t, o[a]), path(s, t, o[b])) by {
                    if b < before.len() {
                        assert(o[a] == before[a] && o[b] == before[b]);
                    } else {
                        assert(o[a] == before[a]);
                    }
                }
            }
        }
        k = k + 1;
    }
    proof {
        assert forall|i: int|
            0 <= i < s.len() && under(s, t, parent@, #[trigger] s[i].name@) implies names_of(out@).contains(s[i].name@) by {
            lemma_permutation_complete(s, all, i);
            let m = choose|m: int| 0 <= m < all.len() && all[m] == s[i].name@;
            assert(under(s, t, parent@, all[m]));
        }
        assert forall|a: int| 0 <= a < out@.len() implies has_branch(s, #[trigger] out@[a]@) by {
            assert(has_branch(s, all[idx[a]]));
        }
    }
    Ok(out)
}

/// `v` is in strictly increasing name order (so holds no name twice).
pub open spec fn strictly_sorted(v: Seq<Seq<char>>) -> bool {
    forall|i: int, j: int| 0 <= i < j < v.len() ==> name_le(v[i], v[j]) && v[i] != v[j]
}

/// Inserting `x` where it belongs keeps a strictly sorted sequence strictly sorted.
proof fn lemma_insert_sorted(v0: Seq<Seq<char>>, x: Seq<char>, i: int)
    requires
        strictly_sorted(v0),
        0 <= i <= v0.len(),
        forall|j: int| 0 <= j < i ==> name_le(#[trigger] v0[j], x) && v0[j] != x,
        i < v0.len() ==> name_le(x, v0[i]) && v0[i] != x,
    ensures
        strictly_sorted(v0.insert(i, x)),
{
    lemma_name_order();
    let v1 = v0.insert(i, x);
    assert forall|a: int, b: int| 0 <= a < b < v1.len() implies name_le(v1[a], v1[b]) && v1[a] != v1[b] by {
        if b < i {
            assert(v1[a] == v0[a] && v1[b] == v0[b]);
        } else if b == i {
            assert(v1[a] == v0[a] && v1[b] == x);
        } else if a < i {
            assert(v1[a] == v0[a] && v1[b] == v0[b - 1]);
            assert(name_order()(v0[a], x));
            assert(name_order()(x, v0[i]));
            if b - 1 > i {
                assert(name_le(v0[i], v0[b - 1]));
                assert(name_order()(v0[i], v0[b - 1]));
            }
            assert(name_order()(x, v0[b - 1]));
            assert(name_order()(v0[a], v0[b - 1]));
            if v0[a] == v0[b - 1] {
                assert(name_order()(v0[b - 1], x));
            }
        } else if a == i {
            assert(v1[a] == x && v1[b] == v0[b - 1]);
            if b - 1 > i {
                assert(name_le(v0[i], v0[b - 1]) && v0[i] != v0[b - 1]);
                assert(name_order()(x, v0[i]));
                assert(name_order()(v0[i], v0[b - 1]));
                assert(name_order()(x, v0[b - 1]));
                if x == v0[b - 1] {
                    assert(name_order()(v0[b - 1], v0[i]));
                }
            }
        } else {
            assert(v1[a] == v0[a - 1] && v1[b] == v0[b - 1]);
        }
    }
}

/// Insert `x` into the strictly sorted `v`, unless it is there already.
fn insert_sorted(v: &mut Vec<String>, x: String)
    requires
        strictly_sorted(names_of(old(v)@)),
    ensures
        strictly_sorted(names_of(final(v)@)),
        forall|y: Seq<char>|
            #![trigger names_of(final(v)@).contains(y)]
            names_of(final(v)@).contains(y) <==> (names_of(old(v)@).contains(y) || y == x@),
{
    proof {
        lemma_name_order();
    }
    let ghost v0 = names_of(v@);
    let mut i: usize = 0;
    while i < v.len() && !name_le_exec(x.as_str(), v[i].as_str())
        invariant
            v0 == names_of(v@),
            strictly_sorted(v0),
            total_ordering(name_order()),
            i <= v@.len(),
            forall|j: int| 0 <= j < i ==> name_le(#[trigger] v0[j], x@) && v0[j] != x@,
        decreases v@.len() - i,
    {
        proof {
            assert(v0[i as int] == v@[i as int]@);
            assert(name_order()(x@, v0[i as int]) || name_order()(v0[i as int], x@));
            if v0[i as int] == x@ {
                assert(name_order()(x@, x@));
            }
        }
        i = i + 1;
    }
    if i < v.len() && str_eq(v[i].as_str(), x.as_str()) {
        proof {
            assert(v0[i as int] == x@);
        }
        return;
    }
    proof {
        if i < v@.len() {
            assert(v0[i as int] == v@[i as int]@);
            assert(name_le(x@, v0[i as int]) && v0[i as int] != x@);
        }
    }
    v.insert(i, x);
    proof {
        let v1 = names_of(v@);
        assert(v1 =~= v0.insert(i as int, x@));
        lemma_insert_sorted(v0, x@, i as int);
        assert forall|y: Seq<char>| #![trigger v1.contains(y)] v1.contains(y) <==> (v0.contains(y) || y == x@) by {
            if v1.contains(y) {
                let k = choose|k: int| 0 <= k < v1.len() && v1[k] == y;
                if k < i {
                    assert(v0[k] == y);
                } else if k > i {
                    assert(v0[k - 1] == y);
                }
            }
            if v0.contains(y) {
                let k = choose|k: int| 0 <= k < v0.len() && v0[k] == y;
                if k < i {
                    assert(v1[k] == y);
                } else {
                    assert(v1[k + 1] == y);
                }
            }
            if y == x@ {
                assert(v1[i as int] == y);
            }
        }
    }
}

/// `k` is a node of the graph: the name or the parent of some tracked branch.
pub open spec fn graph_key(s: Seq<ManagedBranch>, k: Seq<char>) -> bool {
    exists|i: int| 0 <= i < s.len() && (s[i].name@ == k || s[i].parent@ == k)
}

/// Some tracked branch called `x` has parent `k`.
pub open spec fn child_of(s: Seq<ManagedBranch>, k: Seq<char>, x: Seq<char>) -> bool {
    exists|i: int| 0 <= i < s.len() && s[i].name@ == x && s[i].parent@ == k
}

/// The branch graph: each node with its children, nodes and children in name order.
pub struct StackGraph {
    pub children: Vec<(String, Vec<String>)>,
}

impl StackGraph {
    /// The nodes of the graph, in its order.
    pub open spec fn keys(&self) -> Seq<Seq<char>> {
        self.children@.map_values(|e: (String, Vec<String>)| e.0@)
    }

    /// The graph of the branches `s`: its nodes are exactly the names and parents of
    /// the branches, in strictly increasing name order; each node lists exactly the
    /// branches whose parent it is, in strictly increasing name order.
    pub open spec fn describes(&self, s: Seq<ManagedBranch>) -> bool {
        &&& strictly_sorted(self.keys())
        &&& forall|k: Seq<char>| #[trigger] self.keys().contains(k) <==> graph_key(s, k)
        &&& forall|j: int|
            0 <= j < self.children@.len() ==> {
                let ch = names_of((#[trigger] self.children@[j]).1@);
                &&& strictly_sorted(ch)
                &&& forall|x: Seq<char>| #[trigger] ch.contains(x) <==> child_of(s, self.children@[j].0@, x)
            }
    }
}

/// The names of the branches whose parent is `k`, in strictly increasing name order.
fn children_named(state: &RepoState, k: &str) -> (r: Vec<String>)
    ensures
        strictly_sorted(names_of(r@)),
        forall|x: Seq<char>| #[trigger] names_of(r@).contains(x) <==> child_of(state.branches@, k@, x),
{
    let ghost s = state.branches@;
    let mut out: Vec<String> = Vec::new();
    let mut i: usize = 0;
    while i < state.branches.len()
        invariant
            s == state.branches@,
            i <= s.len(),
            strictly_sorted(names_of(out@)),
            forall|x: Seq<char>|
                #[trigger] names_of(out@).contains(x) <==> exists|j: int|
                    0 <= j < i && s[j].name@ == x && s[j].parent@ == k@,
        decreases s.len() - i,
    {
        if str_eq(state.branches[i].parent.as_str(), k) {
            insert_sorted(&mut out, state.branches[i].name.clone());
        }
        proof {
            assert forall|x: Seq<char>| #[trigger] names_of(out@).contains(x) <==> exists|j: int|
                0 <= j < i + 1 && s[j].name@ == x && s[j].parent@ == k@ by {
                if s[i as int].name@ == x && s[i as int].parent@ == k@ {
                    assert(exists|j: int| 0 <= j < i + 1 && s[j].name@ == x && s[j].parent@ == k@);
                }
            }
        }
        i = i + 1;
    }
    out
}

/// Build the branch graph. Refused, as `validate_graph` refuses, when the graph is not
/// valid.
pub fn build(state: &RepoState) -> (r: Result<StackGraph, StackError>)
    ensures
        r is Ok <==> valid_graph(state.branches@, state.repo.trunk@),
        match r {
            Ok(g) => g.describes(state.branches@),
            Err(e) => exists|m: String|
                e == StackError::InvalidGraph(m) && graph_error(
                    state.branches@,
                    state.repo.trunk@,
                ) == Some(m@),
        },
{
    validate_graph(state)?;
    let ghost s = state.branches@;
    let mut keys: Vec<String> = Vec::new();
    let mut i: usize = 0;
    while i < state.branches.len()
        invariant
            s == state.branches@,
            i <= s.len(),
            strictly_sorted(names_of(keys@)),
            forall|x: Seq<char>|
                #[trigger] names_of(keys@).contains(x) <==> exists|j: int|
                    0 <= j < i && (s[j].name@ == x || s[j].parent@ == x),
        decreases s.len() - i,
    {
        insert_sorted(&mut keys, state.branches[i].parent.clone());
        insert_sorted(&mut keys, state.branches[i].name.clone());
        proof {
            assert forall|x: Seq<char>| #[trigger] names_of(keys@).contains(x) <==> exists|j: int|
                0 <= j < i + 1 && (s[j].name@ == x || s[j].parent@ == x) by {
                if s[i as int].name@ == x || s[i as int].parent@ == x {
                    assert(exists|j: int| 0 <= j < i + 1 && (s[j].name@ == x || s[j].parent@ == x));
                }
            }
        }
        i = i + 1;
    }
    let mut children: Vec<(String, Vec<String>)> = Vec::new();
    let mut k: usize = 0;
    while k < keys.len()
        invariant
            s == state.branches@,
            k <= keys@.len(),
            children@.len() == k,
            forall|j: int| 0 <= j < k ==> (#[trigger] children@[j]).0 == keys@[j],
            forall|j: int|
                0 <= j < k ==> {
                    let ch = names_of((#[trigger] children@[j]).1@);
                    &&& strictly_sorted(ch)
                    &&& forall|x: Seq<char>| #[trigger] ch.contains(x) <==> child_of(s, keys@[j]@, x)
                },
        decreases keys@.len() - k,
    {
        let ch = children_named(state, keys[k].as_str());
        children.push((keys[k].clone(), ch));
        k = k + 1;
    }
    let g = StackGraph { children };
    proof {
        assert(g.keys() =~= names_of(keys@));
        assert forall|x: Seq<char>| #[trigger] g.keys().contains(x) <==> graph_key(s, x) by {
            assert(names_of(keys@).contains(x) <==> exists|j: int|
                0 <= j < s.len() && (s[j].name@ == x || s[j].parent@ == x));
        }
        assert forall|j: int| 0 <= j < g.children@.len() implies {
            let ch = names_of((#[trigger] g.children@[j]).1@);
            &&& strictly_sorted(ch)
            &&& forall|x: Seq<char>| #[trigger] ch.contains(x) <==> child_of(s, g.children@[j].0@, x)
        } by {
            assert(g.children@[j].0 == keys@[j]);
        }
    }
    Ok(g)
}

/// Names of the active branches whose parent is `parent`, in state order.
pub fn active_children(state: &RepoState, parent: &str) -> (r: Vec<String>)
    ensures
        r@.len() == state.branches@.filter(active_child(parent@)).len(),
        forall|k: int|
            0 <= k < r@.len() ==> #[trigger] r@[k] == state.branches@.filter(active_child(parent@))[k].name,
{
    let ghost p = active_child(parent@);
    let ghost s = state.branches@;
    let mut out: Vec<String> = Vec::new();
    let mut i: usize = 0;
    while i < state.branches.len()
        invariant
            s == state.branches@,
            p == active_child(parent@),
            i <= s.len(),
            out@.len() == s.take(i as int).filter(p).len(),
            forall|k: int| 0 <= k < out@.len() ==> #[trigger] out@[k] == s.take(i as int).filter(p)[k].name,
        decreases s.len() - i,
    {
        proof {
            assert(s.take(i + 1) =~= s.take(i as int).push(s[i as int]));
            s.take(i as int).lemma_filter_push(s[i as int], p);
        }
        let b = &state.branches[i];
        if str_eq(b.parent.as_str(), parent) && b.status == BranchStatus::Active {
            out.push(b.name.clone());
        }
        i = i + 1;
    }
    assert(s.take(i as int) =~= s);
    out
}

/// Branches whose parent is `parent` and that are active.
pub open spec fn active_child(parent: Seq<char>) -> spec_fn(ManagedBranch) -> bool {
    |b: ManagedBranch| b.parent@ == parent && b.status == BranchStatus::Active
}

} // verus!
