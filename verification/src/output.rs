//! The status report: one line of facts per tracked branch, in stack order.
use vstd::prelude::*;
use vstd::string::*;

use crate::error::StackError;
use crate::graph::{descendants_topo, in_stack_order, is_permutation_of_names, valid_graph};
use crate::order::names_of;
use crate::rebase::{effective_parent, effective_parent_spec};
use crate::rebase::RebasePlan;
use crate::state::{find_branch, has_branch, BranchStatus, ManagedBranch, PendingReparent, RepoState};

verus! {

/// The status of one tracked branch.
#[derive(Debug, Clone)]
pub struct BranchStatusReport {
    pub name: String,
    pub parent: String,
    pub effective_parent: String,
    pub status: String,
    pub drift: String,
    pub recorded_parent_tip: String,
    pub current_parent_tip: String,
    pub pr_target: String,
}

/// The first seven characters of a commit id (all of it when shorter).
pub open spec fn short_sha_spec(sha: Seq<char>) -> Seq<char> {
    if sha.len() <= 7 {
        sha
    } else {
        sha.take(7)
    }
}

/// The abbreviated commit id: its first seven characters.
pub fn short_sha(sha: &str) -> (r: String)
    ensures
        r@ == short_sha_spec(sha@),
{
    let n = sha.unicode_len();
    let end = if n < 7 {
        n
    } else {
        7
    };
    let r = sha.substring_char(0, end).to_string();
    proof {
        if n <= 7 {
            assert(sha@.subrange(0, n as int) =~= sha@);
        }
    }
    r
}

pub open spec fn status_word(status: BranchStatus) -> Seq<char> {
    match status {
        BranchStatus::Active => "active"@,
        BranchStatus::Merged => "merged"@,
        BranchStatus::Archived => "archived"@,
    }
}

/// The word for a branch status.
fn format_status(status: &BranchStatus) -> (r: String)
    ensures
        r@ == status_word(*status),
{
    match status {
        BranchStatus::Active => String::from_str("active"),
        BranchStatus::Merged => String::from_str("merged"),
        BranchStatus::Archived => String::from_str("archived"),
    }
}

/// How a branch stands against its parent: missing locally, parent missing, merged,
/// up to date (recorded parent tip is the parent's current tip), or needing a rebase.
pub open spec fn drift_word(b: ManagedBranch, exists: bool, tip: Option<String>) -> Seq<char> {
    if !exists {
        "missing"@
    } else if tip is None {
        "parent_missing"@
    } else if b.status == BranchStatus::Merged {
        "merged"@
    } else if b.recorded_parent_tip@ == tip->0@ {
        "up_to_date"@
    } else {
        "needs_rebase"@
    }
}

/// `rep` reports branch `b`, which exists locally when `exists`, and whose effective
/// parent `eff` currently has tip `tip` (when it resolves).
pub open spec fn report_of(
    rep: BranchStatusReport,
    b: ManagedBranch,
    eff: Seq<char>,
    exists: bool,
    tip: Option<String>,
) -> bool {
    &&& rep.name == b.name
    &&& rep.parent == b.parent
    &&& rep.effective_parent@ == eff
    &&& rep.status@ == (if exists {
        status_word(b.status)
    } else {
        "missing"@
    })
    &&& rep.drift@ == drift_word(b, exists, tip)
    &&& rep.recorded_parent_tip@ == short_sha_spec(b.recorded_parent_tip@)
    &&& rep.current_parent_tip@ == (match tip {
        Some(t) => short_sha_spec(t@),
        None => "unknown"@,
    })
    &&& rep.pr_target@ == eff
}

fn report_for(b: &ManagedBranch, eff: String, exists: bool, tip: &Option<String>) -> (r:
    BranchStatusReport)
    ensures
        report_of(r, *b, eff@, exists, *tip),
{
    let drift = if !exists {
        String::from_str("missing")
    } else if tip.is_none() {
        String::from_str("parent_missing")
    } else if b.status == BranchStatus::Merged {
        String::from_str("merged")
    } else if crate::text::str_eq(
        b.recorded_parent_tip.as_str(),
        tip.as_ref().unwrap().as_str(),
    ) {
        String::from_str("up_to_date")
    } else {
        String::from_str("needs_rebase")
    };
    let status = if exists {
        format_status(&b.status)
    } else {
        String::from_str("missing")
    };
    let current = match tip {
        Some(t) => short_sha(t.as_str()),
        None => String::from_str("unknown"),
    };
    BranchStatusReport {
        name: b.name.clone(),
        parent: b.parent.clone(),
        effective_parent: eff.clone(),
        status,
        drift,
        recorded_parent_tip: short_sha(b.recorded_parent_tip.as_str()),
        current_parent_tip: current,
        pr_target: eff,
    }
}

/// The status of every tracked branch, in stack order. `branch_exists[i]` says whether
/// branch `i` exists locally and `parent_tips[i]` is the current tip of its effective
/// parent, when that resolves.
pub fn build_status_report(
    state: &RepoState,
    branch_exists: &Vec<bool>,
    parent_tips: &Vec<Option<String>>,
) -> (r: Result<Vec<BranchStatusReport>, StackError>)
    requires
        !has_branch(state.branches@, state.repo.trunk@),
        branch_exists@.len() == state.branches@.len(),
        parent_tips@.len() == state.branches@.len(),
    ensures
        r is Ok <==> valid_graph(state.branches@, state.repo.trunk@),
        match r {
            Ok(v) => {
                let names = v@.map_values(|x: BranchStatusReport| x.name@);
                &&& is_permutation_of_names(state.branches@, names)
                &&& in_stack_order(state.branches@, state.repo.trunk@, names)
                &&& forall|k: int|
                    0 <= k < v@.len() ==> {
                        let i = find_branch(state.branches@, #[trigger] v@[k].name@)->0;
                        report_of(
                            v@[k],
                            state.branches@[i],
                            effective_parent_spec(
                                state.branches@,
                                state.repo.trunk@,
                                state.branches@[i],
                            ),
                            branch_exists@[i],
                            parent_tips@[i],
                        )
                    }
            },
            Err(e) => exists|m: String|
                e == StackError::InvalidGraph(m) && crate::graph::graph_error(
                    state.branches@,
                    state.repo.trunk@,
                ) == Some(m@),
        },
{
    let order = descendants_topo(state)?;
    let ghost s = state.branches@;
    let mut reports: Vec<BranchStatusReport> = Vec::new();
    let mut k: usize = 0;
    while k < order.len()
        invariant
            s == state.branches@,
            branch_exists@.len() == s.len(),
            parent_tips@.len() == s.len(),
            forall|x: int| 0 <= x < order@.len() ==> has_branch(s, #[trigger] names_of(order@)[x]),
            k <= order@.len(),
            reports@.len() == k,
            forall|x: int|
                0 <= x < k ==> #[trigger] reports@[x].name@ == order@[x]@ && {
                    let i = find_branch(s, reports@[x].name@)->0;
                    report_of(
                        reports@[x],
                        s[i],
                        effective_parent_spec(s, state.repo.trunk@, s[i]),
                        branch_exists@[i],
                        parent_tips@[i],
                    )
                },
        decreases order@.len() - k,
    {
        assert(has_branch(s, names_of(order@)[k as int]));
        let i = match state.branch_index(order[k].as_str()) {
            Some(i) => i,
            None => {
                assert(false);
                0
            },
        };
        let b = &state.branches[i];
        let eff = effective_parent(state, b);
        let rep = report_for(b, eff, branch_exists[i], &parent_tips[i]);
        let ghost before = reports@;
        proof {
            crate::state::lemma_has_branch_found(s, order@[k as int]@);
            assert(rep.name@ == order@[k as int]@);
        }
        reports.push(rep);
        proof {
            assert forall|x: int| 0 <= x < k + 1 implies #[trigger] reports@[x].name@ == order@[x]@ && {
                let i = find_branch(s, reports@[x].name@)->0;
                report_of(
                    reports@[x],
                    s[i],
                    effective_parent_spec(s, state.repo.trunk@, s[i]),
                    branch_exists@[i],
                    parent_tips@[i],
                )
            } by {
                if x < k {
                    assert(reports@[x] == before[x]);
                }
            }
        }
        k = k + 1;
    }
    proof {
        let names = reports@.map_values(|x: BranchStatusReport| x.name@);
        assert(names =~= names_of(order@));
    }
    Ok(reports)
}

/// The line that announces a planned rebase.
pub open spec fn rebase_plan_line_spec(plan: RebasePlan) -> Seq<char> {
    "rebase "@ + plan.branch@ + ": parent="@ + plan.configured_parent@ + " effective_parent="@
        + plan.effective_parent@ + " old_base="@ + short_sha_spec(plan.old_base@) + " new_base="@
        + short_sha_spec(plan.new_base@)
}

/// The line that announces a planned rebase.
pub fn print_rebase_plan(plan: &RebasePlan) -> (r: String)
    ensures
        r@ == rebase_plan_line_spec(*plan),
{
    let mut r = String::from_str("rebase ");
    r.append(plan.branch.as_str());
    r.append(": parent=");
    r.append(plan.configured_parent.as_str());
    r.append(" effective_parent=");
    r.append(plan.effective_parent.as_str());
    r.append(" old_base=");
    r.append(short_sha(plan.old_base.as_str()).as_str());
    r.append(" new_base=");
    r.append(short_sha(plan.new_base.as_str()).as_str());
    r
}

/// The text lines that describe one branch's status.
pub open spec fn status_lines_spec(b: BranchStatusReport) -> Seq<Seq<char>> {
    seq![
        "- "@ + b.name@ + " ["@ + b.status@ + "]"@,
        "  parent: "@ + b.parent@,
        "  effective parent: "@ + b.effective_parent@,
        "  drift: "@ + b.drift@,
        "  recorded parent tip: "@ + b.recorded_parent_tip@,
        "  current parent tip: "@ + b.current_parent_tip@,
        "  pr target: "@ + b.pr_target@,
    ]
}

fn labeled(label: &str, value: &str) -> (r: String)
    ensures
        r@ == label@ + value@,
{
    let mut r = label.to_string();
    r.append(value);
    r
}

/// The status as text: trunk's name, then the lines of each branch in report order.
pub fn print_status_text(state: &RepoState, report: &Vec<BranchStatusReport>) -> (r: Vec<String>)
    ensures
        r@.len() == 1 + 7 * report@.len(),
        r@[0]@ == state.repo.trunk@,
        forall|k: int, j: int|
            0 <= k < report@.len() && 0 <= j < 7 ==> (#[trigger] r@[1 + 7 * k + j])@ == status_lines_spec(
                #[trigger] report@[k],
            )[j],
{
    let mut out: Vec<String> = Vec::new();
    out.push(state.repo.trunk.clone());
    let mut k: usize = 0;
    while k < report.len()
        invariant
            k <= report@.len(),
            out@.len() == 1 + 7 * k,
            out@[0]@ == state.repo.trunk@,
            forall|x: int, j: int|
                0 <= x < k && 0 <= j < 7 ==> (#[trigger] out@[1 + 7 * x + j])@ == status_lines_spec(
                    #[trigger] report@[x],
                )[j],
        decreases report@.len() - k,
    {
        let b = &report[k];
        let ghost before = out@;
        let mut head = labeled("- ", b.name.as_str());
        head.append(" [");
        head.append(b.status.as_str());
        head.append("]");
        out.push(head);
        out.push(labeled("  parent: ", b.parent.as_str()));
        out.push(labeled("  effective parent: ", b.effective_parent.as_str()));
        out.push(labeled("  drift: ", b.drift.as_str()));
        out.push(labeled("  recorded parent tip: ", b.recorded_parent_tip.as_str()));
        out.push(labeled("  current parent tip: ", b.current_parent_tip.as_str()));
        out.push(labeled("  pr target: ", b.pr_target.as_str()));
        proof {
            assert forall|x: int, j: int|
                0 <= x < k + 1 && 0 <= j < 7 implies (#[trigger] out@[1 + 7 * x + j])@ == status_lines_spec(
                    #[trigger] report@[x],
                )[j] by {
                if x < k {
                    assert(out@[1 + 7 * x + j] == before[1 + 7 * x + j]);
                } else {
                    assert(1 + 7 * x + j == before.len() + j);
                }
            }
        }
        k = k + 1;
    }
    out
}

/// The lines that tell of a pending reparent in the text status.
pub open spec fn pending_lines_spec(p: PendingReparent) -> Seq<Seq<char>> {
    seq![
        "Pending operation:"@,
        "  reparent "@ + p.branch@ + ": "@ + p.old_parent@ + " -> "@ + p.new_parent@,
        "  continue: stack reparent --continue"@,
        "  abort: stack reparent --abort"@,
    ]
}

/// The lines that tell of a pending reparent in the text status.
pub fn pending_lines(pending: &PendingReparent) -> (r: Vec<String>)
    ensures
        r@.len() == 4,
        forall|j: int| 0 <= j < 4 ==> (#[trigger] r@[j])@ == pending_lines_spec(*pending)[j],
{
    let mut second = labeled("  reparent ", pending.branch.as_str());
    second.append(": ");
    second.append(pending.old_parent.as_str());
    second.append(" -> ");
    second.append(pending.new_parent.as_str());
    let r = vec![
        String::from_str("Pending operation:"),
        second,
        String::from_str("  continue: stack reparent --continue"),
        String::from_str("  abort: stack reparent --abort"),
    ];
    r
}

/// Law: for a branch that exists locally and whose effective parent resolves, the
/// report's drift is `merged` exactly when the branch is merged, whatever its recorded
/// and current parent tips; otherwise it is `up_to_date` when the recorded parent tip is
/// the current one and `needs_rebase` when not.
pub proof fn lemma_drift_of_present_branch(
    rep: BranchStatusReport,
    b: ManagedBranch,
    eff: Seq<char>,
    tip: String,
)
    requires
        report_of(rep, b, eff, true, Some(tip)),
    ensures
        rep.drift@ == "merged"@ <==> b.status == BranchStatus::Merged,
        b.status != BranchStatus::Merged && b.recorded_parent_tip@ == tip@ ==> rep.drift@ == "up_to_date"@,
        b.status != BranchStatus::Merged && b.recorded_parent_tip@ != tip@ ==> rep.drift@ == "needs_rebase"@,
{
    reveal_strlit("merged");
    reveal_strlit("up_to_date");
    reveal_strlit("needs_rebase");
    assert("merged"@[0] != "up_to_date"@[0]);
    assert("merged"@[0] != "needs_rebase"@[0]);
}

/// Law: a branch that does not exist locally is reported `missing`, in status and
/// drift; one whose effective parent does not resolve drifts `parent_missing`.
pub proof fn lemma_drift_of_absent_parts(
    rep: BranchStatusReport,
    b: ManagedBranch,
    eff: Seq<char>,
    exists: bool,
    tip: Option<String>,
)
    requires
        report_of(rep, b, eff, exists, tip),
    ensures
        !exists ==> rep.drift@ == "missing"@ && rep.status@ == "missing"@,
        exists && tip is None ==> rep.drift@ == "parent_missing"@,
{
}

} // verus!
