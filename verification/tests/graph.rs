use stacked_prs::error::StackError;
use stacked_prs::graph::{active_children, build, descendants_of, descendants_topo, validate_graph};
use stacked_prs::state::{BranchStatus, ManagedBranch, RepoFacts, RepoState};

fn branch(name: &str, parent: &str) -> ManagedBranch {
    ManagedBranch::new(name.to_string(), parent.to_string(), "tip".to_string())
}

fn state_of(branches: Vec<ManagedBranch>) -> RepoState {
    let mut state = RepoState::new("develop".to_string(), "origin".to_string());
    state.branches = branches;
    state
}

#[test]
fn topo_order_lists_parents_before_children_and_roots_by_name() {
    let state = state_of(vec![
        branch("b2", "b"),
        branch("b", "develop"),
        branch("a", "develop"),
        branch("b1", "b"),
        branch("a1", "a"),
        branch("loose", "gone"),
    ]);
    assert_eq!(
        descendants_topo(&state).unwrap(),
        vec!["a", "a1", "b", "b1", "b2", "loose"]
    );
}

#[test]
fn descendants_of_lists_what_lies_below() {
    let state = state_of(vec![
        branch("a", "develop"),
        branch("a1", "a"),
        branch("a2", "a1"),
        branch("b", "develop"),
    ]);
    assert_eq!(descendants_of(&state, "a").unwrap(), vec!["a1", "a2"]);
    assert_eq!(descendants_of(&state, "a2").unwrap(), Vec::<String>::new());
    assert_eq!(
        descendants_of(&state, "develop").unwrap(),
        vec!["a", "a1", "a2", "b"]
    );
    assert_eq!(
        descendants_of(&state, "zzz"),
        Err(StackError::InvalidGraph("branch is not tracked: zzz".to_string()))
    );
}

#[test]
fn invalid_graphs_are_refused_with_their_reason() {
    let dup = state_of(vec![branch("a", "develop"), branch("a", "develop")]);
    assert_eq!(
        validate_graph(&dup),
        Err(StackError::InvalidGraph("duplicate branch 'a'".to_string()))
    );
    let selfp = state_of(vec![branch("a", "develop"), branch("s", "s")]);
    assert_eq!(
        validate_graph(&selfp),
        Err(StackError::InvalidGraph("branch 's' cannot parent itself".to_string()))
    );
    let cycle = state_of(vec![branch("x", "y"), branch("y", "x")]);
    assert_eq!(
        descendants_topo(&cycle),
        Err(StackError::InvalidGraph("cycle detected at 'x'".to_string()))
    );
    assert!(build(&cycle).is_err());
}

#[test]
fn graph_lists_children_in_name_order() {
    let state = state_of(vec![
        branch("b", "develop"),
        branch("a", "develop"),
        branch("a2", "a"),
        branch("a1", "a"),
    ]);
    let g = build(&state).unwrap();
    let keys: Vec<&str> = g.children.iter().map(|(k, _)| k.as_str()).collect();
    assert_eq!(keys, vec!["a", "a1", "a2", "b", "develop"]);
    assert_eq!(g.children[0].1, vec!["a1", "a2"]);
    assert!(g.children[1].1.is_empty());
    assert_eq!(g.children[4].1, vec!["a", "b"]);
}

#[test]
fn active_children_skip_merged_ones() {
    let mut state = state_of(vec![
        branch("a", "develop"),
        branch("a1", "a"),
        branch("a2", "a"),
    ]);
    state.branches[1].status = BranchStatus::Merged;
    assert_eq!(active_children(&state, "a"), vec!["a2"]);
    assert!(active_children(&state, "a2").is_empty());
}

#[test]
fn state_validation_reports_first_problem() {
    let mut state = state_of(vec![branch("a", "develop"), branch("b", "a")]);
    let facts = RepoFacts {
        trunk_exists: true,
        tip_exists: vec![true, true],
        branch_exists: vec![true, false],
        parent_exists: vec![true, true],
    };
    assert_eq!(
        state.validate(&facts),
        Err(StackError::BranchMissing("b".to_string()))
    );
    assert_eq!(state.validate_metadata(&facts), Ok(()));
    let no_tip = RepoFacts {
        trunk_exists: true,
        tip_exists: vec![true, false],
        branch_exists: vec![true, true],
        parent_exists: vec![true, true],
    };
    assert_eq!(
        state.validate(&no_tip),
        Err(StackError::CommitMissing("tip".to_string()))
    );
    state.version = 2;
    assert_eq!(state.check_structure(), Err(StackError::UnsupportedVersion(2)));
    state.version = 1;
    state.branches.push(branch("develop", "a"));
    assert_eq!(
        state.check_structure(),
        Err(StackError::InvalidGraph("trunk branch cannot be tracked".to_string()))
    );
}

#[test]
fn state_edits() {
    let mut state = RepoState::new("develop".to_string(), "origin".to_string());
    state.add_branch(branch("a", "develop")).unwrap();
    assert_eq!(
        state.add_branch(branch("a", "develop")),
        Err(StackError::BranchAlreadyTracked("a".to_string()))
    );
    state.add_branch(branch("b", "a")).unwrap();
    assert!(state.is_tracked("b"));
    assert_eq!(state.record_rebase("b", "new".to_string()), Ok(()));
    assert_eq!(state.branch("b").unwrap().recorded_parent_tip, "new");
    assert_eq!(
        state.record_rebase("zz", "new".to_string()),
        Err(StackError::BranchDisappeared("zz".to_string()))
    );
    state.remove_branch("a");
    assert!(!state.is_tracked("a"));
    assert_eq!(state.branches.len(), 1);
    assert_eq!(
        RepoState::path_in("/r"),
        vec!["/r", ".stacked-prs", "state.json"]
    );
}
