use stacked_prs::cleanup::{cleanup_candidates, has_existing_descendant};
use stacked_prs::cli::{InitArgs, ReparentArgs, SyncArgs};
use stacked_prs::commands::{
    check_abort_args, check_continue_args, check_create, check_no_pending, check_reparent,
    check_track, create_branch_commands, create_parent_plan, doctor_message, ensure_parent_local,
    finalize_reparent, init, load_or_init_default_state, mark_merged, merge_candidates,
    reparent_line, reparent_needs_rebase, reparent_pending, require_pending, select_candidate,
    selection_menu, track_branch_with_parent, track_parent,
};
use stacked_prs::error::StackError;
use stacked_prs::git::GitRepo;
use stacked_prs::output::{build_status_report, pending_lines, print_status_text};
use stacked_prs::rebase::{effective_parent, plan_rebase};
use stacked_prs::state::{BranchStatus, ManagedBranch, PendingReparent, RepoState};
use stacked_prs::sync::{finish_actions, restack_queue, sync_push, SyncAction};

fn branch(name: &str, parent: &str, tip: &str) -> ManagedBranch {
    ManagedBranch::new(name.to_string(), parent.to_string(), tip.to_string())
}

fn two_stack() -> RepoState {
    let mut state = RepoState::new("develop".to_string(), "origin".to_string());
    state.add_branch(branch("feature/a", "develop", "d0")).unwrap();
    state.add_branch(branch("feature/b", "feature/a", "a0")).unwrap();
    state
}

fn reparent_args(branch: Option<&str>, parent: Option<&str>) -> ReparentArgs {
    ReparentArgs {
        branch: branch.map(str::to_string),
        parent: parent.map(str::to_string),
        no_rebase: false,
        continue_reparent: false,
        abort: false,
        dry_run: false,
    }
}

#[test]
fn init_creates_state_file() {
    let state = init(
        false,
        "/r/.stacked-prs/state.json",
        InitArgs { trunk: "main".to_string(), remote: "upstream".to_string() },
    )
    .unwrap();
    assert_eq!(state.version, 1);
    assert_eq!(state.repo.trunk, "main");
    assert_eq!(state.repo.remote, "upstream");
    assert!(state.branches.is_empty());
    let again = init(
        true,
        "/r/.stacked-prs/state.json",
        InitArgs { trunk: "main".to_string(), remote: "upstream".to_string() },
    );
    assert_eq!(
        again.unwrap_err(),
        StackError::StateExists("/r/.stacked-prs/state.json".to_string())
    );
}

#[test]
fn track_auto_initializes_repo_state() {
    let (mut state, fresh) = load_or_init_default_state(None);
    assert!(fresh);
    assert_eq!(state.repo.trunk, "develop");
    assert_eq!(state.repo.remote, "origin");
    track_branch_with_parent(
        &mut state,
        "feature/a".to_string(),
        "develop".to_string(),
        true,
        true,
        "d0".to_string(),
    )
    .unwrap();
    assert_eq!(state.branches[0].name, "feature/a");
    assert_eq!(state.branches[0].parent, "develop");
    assert_eq!(state.branches[0].recorded_parent_tip, "d0");
    let (kept, fresh) = load_or_init_default_state(Some(state.clone()));
    assert!(!fresh);
    assert_eq!(kept.branches.len(), 1);
}

#[test]
fn track_defaults_to_current_branch_and_trunk_parent() {
    let state = RepoState::new("develop".to_string(), "origin".to_string());
    assert_eq!(track_parent(&state, None), "develop");
    assert_eq!(track_parent(&state, Some("feature/x".to_string())), "feature/x");
}

#[test]
fn track_refusals() {
    let state = two_stack();
    assert_eq!(check_track(&state, "", "develop", true, true), Err(StackError::DetachedHead));
    assert_eq!(
        check_track(&state, "develop", "develop", true, true),
        Err(StackError::TrunkNotTrackable)
    );
    assert_eq!(
        check_track(&state, "feature/a", "develop", true, true),
        Err(StackError::BranchAlreadyTracked("feature/a".to_string()))
    );
    assert_eq!(
        check_track(&state, "new", "develop", false, true),
        Err(StackError::BranchMissing("new".to_string()))
    );
    assert_eq!(
        check_track(&state, "new", "gone", true, false),
        Err(StackError::ParentNotLocal("gone".to_string()))
    );
    assert_eq!(check_track(&state, "new", "develop", true, false), Ok(()));
}

#[test]
fn create_tracks_branch_and_checks_it_out() {
    let mut state = RepoState::new("develop".to_string(), "origin".to_string());
    assert_eq!(check_create(&state, "feature/a", false), Ok(()));
    assert_eq!(create_parent_plan(&state, "develop", false, true), Ok(false));
    let repo = GitRepo { root: "/r".to_string() };
    let commands = create_branch_commands(&repo, "feature/a", "develop");
    assert_eq!(commands[0].args, vec!["branch", "feature/a", "develop"]);
    assert_eq!(commands[1].args, vec!["checkout", "feature/a"]);
    state.add_branch(branch("feature/a", "develop", "d0")).unwrap();
    assert_eq!(state.branch("feature/a").unwrap().parent, "develop");
    assert_eq!(
        check_create(&state, "feature/a", false),
        Err(StackError::BranchAlreadyTracked("feature/a".to_string()))
    );
    assert_eq!(
        check_create(&state, "feature/z", true),
        Err(StackError::BranchExists("feature/z".to_string()))
    );
    assert_eq!(
        create_parent_plan(&state, "nope", true, false),
        Err(StackError::ParentMissing("nope".to_string()))
    );
}

#[test]
fn create_auto_tracks_untracked_current_branch() {
    let state = RepoState::new("develop".to_string(), "origin".to_string());
    assert_eq!(create_parent_plan(&state, "feature/a", false, true), Ok(true));
    assert_eq!(create_parent_plan(&state, "feature/a", true, true), Ok(false));
}

#[test]
fn reparent_updates_state_after_manual_rebase() {
    let mut state = RepoState::new("develop".to_string(), "origin".to_string());
    state.add_branch(branch("feature/a", "develop", "d0")).unwrap();
    state.add_branch(branch("feature/base", "develop", "d0")).unwrap();
    let (b, p) = check_reparent(&state, reparent_args(Some("feature/a"), Some("feature/base"))).unwrap();
    assert_eq!((b.as_str(), p.as_str()), ("feature/a", "feature/base"));
    let pending = reparent_pending(&state, &b, &p, "base1234567");
    assert_eq!(pending.old_parent, "develop");
    assert_eq!(pending.old_parent_tip, "d0");
    assert_eq!(
        reparent_line(&pending),
        "reparent feature/a: parent=feature/base old_base=d0 new_base=base123"
    );
    let mut args = reparent_args(None, None);
    args.no_rebase = true;
    assert!(!reparent_needs_rebase(&args, &pending));
    assert!(reparent_needs_rebase(&reparent_args(None, None), &pending));
    finalize_reparent(&mut state, &pending).unwrap();
    let moved = state.branch("feature/a").unwrap();
    assert_eq!(moved.parent, "feature/base");
    assert_eq!(moved.recorded_parent_tip, "base1234567");
    let report = build_status_report(
        &state,
        &vec![true, true],
        &vec![Some("base1234567".to_string()), Some("d0".to_string())],
    )
    .unwrap();
    let lines = print_status_text(&state, &report);
    assert!(lines.iter().any(|l| l == "  drift: up_to_date"));
}

#[test]
fn reparent_refusals() {
    let state = two_stack();
    assert_eq!(
        check_reparent(&state, reparent_args(None, Some("develop"))),
        Err(StackError::MissingReparentBranch)
    );
    assert_eq!(
        check_reparent(&state, reparent_args(Some("feature/b"), None)),
        Err(StackError::MissingReparentParent)
    );
    assert_eq!(
        check_reparent(&state, reparent_args(Some("feature/b"), Some("feature/b"))),
        Err(StackError::SelfParent("feature/b".to_string()))
    );
    assert_eq!(
        check_reparent(&state, reparent_args(Some("develop"), Some("feature/a"))),
        Err(StackError::TrunkReparent)
    );
    assert_eq!(
        check_reparent(&state, reparent_args(Some("x"), Some("develop"))),
        Err(StackError::BranchNotTracked("x".to_string()))
    );
    assert_eq!(
        check_reparent(&state, reparent_args(Some("feature/b"), Some("y"))),
        Err(StackError::ParentNotTracked("y".to_string()))
    );
    assert_eq!(
        ensure_parent_local("feature/a", false),
        Err(StackError::ParentNotLocal("feature/a".to_string()))
    );
    assert_eq!(check_no_pending(true), Err(StackError::ReparentPending));
    assert_eq!(check_no_pending(false), Ok(()));
    assert_eq!(require_pending(None).unwrap_err(), StackError::NoPendingReparent);
}

#[test]
fn conflicted_reparent_can_be_aborted() {
    let pending = PendingReparent::new(
        "feature/a".to_string(),
        "develop".to_string(),
        "feature/base".to_string(),
        "d0".to_string(),
        "b0".to_string(),
    );
    assert_eq!(pending.operation, "reparent");
    let lines = pending_lines(&pending);
    assert_eq!(
        lines,
        vec![
            "Pending operation:",
            "  reparent feature/a: develop -> feature/base",
            "  continue: stack reparent --continue",
            "  abort: stack reparent --abort"
        ]
    );
    let mut abort = reparent_args(None, None);
    abort.abort = true;
    assert_eq!(check_abort_args(&abort), Ok(()));
    assert_eq!(check_continue_args(&abort), Err(StackError::ContinueConflict));
    let mut both = abort.clone();
    both.continue_reparent = true;
    assert_eq!(check_abort_args(&both), Err(StackError::AbortConflict));
    assert_eq!(require_pending(Some(pending.clone())).unwrap().branch, "feature/a");
}

#[test]
fn status_reports_missing_tracked_branch() {
    let mut state = RepoState::new("develop".to_string(), "origin".to_string());
    state.add_branch(branch("feature/a", "develop", "d0")).unwrap();
    let report = build_status_report(&state, &vec![false], &vec![Some("d0".to_string())]).unwrap();
    assert_eq!(report[0].status, "missing");
    assert_eq!(report[0].drift, "missing");
    let lines = print_status_text(&state, &report);
    assert_eq!(lines[0], "develop");
    assert_eq!(lines[1], "- feature/a [missing]");
}

#[test]
fn cleanup_prunes_missing_tracked_branches() {
    let state = two_stack();
    let (delete, prune) = cleanup_candidates(&state, "develop", &vec![false, false]);
    assert!(delete.is_empty());
    assert_eq!(prune, vec!["feature/a", "feature/b"]);
    // A missing branch with an existing branch below it stays.
    let (_, prune) = cleanup_candidates(&state, "develop", &vec![false, true]);
    assert!(prune.is_empty());
    assert!(has_existing_descendant(&state, &vec![false, true], "feature/a"));
    assert!(!has_existing_descendant(&state, &vec![true, false], "feature/a"));
}

#[test]
fn dirty_worktree_blocks_rebase() {
    let repo = GitRepo { root: "/r".to_string() };
    assert_eq!(repo.ensure_clean(false), Err(StackError::DirtyWorktree));
    assert_eq!(repo.ensure_clean(true), Ok(()));
}

#[test]
fn cleanup_deletes_merged_leaf_branch() {
    let mut state = RepoState::new("develop".to_string(), "origin".to_string());
    state.add_branch(branch("feature/a", "develop", "d0")).unwrap();
    mark_merged(&mut state, "feature/a").unwrap();
    let (delete, prune) = cleanup_candidates(&state, "develop", &vec![true]);
    assert_eq!(delete, vec!["feature/a"]);
    assert!(prune.is_empty());
    // Never the current branch.
    let (delete, _) = cleanup_candidates(&state, "feature/a", &vec![true]);
    assert!(delete.is_empty());
}

#[test]
fn cleanup_keeps_merged_branch_with_active_child() {
    let mut state = two_stack();
    mark_merged(&mut state, "feature/a").unwrap();
    let (delete, _) = cleanup_candidates(&state, "develop", &vec![true, true]);
    assert!(delete.is_empty());
}

#[test]
fn mark_merged_prompts_for_branch_when_omitted() {
    let mut state = two_stack();
    let candidates = merge_candidates(&state).unwrap();
    assert_eq!(
        selection_menu(&candidates),
        vec!["  1. feature/a", "  2. feature/b"]
    );
    let chosen = select_candidate(&candidates, "2\n").unwrap();
    assert_eq!(chosen, "feature/b");
    mark_merged(&mut state, &chosen).unwrap();
    assert_eq!(state.branches[0].status, BranchStatus::Active);
    assert_eq!(state.branches[1].status, BranchStatus::Merged);
}

#[test]
fn menu_selection_edges() {
    let candidates = vec!["a".to_string(), "b".to_string()];
    assert_eq!(select_candidate(&candidates, " 0 ").unwrap(), "a");
    assert_eq!(select_candidate(&candidates, "+2").unwrap(), "b");
    assert_eq!(select_candidate(&candidates, "3"), Err(StackError::InvalidSelection(3)));
    assert_eq!(select_candidate(&candidates, "x"), Err(StackError::SelectionNotNumber));
    assert_eq!(select_candidate(&candidates, ""), Err(StackError::SelectionNotNumber));
    assert_eq!(
        select_candidate(&candidates, "99999999999999999999999"),
        Err(StackError::SelectionNotNumber)
    );
    let none = RepoState::new("develop".to_string(), "origin".to_string());
    assert_eq!(merge_candidates(&none), Err(StackError::NoActiveBranches));
}

#[test]
fn mark_merged_allows_missing_local_branch() {
    let mut state = two_stack();
    mark_merged(&mut state, "feature/a").unwrap();
    assert_eq!(state.branches[0].status, BranchStatus::Merged);
    assert_eq!(
        mark_merged(&mut state, "nope"),
        Err(StackError::BranchNotTracked("nope".to_string()))
    );
}

#[test]
fn sync_rebases_child_after_parent_squash_merge() {
    let mut state = two_stack();
    mark_merged(&mut state, "feature/a").unwrap();
    let child = state.branch("feature/b").unwrap().clone();
    assert_eq!(effective_parent(&state, &child), "develop");
    let order = stacked_prs::graph::descendants_topo(&state).unwrap();
    assert_eq!(restack_queue(&state, &order).unwrap(), vec!["feature/b"]);
    let plan = plan_rebase(&state, "feature/b", None, "d1").unwrap().unwrap();
    assert_eq!(plan.branch, "feature/b");
    assert_eq!(plan.configured_parent, "feature/a");
    assert_eq!(plan.effective_parent, "develop");
    assert_eq!(plan.old_base, "a0");
    assert_eq!(plan.new_base, "d1");
    assert_eq!(plan_rebase(&state, "feature/b", None, "a0").unwrap().is_none(), true);
}

#[test]
fn sync_push_pushes_active_branch_without_rebase_plan() {
    let state = {
        let mut s = RepoState::new("develop".to_string(), "origin".to_string());
        s.add_branch(branch("feature/a", "develop", "d0")).unwrap();
        s
    };
    let args = SyncArgs {
        all: true,
        from: None,
        continue_sync: false,
        dry_run: false,
        push: true,
        no_pr: true,
    };
    let actions = finish_actions(&state, &args.options(), false, "feature/a", false).unwrap();
    assert_eq!(actions.len(), 3);
    assert!(matches!(&actions[0], SyncAction::Checkout(b) if b == "feature/a"));
    assert!(matches!(&actions[1], SyncAction::Push(b) if b == "feature/a"));
    assert!(matches!(&actions[2], SyncAction::CheckTrunk(b) if b == "origin/develop"));
    let repo = GitRepo { root: "/r".to_string() };
    assert_eq!(
        sync_push(&repo, &state, "feature/a").args,
        vec!["push", "--force-with-lease", "--set-upstream", "origin", "feature/a"]
    );
}

#[test]
fn doctor_messages() {
    assert_eq!(doctor_message(true), "Doctor OK: repository and stack state look healthy");
    assert_eq!(doctor_message(false), "Doctor warning: repository has uncommitted changes");
}

#[test]
fn vanished_branches_are_reported() {
    let mut state = two_stack();
    let order = vec!["feature/a".to_string(), "gone".to_string(), "feature/b".to_string()];
    assert_eq!(
        restack_queue(&state, &order),
        Err(StackError::BranchDisappeared("gone".to_string()))
    );
    let pending = PendingReparent::new(
        "gone".to_string(),
        "develop".to_string(),
        "feature/a".to_string(),
        "d0".to_string(),
        "a1".to_string(),
    );
    assert_eq!(
        finalize_reparent(&mut state, &pending),
        Err(StackError::BranchDisappeared("gone".to_string()))
    );
    assert_eq!(state.branches.len(), 2);
}

#[test]
fn tracking_adds_one_branch_with_a_new_name() {
    let mut state = two_stack();
    track_branch_with_parent(
        &mut state,
        "feature/c".to_string(),
        "feature/b".to_string(),
        true,
        true,
        "b0".to_string(),
    )
    .unwrap();
    assert_eq!(state.branches.len(), 3);
    assert_eq!(state.branch("feature/c").unwrap().parent, "feature/b");
    assert_eq!(
        track_branch_with_parent(
            &mut state,
            "feature/c".to_string(),
            "develop".to_string(),
            true,
            true,
            "d0".to_string(),
        ),
        Err(StackError::BranchAlreadyTracked("feature/c".to_string()))
    );
    assert_eq!(state.branches.len(), 3);
    assert_eq!(stacked_prs::graph::validate_graph(&state), Ok(()));
}

#[test]
fn a_recorded_rebase_leaves_nothing_to_plan() {
    let mut state = two_stack();
    let plan = plan_rebase(&state, "feature/b", None, "a1").unwrap().unwrap();
    state.record_rebase(&plan.branch, plan.new_base.clone()).unwrap();
    assert!(plan_rebase(&state, "feature/b", None, "a1").unwrap().is_none());
}
