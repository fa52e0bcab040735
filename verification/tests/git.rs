use stacked_prs::git::{has_conflict_markers, toplevel_command, GitRepo};
use stacked_prs::error::StackError;
use stacked_prs::order::name_le_exec;
use stacked_prs::output::{print_rebase_plan, short_sha};
use stacked_prs::rebase::{rebase_target, RebasePlan};
use stacked_prs::state::{ManagedBranch, RepoState};
use stacked_prs::sync::{has_prs, remote_trunk, resumed_rebase, ensure_resolved, record_continued_rebase, trunk_hint, sync_order};
use stacked_prs::text::{lines, parse_usize, to_decimal, trim};

fn repo() -> GitRepo {
    GitRepo { root: "/work/repo".to_string() }
}

#[test]
fn git_commands_carry_their_arguments() {
    let r = repo();
    assert_eq!(toplevel_command().args, vec!["rev-parse", "--show-toplevel"]);
    assert_eq!(GitRepo::discover("/work/repo\n").root, "/work/repo");
    assert_eq!(r.is_clean().args, vec!["diff-index", "--quiet", "HEAD", "--"]);
    assert_eq!(r.current_branch().args, vec!["branch", "--show-current"]);
    assert_eq!(
        r.branch_exists("feature/a").args,
        vec!["show-ref", "--verify", "--quiet", "refs/heads/feature/a"]
    );
    assert_eq!(
        r.commit_exists("abc").args,
        vec!["rev-parse", "--verify", "--quiet", "abc^{commit}"]
    );
    assert_eq!(r.rev_parse("HEAD").args, vec!["rev-parse", "HEAD"]);
    assert_eq!(r.branch_tip("develop").args, vec!["rev-parse", "develop"]);
    assert_eq!(r.fetch("origin").args, vec!["fetch", "origin"]);
    assert_eq!(r.delete_branch("x").args, vec!["branch", "-d", "x"]);
    assert_eq!(
        r.rebase_onto("new", "old", "b").args,
        vec!["rebase", "--onto", "new", "old", "b"]
    );
    assert_eq!(r.rebase_continue().args, vec!["rebase", "--continue"]);
    assert_eq!(r.rebase_abort().args, vec!["rebase", "--abort"]);
    assert_eq!(r.git_path("rebase-merge").args, vec!["rev-parse", "--git-path", "rebase-merge"]);
    assert_eq!(
        r.is_ancestor("a", "b").args,
        vec!["merge-base", "--is-ancestor", "a", "b"]
    );
    assert_eq!(
        r.push("origin", "b", false).args,
        vec!["push", "--set-upstream", "origin", "b"]
    );
    assert_eq!(
        r.push("origin", "b", true).args,
        vec!["push", "--force-with-lease", "--set-upstream", "origin", "b"]
    );
    assert_eq!(
        r.unmerged_paths_command().args,
        vec!["diff", "--name-only", "--diff-filter=U"]
    );
    assert!(r.add_paths(&Vec::new()).is_none());
    assert_eq!(
        r.add_paths(&vec!["a.txt".to_string(), "b.txt".to_string()]).unwrap().args,
        vec!["add", "--", "a.txt", "b.txt"]
    );
}

#[test]
fn git_checks() {
    let r = repo();
    assert_eq!(
        r.ensure_branch_exists("x", false),
        Err(StackError::BranchMissing("x".to_string()))
    );
    assert_eq!(r.ensure_branch_exists("x", true), Ok(()));
    assert_eq!(
        r.ensure_commit_exists("abc", false),
        Err(StackError::CommitMissing("abc".to_string()))
    );
    assert!(r.is_rebase_in_progress(false, true));
    assert!(!r.is_rebase_in_progress(false, false));
}

#[test]
fn rebase_state_files_are_read() {
    let r = repo();
    assert_eq!(
        r.rebase_branch_and_onto("refs/heads/feature/b\n", " 0123abc\n"),
        ("feature/b".to_string(), "0123abc".to_string())
    );
    assert_eq!(
        r.rebase_branch_and_onto("detached", "x"),
        ("detached".to_string(), "x".to_string())
    );
    assert_eq!(
        resumed_rebase(None),
        Err(StackError::NoSyncRebase)
    );
}

#[test]
fn unmerged_paths_and_conflict_markers() {
    let r = repo();
    assert_eq!(r.unmerged_paths("a.txt\n  b.txt \r\n\n"), vec!["a.txt", "b.txt"]);
    assert!(r.unmerged_paths("").is_empty());
    assert!(has_conflict_markers("x\n<<<<<<< HEAD\ny"));
    assert!(has_conflict_markers("x\n=======\ny"));
    assert!(has_conflict_markers(">>>>>>> other"));
    assert!(!has_conflict_markers("x\n <<<<<<< indented\n<<<<<<<nospace"));
    let unresolved = r.paths_with_conflict_markers(
        &vec!["a".to_string(), "b".to_string(), "c".to_string()],
        &vec![Some("clean".to_string()), None, Some("=======\n".to_string())],
    );
    assert_eq!(unresolved, vec!["b", "c"]);
    assert_eq!(
        ensure_resolved(unresolved.clone()),
        Err(StackError::UnresolvedConflicts(vec!["b".to_string(), "c".to_string()]))
    );
    assert_eq!(ensure_resolved(Vec::new()), Ok(()));
}

#[test]
fn text_helpers() {
    assert_eq!(trim("  a b \t\n"), "a b");
    assert_eq!(trim(" \u{3000} "), "");
    assert_eq!(lines("a\nb\n"), vec!["a", "b", ""]);
    assert_eq!(parse_usize("42"), Some(42));
    assert_eq!(parse_usize("+7"), Some(7));
    assert_eq!(parse_usize("+"), None);
    assert_eq!(parse_usize("-1"), None);
    assert_eq!(parse_usize("18446744073709551616"), None);
    assert_eq!(to_decimal(0), "0");
    assert_eq!(to_decimal(1234567890), "1234567890");
    assert_eq!(short_sha("0123456789abcdef"), "0123456");
    assert_eq!(short_sha("abc"), "abc");
    assert!(name_le_exec("a", "ab"));
    assert!(name_le_exec("B", "a"));
    assert!(!name_le_exec("b", "a"));
}

#[test]
fn rebase_plan_line_and_target() {
    let plan = RebasePlan {
        branch: "feature/b".to_string(),
        configured_parent: "feature/a".to_string(),
        effective_parent: "develop".to_string(),
        old_base: "aaaaaaaaaa".to_string(),
        new_base: "bbbbbbbbbb".to_string(),
    };
    assert_eq!(
        print_rebase_plan(&plan),
        "rebase feature/b: parent=feature/a effective_parent=develop old_base=aaaaaaa new_base=bbbbbbb"
    );
    let mut state = RepoState::new("develop".to_string(), "origin".to_string());
    state
        .add_branch(ManagedBranch::new("a".to_string(), "develop".to_string(), "t".to_string()))
        .unwrap();
    assert_eq!(rebase_target(&state, "a", None), Ok("develop".to_string()));
    assert_eq!(rebase_target(&state, "a", Some("x")), Ok("x".to_string()));
    assert_eq!(
        rebase_target(&state, "zz", None),
        Err(StackError::BranchNotTracked("zz".to_string()))
    );
}

#[test]
fn sync_helpers() {
    let mut state = RepoState::new("develop".to_string(), "origin".to_string());
    state
        .add_branch(ManagedBranch::new("a".to_string(), "develop".to_string(), "t".to_string()))
        .unwrap();
    state
        .add_branch(ManagedBranch::new("a1".to_string(), "a".to_string(), "t".to_string()))
        .unwrap();
    assert!(!has_prs(&state));
    assert_eq!(remote_trunk("develop"), "origin/develop");
    assert_eq!(trunk_hint("develop", "x", "x"), None);
    assert_eq!(
        trunk_hint("develop", "x", "y").unwrap(),
        "Tip: local develop is behind origin/develop. Run 'git checkout develop && git pull' to update."
    );
    assert_eq!(sync_order(&state, None).unwrap(), vec!["a", "a1"]);
    assert_eq!(sync_order(&state, Some("a")).unwrap(), vec!["a1"]);
    assert_eq!(record_continued_rebase(&mut state, "a1", "n".to_string()), Ok(()));
    assert_eq!(state.branches[1].recorded_parent_tip, "n");
    assert_eq!(
        record_continued_rebase(&mut state, "zz", "n".to_string()),
        Err(StackError::RebasedBranchNotTracked("zz".to_string()))
    );
}
