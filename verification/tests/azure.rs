use stacked_prs::azure::{
    branch_ref, build_stack_block, description_targets, land_target, pr_create_target, reconcile,
    reconcile_statuses, record_pr, splice_block, stack_description_updates, stack_order_for_branch,
    stack_root, strip_ref, tracked_prs, vote_summary, AzCli, PrInfo, PrUpdate, RepoInfo, Reviewer,
};
use stacked_prs::error::StackError;
use stacked_prs::git::GitRepo;
use stacked_prs::graph;
use stacked_prs::state::{BranchStatus, ManagedBranch, PullRequestRef, RepoState};

fn info(id: u64, status: &str, target: &str) -> PrInfo {
    PrInfo {
        pull_request_id: id,
        url: None,
        status: status.to_string(),
        target_ref_name: target.to_string(),
        description: None,
        is_draft: None,
        reviewers: Vec::new(),
        repository: None,
    }
}

fn pr_ref(id: &str) -> Option<PullRequestRef> {
    Some(PullRequestRef {
        provider: "azure-devops".to_string(),
        id: id.to_string(),
        url: None,
        target_branch: None,
    })
}

fn stack_state() -> RepoState {
    let mut state = RepoState::new("develop".to_string(), "origin".to_string());
    state
        .add_branch(ManagedBranch::new(
            "feature/a".to_string(),
            "develop".to_string(),
            "base".to_string(),
        ))
        .unwrap();
    state
        .add_branch(ManagedBranch::new(
            "feature/b".to_string(),
            "feature/a".to_string(),
            "a".to_string(),
        ))
        .unwrap();
    state
}

#[test]
fn parses_az_pr_json() {
    let info = PrInfo {
        pull_request_id: 42,
        url: None,
        status: "active".to_string(),
        target_ref_name: "refs/heads/feat-a".to_string(),
        description: Some("hello".to_string()),
        is_draft: Some(false),
        reviewers: vec![Reviewer { vote: 10 }, Reviewer { vote: 0 }],
        repository: Some(RepoInfo {
            url: None,
            web_url: Some("https://dev.azure.com/org/proj/_git/repo".to_string()),
        }),
    };
    assert_eq!(info.pull_request_id, 42);
    assert_eq!(info.target_branch(), "feat-a");
    assert_eq!(
        info.web_url().unwrap(),
        "https://dev.azure.com/org/proj/_git/repo/pullrequest/42"
    );
    assert_eq!(vote_summary(&info), "✅ approved (1)");
}

#[test]
fn splice_appends_then_replaces() {
    let appended = splice_block(
        "My PR description",
        "<!-- stack:begin -->v1<!-- stack:end -->",
    );
    assert_eq!(
        appended,
        "My PR description\n\n<!-- stack:begin -->v1<!-- stack:end -->"
    );
    let replaced = splice_block(&appended, "<!-- stack:begin -->v2<!-- stack:end -->");
    assert_eq!(
        replaced,
        "My PR description\n\n<!-- stack:begin -->v2<!-- stack:end -->"
    );
}

#[test]
fn stack_order_excludes_unrelated_roots() {
    let mut state = RepoState::new("develop".to_string(), "origin".to_string());
    state
        .add_branch(ManagedBranch::new(
            "feature/a".to_string(),
            "develop".to_string(),
            "base".to_string(),
        ))
        .unwrap();
    state
        .add_branch(ManagedBranch::new(
            "feature/b".to_string(),
            "feature/a".to_string(),
            "a".to_string(),
        ))
        .unwrap();
    state
        .add_branch(ManagedBranch::new(
            "other/a".to_string(),
            "develop".to_string(),
            "base".to_string(),
        ))
        .unwrap();
    state
        .add_branch(ManagedBranch::new(
            "other/b".to_string(),
            "other/a".to_string(),
            "other-a".to_string(),
        ))
        .unwrap();

    let order: Vec<String> = graph::descendants_topo(&state).unwrap();

    assert_eq!(
        stack_order_for_branch(&state, &order, "feature/b"),
        vec!["feature/a".to_string(), "feature/b".to_string()]
    );
    assert_eq!(
        stack_order_for_branch(&state, &order, "other/a"),
        vec!["other/a".to_string(), "other/b".to_string()]
    );
}

#[test]
fn vote_summary_precedence() {
    let mut info = info(1, "active", "refs/heads/x");
    assert_eq!(vote_summary(&info), "⏳ awaiting review");
    info.reviewers = vec![Reviewer { vote: 10 }, Reviewer { vote: -10 }];
    assert_eq!(vote_summary(&info), "❌ rejected");
    info.is_draft = Some(true);
    assert_eq!(vote_summary(&info), "📝 draft");
}

#[test]
fn vote_summary_changes_requested_and_approvals() {
    let mut info = info(1, "active", "refs/heads/x");
    info.reviewers = vec![Reviewer { vote: 5 }, Reviewer { vote: -5 }];
    assert_eq!(vote_summary(&info), "✏️ changes requested");
    info.reviewers = vec![Reviewer { vote: 5 }, Reviewer { vote: 10 }, Reviewer { vote: 0 }];
    assert_eq!(vote_summary(&info), "✅ approved (2)");
}

#[test]
fn refs_strip_and_build() {
    assert_eq!(strip_ref("refs/heads/feature/a"), "feature/a");
    assert_eq!(strip_ref("feature/a"), "feature/a");
    assert_eq!(branch_ref("feature/a"), "refs/heads/feature/a");
    assert_eq!(branch_ref("refs/heads/feature/a"), "refs/heads/feature/a");
    assert_eq!(strip_ref(&branch_ref("feature/a")), "feature/a");
}

#[test]
fn api_url_prefers_url_then_repository() {
    let mut i = info(7, "active", "refs/heads/x");
    assert_eq!(i.api_url(), Err(StackError::MissingRestUrl(7)));
    i.repository = Some(RepoInfo {
        url: Some("https://dev.azure.com/org/proj/_apis/git/repositories/r".to_string()),
        web_url: None,
    });
    assert_eq!(
        i.api_url().unwrap(),
        "https://dev.azure.com/org/proj/_apis/git/repositories/r/pullRequests/7"
    );
    assert_eq!(i.web_url(), None);
    i.url = Some("https://example/pr/7".to_string());
    assert_eq!(i.api_url().unwrap(), "https://example/pr/7");
}

#[test]
fn splice_into_blank_description_and_keeps_text_around_block() {
    assert_eq!(splice_block("  \n", "<!-- stack:begin -->B<!-- stack:end -->"), "<!-- stack:begin -->B<!-- stack:end -->");
    assert_eq!(
        splice_block(
            "intro\n<!-- stack:begin -->old<!-- stack:end -->\noutro",
            "<!-- stack:begin -->new<!-- stack:end -->"
        ),
        "intro\n<!-- stack:begin -->new<!-- stack:end -->\noutro"
    );
    // An end marker before the begin marker is no block: the new one is appended.
    assert_eq!(
        splice_block("<!-- stack:end --> x <!-- stack:begin -->", "B"),
        "<!-- stack:end --> x <!-- stack:begin -->\n\nB"
    );
}

#[test]
fn stack_block_lists_the_stack() {
    let mut state = stack_state();
    state.branches[0].pr = pr_ref("1");
    let order = graph::descendants_topo(&state).unwrap();
    let infos = vec![("feature/a".to_string(), info(1, "active", "refs/heads/develop"))];
    let block = build_stack_block(&state, &order, &infos, "feature/b");
    assert_eq!(
        block,
        "<!-- stack:begin -->\n📚 **Stack** (merge order, bottom first):\n\n`develop`\n\
← !1 `feature/a` — ⏳ awaiting review\n\
← (no PR) `feature/b` — ⏳  👈 this PR\n\n\
Review and merge bottom-up. This block is auto-generated by `stack`.\n<!-- stack:end -->"
    );
    assert_eq!(stack_root(&state, "feature/b"), "feature/a");
}

#[test]
fn reconcile_marks_merged_drops_abandoned_and_retargets() {
    let mut state = stack_state();
    state
        .add_branch(ManagedBranch::new(
            "feature/c".to_string(),
            "develop".to_string(),
            "base".to_string(),
        ))
        .unwrap();
    state.branches[0].pr = pr_ref("1");
    state.branches[1].pr = pr_ref("2");
    state.branches[2].pr = pr_ref("3");
    assert_eq!(
        tracked_prs(&state),
        vec![
            ("feature/a".to_string(), "1".to_string()),
            ("feature/b".to_string(), "2".to_string()),
            ("feature/c".to_string(), "3".to_string())
        ]
    );
    let shown = vec![
        ("feature/a".to_string(), info(1, "completed", "refs/heads/develop")),
        ("feature/b".to_string(), info(2, "active", "refs/heads/feature/a")),
        ("feature/c".to_string(), info(3, "abandoned", "refs/heads/develop")),
    ];
    let result = reconcile(&mut state, &shown);
    assert!(result.changed);
    assert_eq!(state.branches[0].status, BranchStatus::Merged);
    assert!(state.branches[2].pr.is_none());
    assert_eq!(result.updates.len(), 2);
    match &result.updates[0] {
        PrUpdate::Merged { name, pr_id } => {
            assert_eq!(name, "feature/a");
            assert_eq!(pr_id, "1");
        }
        other => panic!("unexpected update {other:?}"),
    }
    match &result.updates[1] {
        PrUpdate::Abandoned { name, pr_id } => {
            assert_eq!(name, "feature/c");
            assert_eq!(pr_id, "3");
        }
        other => panic!("unexpected update {other:?}"),
    }
    assert_eq!(result.retargets.len(), 1);
    assert_eq!(result.retargets[0].name, "feature/b");
    assert_eq!(result.retargets[0].pr_id, 2);
    assert_eq!(result.retargets[0].actual, "feature/a");
    assert_eq!(result.retargets[0].expected, "develop");
    assert_eq!(
        state.branches[1].pr.as_ref().unwrap().target_branch.as_deref(),
        Some("develop")
    );
}

#[test]
fn reconcile_statuses_leaves_targets_alone() {
    let mut state = stack_state();
    state.branches[0].pr = pr_ref("1");
    state.branches[1].pr = pr_ref("2");
    let shown = vec![
        ("feature/a".to_string(), info(1, "completed", "refs/heads/develop")),
        ("feature/b".to_string(), info(2, "active", "refs/heads/feature/a")),
    ];
    let result = reconcile_statuses(&mut state, &shown);
    assert!(result.changed);
    assert!(result.retargets.is_empty());
    assert_eq!(state.branches[0].status, BranchStatus::Merged);
    assert_eq!(state.branches[1].pr.as_ref().unwrap().target_branch, None);
}

#[test]
fn land_picks_the_single_trunk_facing_pr() {
    let mut state = stack_state();
    assert_eq!(
        land_target(&state, None),
        Err(StackError::NoLandablePr("develop".to_string()))
    );
    state.branches[0].pr = pr_ref("1");
    state.branches[1].pr = pr_ref("2");
    assert_eq!(
        land_target(&state, None),
        Ok(("feature/a".to_string(), "1".to_string()))
    );
    assert_eq!(
        land_target(&state, Some("feature/b")),
        Err(StackError::NotTrunkFacing(
            "feature/b".to_string(),
            "feature/a".to_string()
        ))
    );
    assert_eq!(
        land_target(&state, Some("nope")),
        Err(StackError::BranchNotTracked("nope".to_string()))
    );
    state.branches[0].status = BranchStatus::Merged;
    assert_eq!(
        land_target(&state, None),
        Ok(("feature/b".to_string(), "2".to_string()))
    );
    assert_eq!(
        land_target(&state, Some("feature/a")),
        Err(StackError::BranchNotActive("feature/a".to_string()))
    );
    state.branches[1].pr = None;
    assert_eq!(
        land_target(&state, Some("feature/b")),
        Err(StackError::NoTrackedPr("feature/b".to_string()))
    );
}

#[test]
fn land_refuses_several_trunk_facing_prs() {
    let mut state = stack_state();
    state
        .add_branch(ManagedBranch::new(
            "other".to_string(),
            "develop".to_string(),
            "base".to_string(),
        ))
        .unwrap();
    state.branches[0].pr = pr_ref("1");
    state.branches[2].pr = pr_ref("3");
    assert_eq!(
        land_target(&state, None),
        Err(StackError::MultipleLandablePrs(
            "develop".to_string(),
            vec!["feature/a".to_string(), "other".to_string()]
        ))
    );
}

#[test]
fn pr_create_targets_effective_parent_and_records_pr() {
    let mut state = stack_state();
    assert_eq!(pr_create_target(&state, "feature/b"), Ok("feature/a".to_string()));
    state.branches[0].status = BranchStatus::Merged;
    assert_eq!(pr_create_target(&state, "feature/b"), Ok("develop".to_string()));
    assert_eq!(
        pr_create_target(&state, "feature/a"),
        Err(StackError::BranchNotActive("feature/a".to_string()))
    );
    assert_eq!(
        pr_create_target(&state, "x"),
        Err(StackError::BranchNotTracked("x".to_string()))
    );
    let mut created = info(17, "active", "refs/heads/develop");
    created.repository = Some(RepoInfo {
        url: None,
        web_url: Some("https://dev.azure.com/o/p/_git/r".to_string()),
    });
    record_pr(&mut state, "feature/b", &created, "develop");
    let pr = state.branches[1].pr.as_ref().unwrap();
    assert_eq!(pr.provider, "azure-devops");
    assert_eq!(pr.id, "17");
    assert_eq!(
        pr.url.as_deref(),
        Some("https://dev.azure.com/o/p/_git/r/pullrequest/17")
    );
    assert_eq!(pr.target_branch.as_deref(), Some("develop"));
    assert_eq!(
        pr_create_target(&state, "feature/b"),
        Err(StackError::PrAlreadyTracked("17".to_string()))
    );
}

#[test]
fn descriptions_are_refreshed_for_active_prs() {
    let mut state = stack_state();
    state.branches[0].pr = pr_ref("1");
    state.branches[1].pr = pr_ref("2");
    let order = graph::descendants_topo(&state).unwrap();
    assert_eq!(
        description_targets(&state, &order),
        vec![
            ("feature/a".to_string(), "1".to_string()),
            ("feature/b".to_string(), "2".to_string())
        ]
    );
    let mut a = info(1, "active", "refs/heads/develop");
    a.description = Some("About A".to_string());
    let b = info(2, "completed", "refs/heads/feature/a");
    let fetched = vec![("feature/a".to_string(), a.clone()), ("feature/b".to_string(), b)];
    let updates = stack_description_updates(&state, &order, fetched);
    assert_eq!(updates.len(), 1);
    assert_eq!(updates[0].0, "1");
    let infos = vec![("feature/a".to_string(), a)];
    let block = build_stack_block(&state, &order, &infos, "feature/a");
    assert_eq!(updates[0].1, format!("About A\n\n{block}"));
}

#[test]
fn az_commands_carry_their_arguments() {
    let repo = GitRepo { root: "/repo".to_string() };
    let az = AzCli::new(&repo);
    assert_eq!(az.repo.root, "/repo");
    assert_eq!(
        az.pr_show("5").args,
        vec!["repos", "pr", "show", "--id", "5", "-o", "json"]
    );
    assert_eq!(
        az.pr_create("feature/a", "develop", "Feature A", true).args,
        vec![
            "repos",
            "pr",
            "create",
            "--source-branch",
            "feature/a",
            "--target-branch",
            "develop",
            "--title",
            "Feature A",
            "--draft",
            "true",
            "-o",
            "json"
        ]
    );
    assert_eq!(
        az.pr_update_description("5", "text").args,
        vec!["repos", "pr", "update", "--id", "5", "--description=text", "-o", "none"]
    );
    assert_eq!(
        az.pr_set_autocomplete("5").args,
        vec![
            "repos",
            "pr",
            "update",
            "--id",
            "5",
            "--auto-complete",
            "true",
            "--squash",
            "true",
            "--delete-source-branch",
            "true",
            "-o",
            "none"
        ]
    );
}

#[test]
fn retarget_sends_json_body_to_rest_url() {
    let repo = GitRepo { root: "/repo".to_string() };
    let az = AzCli::new(&repo);
    let mut i = info(9, "active", "refs/heads/feature/a");
    assert_eq!(
        az.pr_retarget(&i, "develop").unwrap_err(),
        StackError::MissingRestUrl(9)
    );
    i.url = Some("https://dev.azure.com/o/p/_apis/git/repositories/r/pullRequests/9".to_string());
    let command = az.pr_retarget(&i, "develop").unwrap();
    assert_eq!(
        command.args,
        vec![
            "rest",
            "--resource",
            "499b84ac-1321-427f-aa17-267ca6975798",
            "--method",
            "PATCH",
            "--url",
            "https://dev.azure.com/o/p/_apis/git/repositories/r/pullRequests/9?api-version=7.1",
            "--body",
            "{\"targetRefName\":\"refs/heads/develop\"}",
            "--headers",
            "Content-Type=application/json",
            "-o",
            "none"
        ]
    );
    let quoted = az.pr_retarget(&i, "a\"b").unwrap();
    assert_eq!(quoted.args[8], "{\"targetRefName\":\"refs/heads/a\\\"b\"}");
}

#[test]
fn description_of_a_pr_without_text_is_the_block_alone() {
    let mut state = stack_state();
    state.branches[0].pr = pr_ref("1");
    let order = graph::descendants_topo(&state).unwrap();
    let a = info(1, "active", "refs/heads/develop");
    let updates = stack_description_updates(&state, &order, vec![("feature/a".to_string(), a.clone())]);
    let infos = vec![("feature/a".to_string(), a)];
    let block = build_stack_block(&state, &order, &infos, "feature/a");
    assert_eq!(updates, vec![("1".to_string(), block)]);
}

#[test]
fn reconciling_twice_with_the_same_details_changes_nothing() {
    let mut state = stack_state();
    state.branches[0].pr = pr_ref("1");
    state.branches[1].pr = pr_ref("2");
    let shown = vec![
        ("feature/a".to_string(), info(1, "completed", "refs/heads/develop")),
        ("feature/b".to_string(), info(2, "active", "refs/heads/feature/a")),
    ];
    let first = reconcile(&mut state, &shown);
    assert!(first.changed);
    let second = reconcile(&mut state, &shown);
    assert!(!second.changed);
    assert!(second.updates.is_empty());
    assert_eq!(state.branches[0].status, BranchStatus::Merged);
}

#[test]
fn splice_replaces_block_between_surrounding_text() {
    assert_eq!(
        splice_block(
            "head <!-- stack:begin -->old <!-- stack:begin --> too<!-- stack:end -->tail <!-- stack:end -->",
            "NEW"
        ),
        "head NEWtail <!-- stack:end -->"
    );
}

#[test]
fn retargets_list_each_drifted_pr_once() {
    let mut state = stack_state();
    state
        .add_branch(ManagedBranch::new(
            "feature/c".to_string(),
            "feature/b".to_string(),
            "b".to_string(),
        ))
        .unwrap();
    state.branches[0].pr = pr_ref("1");
    state.branches[1].pr = pr_ref("2");
    state.branches[2].pr = pr_ref("3");
    let shown = vec![
        ("feature/c".to_string(), info(3, "active", "refs/heads/develop")),
        ("feature/a".to_string(), info(1, "completed", "refs/heads/develop")),
        ("feature/b".to_string(), info(2, "active", "refs/heads/feature/a")),
    ];
    let result = reconcile(&mut state, &shown);
    let names: Vec<&str> = result.retargets.iter().map(|r| r.name.as_str()).collect();
    assert_eq!(names, vec!["feature/b", "feature/c"]);
    assert_eq!(result.retargets[1].expected, "feature/b");
    assert_eq!(result.retargets[1].actual, "develop");
}

#[test]
fn description_updates_come_in_branch_name_order() {
    let mut state = RepoState::new("develop".to_string(), "origin".to_string());
    state
        .add_branch(ManagedBranch::new("z-root".to_string(), "develop".to_string(), "d".to_string()))
        .unwrap();
    state
        .add_branch(ManagedBranch::new("a-child".to_string(), "z-root".to_string(), "z".to_string()))
        .unwrap();
    state.branches[0].pr = pr_ref("1");
    state.branches[1].pr = pr_ref("2");
    let order = graph::descendants_topo(&state).unwrap();
    assert_eq!(order, vec!["z-root", "a-child"]);
    let fetched = vec![
        ("z-root".to_string(), info(1, "active", "refs/heads/develop")),
        ("a-child".to_string(), info(2, "active", "refs/heads/z-root")),
    ];
    let updates = stack_description_updates(&state, &order, fetched);
    let ids: Vec<&str> = updates.iter().map(|u| u.0.as_str()).collect();
    assert_eq!(ids, vec!["2", "1"]);
}
