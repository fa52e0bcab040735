//! The git invocations the stack makes, and what it reads from their results.
use vstd::prelude::*;

use crate::azure::{strip_ref_spec, HEADS_PREFIX};
use crate::error::StackError;
use crate::order::names_of;
use crate::text::{split_lines, starts_with, starts_with_exec, trim, trim_spec};

verus! {

/// A git invocation: its arguments, run in the repository root.
#[derive(Debug, Clone)]
pub struct GitCommand {
    pub args: Vec<String>,
}

/// A git repository, by the path of its working tree root.
#[derive(Debug, Clone)]
pub struct GitRepo {
    pub root: String,
}

fn command(args: Vec<String>) -> (r: GitCommand)
    ensures
        r.args@ == args@,
{
    GitCommand { args }
}

fn arg(s: &str) -> (r: String)
    ensures
        r@ == s@,
{
    s.to_string()
}

/// The command that prints the root of the working tree containing the current
/// directory.
pub fn toplevel_command() -> (r: GitCommand)
    ensures
        names_of(r.args@) == seq!["rev-parse"@, "--show-toplevel"@],
{
    let r = command(vec![arg("rev-parse"), arg("--show-toplevel")]);
    assert(names_of(r.args@) =~= seq!["rev-parse"@, "--show-toplevel"@]);
    r
}

impl GitRepo {
    /// The repository whose root `toplevel_command` printed (`stdout`).
    pub fn discover(stdout: &str) -> (r: GitRepo)
        ensures
            r.root@ == trim_spec(stdout@),
    {
        GitRepo { root: trim(stdout) }
    }

    /// The command that succeeds exactly when the worktree has no uncommitted changes.
    pub fn is_clean(&self) -> (r: GitCommand)
        ensures
            names_of(r.args@) == seq!["diff-index"@, "--quiet"@, "HEAD"@, "--"@],
    {
        let r = command(vec![arg("diff-index"), arg("--quiet"), arg("HEAD"), arg("--")]);
        assert(names_of(r.args@) =~= seq!["diff-index"@, "--quiet"@, "HEAD"@, "--"@]);
        r
    }

    /// Refuse a dirty worktree.
    pub fn ensure_clean(&self, is_clean: bool) -> (r: Result<(), StackError>)
        ensures
            r == if is_clean {
                Ok::<(), StackError>(())
            } else {
                Err::<(), StackError>(StackError::DirtyWorktree)
            },
    {
        if is_clean {
            Ok(())
        } else {
            Err(StackError::DirtyWorktree)
        }
    }

    /// The command that prints the current branch (nothing when HEAD is detached).
    pub fn current_branch(&self) -> (r: GitCommand)
        ensures
            names_of(r.args@) == seq!["branch"@, "--show-current"@],
    {
        let r = command(vec![arg("branch"), arg("--show-current")]);
        assert(names_of(r.args@) =~= seq!["branch"@, "--show-current"@]);
        r
    }

    /// The command that succeeds exactly when local branch `name` exists.
    pub fn branch_exists(&self, name: &str) -> (r: GitCommand)
        ensures
            names_of(r.args@) == seq!["show-ref"@, "--verify"@, "--quiet"@, HEADS_PREFIX@ + name@],
    {
        let mut full = arg(HEADS_PREFIX);
        full.append(name);
        let r = command(vec![arg("show-ref"), arg("--verify"), arg("--quiet"), full]);
        assert(names_of(r.args@) =~= seq!["show-ref"@, "--verify"@, "--quiet"@, HEADS_PREFIX@ + name@]);
        r
    }

    /// Refuse a local branch that does not exist.
    pub fn ensure_branch_exists(&self, name: &str, exists: bool) -> (r: Result<(), StackError>)
        ensures
            exists ==> r is Ok,
            !exists ==> (r matches Err(StackError::BranchMissing(m)) && m@ == name@),
    {
        if exists {
            Ok(())
        } else {
            Err(StackError::BranchMissing(name.to_string()))
        }
    }

    /// The command that succeeds exactly when `rev` names a commit.
    pub fn commit_exists(&self, rev: &str) -> (r: GitCommand)
        ensures
            names_of(r.args@) == seq!["rev-parse"@, "--verify"@, "--quiet"@, rev@ + "^{commit}"@],
    {
        let mut spec = arg(rev);
        spec.append("^{commit}");
        let r = command(vec![arg("rev-parse"), arg("--verify"), arg("--quiet"), spec]);
        assert(names_of(r.args@) =~= seq!["rev-parse"@, "--verify"@, "--quiet"@, rev@ + "^{commit}"@]);
        r
    }

    /// Refuse a revision that names no commit.
    pub fn ensure_commit_exists(&self, rev: &str, exists: bool) -> (r: Result<(), StackError>)
        ensures
            exists ==> r is Ok,
            !exists ==> (r matches Err(StackError::CommitMissing(m)) && m@ == rev@),
    {
        if exists {
            Ok(())
        } else {
            Err(StackError::CommitMissing(rev.to_string()))
        }
    }

    /// The command that prints the commit `rev` names.
    pub fn rev_parse(&self, rev: &str) -> (r: GitCommand)
        ensures
            names_of(r.args@) == seq!["rev-parse"@, rev@],
    {
        let r = command(vec![arg("rev-parse"), arg(rev)]);
        assert(names_of(r.args@) =~= seq!["rev-parse"@, rev@]);
        r
    }

    /// The command that prints the tip commit of `branch`.
    pub fn branch_tip(&self, branch: &str) -> (r: GitCommand)
        ensures
            names_of(r.args@) == seq!["rev-parse"@, branch@],
    {
        self.rev_parse(branch)
    }

    /// The command that fetches from `remote`.
    pub fn fetch(&self, remote: &str) -> (r: GitCommand)
        ensures
            names_of(r.args@) == seq!["fetch"@, remote@],
    {
        let r = command(vec![arg("fetch"), arg(remote)]);
        assert(names_of(r.args@) =~= seq!["fetch"@, remote@]);
        r
    }

    /// The command that creates `branch` at `start_point`.
    pub fn create_branch(&self, branch: &str, start_point: &str) -> (r: GitCommand)
        ensures
            names_of(r.args@) == seq!["branch"@, branch@, start_point@],
    {
        let r = command(vec![arg("branch"), arg(branch), arg(start_point)]);
        assert(names_of(r.args@) =~= seq!["branch"@, branch@, start_point@]);
        r
    }

    /// The command that checks out `branch`.
    pub fn checkout(&self, branch: &str) -> (r: GitCommand)
        ensures
            names_of(r.args@) == seq!["checkout"@, branch@],
    {
        let r = command(vec![arg("checkout"), arg(branch)]);
        assert(names_of(r.args@) =~= seq!["checkout"@, branch@]);
        r
    }

    /// The command that deletes the (merged) local branch `branch`.
    pub fn delete_branch(&self, branch: &str) -> (r: GitCommand)
        ensures
            names_of(r.args@) == seq!["branch"@, "-d"@, branch@],
    {
        let r = command(vec![arg("branch"), arg("-d"), arg(branch)]);
        assert(names_of(r.args@) =~= seq!["branch"@, "-d"@, branch@]);
        r
    }

    /// The command that moves the commits of `branch` above `old_base` onto `new_base`.
    pub fn rebase_onto(&self, new_base: &str, old_base: &str, branch: &str) -> (r: GitCommand)
        ensures
            names_of(r.args@) == seq!["rebase"@, "--onto"@, new_base@, old_base@, branch@],
    {
        let r = command(vec![arg("rebase"), arg("--onto"), arg(new_base), arg(old_base), arg(branch)]);
        assert(names_of(r.args@) =~= seq!["rebase"@, "--onto"@, new_base@, old_base@, branch@]);
        r
    }

    /// The command that continues a stopped rebase.
    pub fn rebase_continue(&self) -> (r: GitCommand)
        ensures
            names_of(r.args@) == seq!["rebase"@, "--continue"@],
    {
        let r = command(vec![arg("rebase"), arg("--continue")]);
        assert(names_of(r.args@) =~= seq!["rebase"@, "--continue"@]);
        r
    }

    /// The command that aborts a stopped rebase.
    pub fn rebase_abort(&self) -> (r: GitCommand)
        ensures
            names_of(r.args@) == seq!["rebase"@, "--abort"@],
    {
        let r = command(vec![arg("rebase"), arg("--abort")]);
        assert(names_of(r.args@) =~= seq!["rebase"@, "--abort"@]);
        r
    }

    /// The command that stages `paths`; none when there is nothing to stage.
    pub fn add_paths(&self, paths: &Vec<String>) -> (r: Option<GitCommand>)
        ensures
            paths@.len() == 0 ==> r is None,
            paths@.len() > 0 ==> (r matches Some(c) && names_of(c.args@) == seq!["add"@, "--"@] + names_of(
                paths@,
            )),
    {
        if paths.len() == 0 {
            return None;
        }
        let mut args = vec![arg("add"), arg("--")];
        let mut i: usize = 0;
        while i < paths.len()
            invariant
                i <= paths@.len(),
                names_of(args@) == seq!["add"@, "--"@] + names_of(paths@).take(i as int),
            decreases paths@.len() - i,
        {
            let ghost before = names_of(args@);
            args.push(paths[i].clone());
            proof {
                assert(names_of(args@) =~= before.push(paths@[i as int]@));
                assert(names_of(paths@).take(i + 1) =~= names_of(paths@).take(i as int).push(paths@[i as int]@));
                assert(names_of(args@) =~= seq!["add"@, "--"@] + names_of(paths@).take(i + 1));
            }
            i = i + 1;
        }
        assert(names_of(paths@).take(i as int) =~= names_of(paths@));
        Some(command(args))
    }

    /// The command that prints the path of `path` inside the git directory.
    pub fn git_path(&self, path: &str) -> (r: GitCommand)
        ensures
            names_of(r.args@) == seq!["rev-parse"@, "--git-path"@, path@],
    {
        let r = command(vec![arg("rev-parse"), arg("--git-path"), arg(path)]);
        assert(names_of(r.args@) =~= seq!["rev-parse"@, "--git-path"@, path@]);
        r
    }

    /// A rebase is in progress when either of git's rebase directories exists.
    pub fn is_rebase_in_progress(&self, merge_dir_exists: bool, apply_dir_exists: bool) -> (r: bool)
        ensures
            r == (merge_dir_exists || apply_dir_exists),
    {
        merge_dir_exists || apply_dir_exists
    }

    /// The branch being rebased and the commit it is rebased onto, from the contents of
    /// the rebase directory's `head-name` and `onto` files.
    pub fn rebase_branch_and_onto(&self, head_name: &str, onto: &str) -> (r: (String, String))
        ensures
            r.0@ == strip_ref_spec(trim_spec(head_name@)),
            r.1@ == trim_spec(onto@),
    {
        let head = trim(head_name);
        (crate::azure::strip_ref(head.as_str()), trim(onto))
    }

    /// The command that lists the paths with unresolved merges.
    pub fn unmerged_paths_command(&self) -> (r: GitCommand)
        ensures
            names_of(r.args@) == seq!["diff"@, "--name-only"@, "--diff-filter=U"@],
    {
        let r = command(vec![arg("diff"), arg("--name-only"), arg("--diff-filter=U")]);
        assert(names_of(r.args@) =~= seq!["diff"@, "--name-only"@, "--diff-filter=U"@]);
        r
    }

    /// The paths in the output of `unmerged_paths_command`: each line trimmed, blank
    /// lines left out.
    pub fn unmerged_paths(&self, output: &str) -> (r: Vec<String>)
        ensures
            names_of(r@) == nonblank_trimmed(split_lines(output@)),
    {
        let ls = crate::text::lines(output);
        let mut out: Vec<String> = Vec::new();
        let mut i: usize = 0;
        while i < ls.len()
            invariant
                i <= ls@.len(),
                names_of(ls@) == split_lines(output@),
                names_of(out@) == nonblank_trimmed(names_of(ls@).take(i as int)),
            decreases ls@.len() - i,
        {
            let t = trim(ls[i].as_str());
            proof {
                assert(names_of(ls@).take(i + 1).drop_last() =~= names_of(ls@).take(i as int));
                assert(names_of(ls@).take(i + 1).last() == ls@[i as int]@);
            }
            if t.unicode_len() > 0 {
                let ghost before = names_of(out@);
                out.push(t);
                assert(names_of(out@) =~= before.push(t@));
            }
            i = i + 1;
        }
        assert(names_of(ls@).take(i as int) =~= names_of(ls@));
        out
    }

    /// Of `paths`, those whose conflicts are not resolved: the file could not be read
    /// (`contents` is `None`) or a line of it starts a conflict marker.
    pub fn paths_with_conflict_markers(&self, paths: &Vec<String>, contents: &Vec<Option<String>>) -> (r:
        Vec<String>)
        requires
            contents@.len() == paths@.len(),
        ensures
            names_of(r@) == unresolved_paths(names_of(paths@), contents@, paths@.len() as int),
    {
        let mut out: Vec<String> = Vec::new();
        let mut i: usize = 0;
        while i < paths.len()
            invariant
                contents@.len() == paths@.len(),
                i <= paths@.len(),
                names_of(out@) == unresolved_paths(names_of(paths@), contents@, i as int),
            decreases paths@.len() - i,
        {
            let unresolved = match &contents[i] {
                None => true,
                Some(c) => has_conflict_markers(c.as_str()),
            };
            if unresolved {
                let ghost before = names_of(out@);
                out.push(paths[i].clone());
                assert(names_of(out@) =~= before.push(paths@[i as int]@));
            }
            i = i + 1;
        }
        out
    }

    /// The command that succeeds exactly when `ancestor` is an ancestor of `descendant`.
    pub fn is_ancestor(&self, ancestor: &str, descendant: &str) -> (r: GitCommand)
        ensures
            names_of(r.args@) == seq!["merge-base"@, "--is-ancestor"@, ancestor@, descendant@],
    {
        let r = command(vec![arg("merge-base"), arg("--is-ancestor"), arg(ancestor), arg(descendant)]);
        assert(names_of(r.args@) =~= seq!["merge-base"@, "--is-ancestor"@, ancestor@, descendant@]);
        r
    }

    /// The command that pushes `branch` to `remote` and sets it as upstream; with a
    /// lease on the remote branch when `force_with_lease`.
    pub fn push(&self, remote: &str, branch: &str, force_with_lease: bool) -> (r: GitCommand)
        ensures
            force_with_lease ==> names_of(r.args@) == seq![
                "push"@,
                "--force-with-lease"@,
                "--set-upstream"@,
                remote@,
                branch@,
            ],
            !force_with_lease ==> names_of(r.args@) == seq!["push"@, "--set-upstream"@, remote@, branch@],
    {
        if force_with_lease {
            let r = command(
                vec![arg("push"), arg("--force-with-lease"), arg("--set-upstream"), arg(remote), arg(branch)],
            );
            assert(names_of(r.args@) =~= seq![
                "push"@,
                "--force-with-lease"@,
                "--set-upstream"@,
                remote@,
                branch@,
            ]);
            r
        } else {
            let r = command(vec![arg("push"), arg("--set-upstream"), arg(remote), arg(branch)]);
            assert(names_of(r.args@) =~= seq!["push"@, "--set-upstream"@, remote@, branch@]);
            r
        }
    }
}

/// The trimmed lines of `ls` that are not blank, in order.
pub open spec fn nonblank_trimmed(ls: Seq<Seq<char>>) -> Seq<Seq<char>>
    decreases ls.len(),
{
    if ls.len() == 0 {
        seq![]
    } else {
        let prev = nonblank_trimmed(ls.drop_last());
        if trim_spec(ls.last()).len() > 0 {
            prev.push(trim_spec(ls.last()))
        } else {
            prev
        }
    }
}

/// A line that starts a conflict marker.
pub open spec fn is_marker_line(line: Seq<char>) -> bool {
    starts_with(line, "<<<<<<< "@) || starts_with(line, "======="@) || starts_with(line, ">>>>>>> "@)
}

/// Some line of `contents` starts a conflict marker.
pub open spec fn has_conflict_markers_spec(contents: Seq<char>) -> bool {
    exists|k: int| 0 <= k < split_lines(contents).len() && is_marker_line(#[trigger] split_lines(contents)[k])
}

/// Whether some line of `contents` starts a conflict marker.
pub fn has_conflict_markers(contents: &str) -> (r: bool)
    ensures
        r == has_conflict_markers_spec(contents@),
{
    let ls = crate::text::lines(contents);
    let mut i: usize = 0;
    while i < ls.len()
        invariant
            i <= ls@.len(),
            names_of(ls@) == split_lines(contents@),
            forall|k: int| 0 <= k < i ==> !is_marker_line(#[trigger] split_lines(contents@)[k]),
        decreases ls@.len() - i,
    {
        let line = ls[i].as_str();
        assert(split_lines(contents@)[i as int] == line@);
        if starts_with_exec(line, "<<<<<<< ") || starts_with_exec(line, "=======") || starts_with_exec(
            line,
            ">>>>>>> ",
        ) {
            return true;
        }
        i = i + 1;
    }
    false
}

/// The paths among the first `n` of `paths` that are not resolved (see
/// `GitRepo::paths_with_conflict_markers`).
pub open spec fn unresolved_paths(paths: Seq<Seq<char>>, contents: Seq<Option<String>>, n: int) -> Seq<
    Seq<char>,
>
    decreases n,
{
    if n <= 0 {
        seq![]
    } else {
        let prev = unresolved_paths(paths, contents, n - 1);
        let unresolved = match contents[n - 1] {
            None => true,
            Some(c) => has_conflict_markers_spec(c@),
        };
        if unresolved {
            prev.push(paths[n - 1])
        } else {
            prev
        }
    }
}

} // verus!
