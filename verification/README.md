# stacked-prs

A local-first manager for stacked branches with squash-merge-friendly rebases and
optional Azure DevOps pull requests, with its logic verified by Verus.

## Layout

- `src/` is the verified library. Every public function states what it returns or
  changes in its `ensures`, over the specification functions next to it.
  - `state.rs`: the stack state (tracked branches, parents, recorded parent tips, PRs)
    and its validation against facts about the repository.
  - `graph.rs`: graph validation (unique names, no self-parent, no cycle), the stack
    order and the children of each branch.
  - `rebase.rs`: effective parents and rebase plans.
  - `sync.rs`: which branches a sync restacks and what it does afterwards.
  - `azure.rs`: the `az` invocations, the stack block in PR descriptions, and how PR
    states fold back into the stack.
  - `cleanup.rs`, `commands.rs`: the decisions of `cleanup` and of the other commands.
  - `git.rs`: the git invocations and what is read from their output.
  - `output.rs`, `text.rs`, `order.rs`, `cli.rs`, `error.rs`: reports, strings, name
    order, command arguments and errors.
- `app/` is the command-line program: argument parsing, the JSON files, running `git`
  and `az`, and the order in which each command does its work.
- `tests/` runs the library on concrete stacks.

The public proof functions (`lemma_*`) state properties that hold across operations,
for instance that the stack order lists every parent before its children, that
replacing the stack block keeps the rest of a description, and that cleanup only
deletes merged branches without active children and never the current branch.
