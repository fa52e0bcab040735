//! Azure DevOps pull requests: what the `az` output says, how the stack overview
//! block in PR descriptions is written, and how PR state folds back into the stack.
use vstd::prelude::*;
use vstd::string::*;

use crate::error::StackError;
use crate::git::GitRepo;
use crate::graph::{chain, chain_exec, names_distinct, root_of, sort_by_path, valid_graph};
use crate::order::{name_le, names_of, path_le};
use crate::rebase::{effective_parent, effective_parent_spec};
use crate::state::{find_branch, has_branch, is_first_match, lookup, BranchStatus, ManagedBranch, PullRequestRef, RepoState};
use crate::text::{decimal, find, occurs_at, find_spec, is_blank, is_blank_exec, starts_with, starts_with_exec, to_decimal};

verus! {

/// Marker that opens the generated stack block in a PR description.
pub const STACK_BEGIN: &'static str = "<!-- stack:begin -->";

/// Marker that closes the generated stack block.
pub const STACK_END: &'static str = "<!-- stack:end -->";

/// Provider name recorded for Azure DevOps pull requests.
pub const PROVIDER: &'static str = "azure-devops";

/// Prefix of a full branch ref name.
pub const HEADS_PREFIX: &'static str = "refs/heads/";

/// The part of `az repos pr show/create -o json` output that the stack reads.
#[derive(Debug, Clone)]
pub struct PrInfo {
    pub pull_request_id: u64,
    pub url: Option<String>,
    /// "active" | "completed" | "abandoned"
    pub status: String,
    pub target_ref_name: String,
    pub description: Option<String>,
    pub is_draft: Option<bool>,
    pub reviewers: Vec<Reviewer>,
    pub repository: Option<RepoInfo>,
}

/// One vote on a PR: 10 accepts, 5 accepts with suggestions, 0 none, -5 waits
/// for the author, -10 rejects.
#[derive(Debug, Clone, Copy)]
pub struct Reviewer {
    pub vote: i32,
}

/// Repository URLs as `az` reports them.
#[derive(Debug, Clone)]
pub struct RepoInfo {
    pub url: Option<String>,
    pub web_url: Option<String>,
}

/// `name` without a leading `refs/heads/`.
pub open spec fn strip_ref_spec(name: Seq<char>) -> Seq<char> {
    if starts_with(name, HEADS_PREFIX@) {
        name.skip(HEADS_PREFIX@.len() as int)
    } else {
        name
    }
}

/// `name` as a full ref: unchanged when it already starts with `refs/heads/`.
pub open spec fn branch_ref_spec(name: Seq<char>) -> Seq<char> {
    if starts_with(name, HEADS_PREFIX@) {
        name
    } else {
        HEADS_PREFIX@ + name
    }
}

/// The short branch name of a ref: `refs/heads/x` gives `x`; other names are kept.
pub fn strip_ref(name: &str) -> (r: String)
    ensures
        r@ == strip_ref_spec(name@),
{
    if starts_with_exec(name, HEADS_PREFIX) {
        let n = name.unicode_len();
        let k = HEADS_PREFIX.unicode_len();
        let r = name.substring_char(k, n).to_string();
        assert(r@ =~= name@.skip(k as int));
        r
    } else {
        name.to_string()
    }
}

/// The full ref of a branch name.
pub fn branch_ref(name: &str) -> (r: String)
    ensures
        r@ == branch_ref_spec(name@),
{
    if starts_with_exec(name, HEADS_PREFIX) {
        name.to_string()
    } else {
        let mut r = String::from_str(HEADS_PREFIX);
        r.append(name);
        r
    }
}

/// Law: a branch name that does not itself start with `refs/heads/` comes back
/// unchanged from its full ref.
pub proof fn lemma_strip_branch_ref(name: Seq<char>)
    requires
        !starts_with(name, HEADS_PREFIX@),
    ensures
        strip_ref_spec(branch_ref_spec(name)) == name,
{
    let full = HEADS_PREFIX@ + name;
    assert(full.take(HEADS_PREFIX@.len() as int) =~= HEADS_PREFIX@);
    assert(full.skip(HEADS_PREFIX@.len() as int) =~= name);
}

/// Number of votes that accept the PR (5 or more).
pub open spec fn approvals(reviewers: Seq<Reviewer>) -> nat {
    reviewers.filter(|r: Reviewer| r.vote >= 5).len()
}

/// The vote state shown for an active PR: draft first, then any rejection, then any
/// request for changes, then the number of approvals, else still awaiting votes.
pub open spec fn vote_summary_spec(info: PrInfo) -> Seq<char> {
    if info.is_draft == Some(true) {
        "📝 draft"@
    } else if exists|i: int| 0 <= i < info.reviewers@.len() && info.reviewers@[i].vote == -10 {
        "❌ rejected"@
    } else if exists|i: int| 0 <= i < info.reviewers@.len() && info.reviewers@[i].vote == -5 {
        "✏️ changes requested"@
    } else if approvals(info.reviewers@) > 0 {
        "✅ approved ("@ + decimal(approvals(info.reviewers@)) + ")"@
    } else {
        "⏳ awaiting review"@
    }
}

/// The browser URL of a PR: the repository's web URL, `/pullrequest/` and the id.
pub open spec fn web_url_spec(info: PrInfo) -> Option<Seq<char>> {
    match info.repository {
        Some(repo) => match repo.web_url {
            Some(base) => Some(base@ + "/pullrequest/"@ + decimal(info.pull_request_id as nat)),
            None => None,
        },
        None => None,
    }
}

impl PrInfo {
    /// The REST URL of the PR: `url` when `az` gave it, else the repository's URL,
    /// `/pullRequests/` and the id; none when neither is known.
    pub open spec fn api_url_spec(self) -> Option<Seq<char>> {
        match self.url {
            Some(u) => Some(u@),
            None => match self.repository {
                Some(repo) => match repo.url {
                    Some(base) => Some(base@ + "/pullRequests/"@ + decimal(self.pull_request_id as nat)),
                    None => None,
                },
                None => None,
            },
        }
    }

    /// The browser URL of the PR, when `az` reported the repository's web URL.
    pub fn web_url(&self) -> (r: Option<String>)
        ensures
            match r {
                Some(u) => web_url_spec(*self) == Some(u@),
                None => web_url_spec(*self) is None,
            },
    {
        match &self.repository {
            Some(repo) => match &repo.web_url {
                Some(base) => {
                    let mut u = base.clone();
                    u.append("/pullrequest/");
                    u.append(to_decimal(self.pull_request_id).as_str());
                    Some(u)
                },
                None => None,
            },
            None => None,
        }
    }

    /// The branch the PR merges into.
    pub fn target_branch(&self) -> (r: String)
        ensures
            r@ == strip_ref_spec(self.target_ref_name@),
    {
        strip_ref(self.target_ref_name.as_str())
    }

    /// The REST URL of the PR: `url` when `az` gave it, else built from the
    /// repository's URL; refused when neither is known.
    pub fn api_url(&self) -> (r: Result<String, StackError>)
        ensures
            match self.api_url_spec() {
                Some(u) => r matches Ok(v) && v@ == u,
                None => r == Err::<String, StackError>(StackError::MissingRestUrl(self.pull_request_id)),
            },
    {
        if let Some(url) = &self.url {
            return Ok(url.clone());
        }
        match &self.repository {
            Some(repo) => match &repo.url {
                Some(base) => {
                    let mut u = base.clone();
                    u.append("/pullRequests/");
                    u.append(to_decimal(self.pull_request_id).as_str());
                    Ok(u)
                },
                None => Err(StackError::MissingRestUrl(self.pull_request_id)),
            },
            None => Err(StackError::MissingRestUrl(self.pull_request_id)),
        }
    }
}

/// The vote state of an active PR (see `vote_summary_spec`).
pub fn vote_summary(info: &PrInfo) -> (r: String)
    ensures
        r@ == vote_summary_spec(*info),
{
    if info.is_draft == Some(true) {
        return String::from_str("📝 draft");
    }
    let n = info.reviewers.len();
    let mut rejected = false;
    let mut changes = false;
    let mut count: u64 = 0;
    let ghost p = |r: Reviewer| r.vote >= 5;
    let mut i: usize = 0;
    while i < n
        invariant
            n == info.reviewers@.len(),
            i <= n,
            p == (|r: Reviewer| r.vote >= 5),
            rejected == exists|j: int| 0 <= j < i && info.reviewers@[j].vote == -10,
            changes == exists|j: int| 0 <= j < i && info.reviewers@[j].vote == -5,
            count == info.reviewers@.take(i as int).filter(p).len(),
            count <= i,
        decreases n - i,
    {
        let v = info.reviewers[i].vote;
        if v == -10 {
            rejected = true;
        }
        if v == -5 {
            changes = true;
        }
        proof {
            assert(info.reviewers@.take(i + 1) =~= info.reviewers@.take(i as int).push(
                info.reviewers@[i as int],
            ));
            info.reviewers@.take(i as int).lemma_filter_push(info.reviewers@[i as int], p);
        }
        if v >= 5 {
            count = count + 1;
        }
        i = i + 1;
    }
    assert(info.reviewers@.take(n as int) =~= info.reviewers@);
    if rejected {
        return String::from_str("❌ rejected");
    }
    if changes {
        return String::from_str("✏️ changes requested");
    }
    if count > 0 {
        let mut r = String::from_str("✅ approved (");
        r.append(to_decimal(count).as_str());
        r.append(")");
        r
    } else {
        String::from_str("⏳ awaiting review")
    }
}

/// `description` with the stack block replaced by `block`: the text from the first
/// begin marker to the first end marker, when both occur in that order; otherwise
/// `block` alone for a blank description, or appended after a blank line.
pub open spec fn splice_spec(description: Seq<char>, block: Seq<char>) -> Seq<char> {
    let b = find_spec(description, STACK_BEGIN@);
    let e = find_spec(description, STACK_END@);
    if b is Some && e is Some && e->0 >= b->0 {
        description.take(b->0) + block + description.skip(e->0 + STACK_END@.len())
    } else if is_blank(description) {
        block
    } else {
        description + "\n\n"@ + block
    }
}

/// Put `block` into `description` (see `splice_spec`).
pub fn splice_block(description: &str, block: &str) -> (r: String)
    ensures
        r@ == splice_spec(description@, block@),
{
    let b = find(description, STACK_BEGIN);
    let e = find(description, STACK_END);
    if let (Some(start), Some(end)) = (b, e) {
        if end >= start {
            let n = description.unicode_len();
            let k = STACK_END.unicode_len();
            proof {
                crate::text::lemma_find_some(description@, STACK_END@);
            }
            let head = description.substring_char(0, start);
            let tail = description.substring_char(end + k, n);
            let mut r = head.to_string();
            r.append(block);
            r.append(tail);
            assert(head@ =~= description@.take(start as int));
            assert(tail@ =~= description@.skip(end + k));
            return r;
        }
    }
    if is_blank_exec(description) {
        block.to_string()
    } else {
        let mut r = description.to_string();
        r.append("\n\n");
        r.append(block);
        r
    }
}

/// No occurrence of a pattern without line breaks starts before the first one of `b`
/// in `d + "\n\n" + b`, when `d` has none.
proof fn lemma_no_early_occurrence(d: Seq<char>, b: Seq<char>, p: Seq<char>, q: int, j: int)
    requires
        p.len() >= 1,
        forall|k: int| 0 <= k < p.len() ==> p[k] != '\n',
        forall|i: int| !occurs_at(d, p, i),
        forall|i: int| 0 <= i < q ==> !occurs_at(b, p, i),
        0 <= j < d.len() + 2 + q,
    ensures
        !occurs_at(d + seq!['\n', '\n'] + b, p, j),
{
    let x = d + seq!['\n', '\n'] + b;
    if occurs_at(x, p, j) {
        let w = x.subrange(j, j + p.len());
        assert(w == p);
        if j + p.len() <= d.len() {
            assert(d.subrange(j, j + p.len()) =~= w);
            assert(occurs_at(d, p, j));
        } else if j < d.len() + 2 {
            let m = if j >= d.len() {
                j
            } else {
                d.len() as int
            };
            assert(x[m] == '\n');
            assert(w[m - j] == x[m]);
            assert(p[m - j] == '\n');
        } else {
            let o = j - d.len() - 2;
            assert(b.subrange(o, o + p.len()) =~= w);
            assert(occurs_at(b, p, o));
        }
    }
}

/// In `d + "\n\n" + b`, a pattern without line breaks that does not occur in `d` is
/// first found where it is first found in `b`.
proof fn lemma_find_after_blank_line(d: Seq<char>, b: Seq<char>, p: Seq<char>, q: int)
    requires
        p.len() >= 1,
        forall|k: int| 0 <= k < p.len() ==> p[k] != '\n',
        forall|i: int| !occurs_at(d, p, i),
        occurs_at(b, p, q),
        forall|j: int| 0 <= j < q ==> !occurs_at(b, p, j),
    ensures
        find_spec(d + seq!['\n', '\n'] + b, p) == Some(d.len() + 2 + q),
{
    let x = d + seq!['\n', '\n'] + b;
    let pos = d.len() + 2 + q;
    assert(x.subrange(pos, pos + p.len()) =~= b.subrange(q, q + p.len()));
    assert forall|j: int| 0 <= j < pos implies !occurs_at(x, p, j) by {
        lemma_no_early_occurrence(d, b, p, q, j);
    }
    crate::text::lemma_find_unique(x, p, pos);
}

/// The characters of the markers and of the blank line that the splice relies on.
proof fn lemma_marker_text()
    ensures
        "\n\n"@ == seq!['\n', '\n'],
        STACK_BEGIN@.len() >= 1,
        forall|k: int| 0 <= k < STACK_BEGIN@.len() ==> STACK_BEGIN@[k] != '\n',
        STACK_END@.len() >= 1,
        forall|k: int| 0 <= k < STACK_END@.len() ==> STACK_END@[k] != '\n',
{
    reveal_strlit("\n\n");
    reveal_strlit("<!-- stack:begin -->");
    reveal_strlit("<!-- stack:end -->");
    assert("\n\n"@ =~= seq!['\n', '\n']);
}

/// Law: writing a new stack block into a description that already carries one
/// generated block replaces it: splicing `b1` and then `b2` into a description without
/// markers gives the same text as splicing `b2` alone. `b1` is a generated block: it
/// starts with the begin marker, and the end marker first occurs at its end.
pub proof fn lemma_splice_replaces(d: Seq<char>, b1: Seq<char>, b2: Seq<char>)
    requires
        find_spec(d, STACK_BEGIN@) is None,
        find_spec(d, STACK_END@) is None,
        find_spec(b1, STACK_BEGIN@) == Some(0int),
        find_spec(b1, STACK_END@) == Some(b1.len() - STACK_END@.len()),
    ensures
        splice_spec(splice_spec(d, b1), b2) == splice_spec(d, b2),
{
    crate::text::lemma_find_some(b1, STACK_END@);
    if is_blank(d) {
        lemma_splice_blank(d, b1, b2);
    } else {
        lemma_splice_text(d, b1, b2);
    }
}

proof fn lemma_splice_blank(d: Seq<char>, b1: Seq<char>, b2: Seq<char>)
    requires
        is_blank(d),
        find_spec(d, STACK_BEGIN@) is None,
        find_spec(b1, STACK_BEGIN@) == Some(0int),
        find_spec(b1, STACK_END@) == Some(b1.len() - STACK_END@.len()),
        b1.len() >= STACK_END@.len(),
    ensures
        splice_spec(splice_spec(d, b1), b2) == splice_spec(d, b2),
{
    assert(splice_spec(d, b1) == b1);
    assert(b1.take(0) + b2 + b1.skip(b1.len() - STACK_END@.len() + STACK_END@.len()) =~= b2);
}

proof fn lemma_splice_text(d: Seq<char>, b1: Seq<char>, b2: Seq<char>)
    requires
        !is_blank(d),
        find_spec(d, STACK_BEGIN@) is None,
        find_spec(d, STACK_END@) is None,
        find_spec(b1, STACK_BEGIN@) == Some(0int),
        find_spec(b1, STACK_END@) == Some(b1.len() - STACK_END@.len()),
    ensures
        splice_spec(splice_spec(d, b1), b2) == splice_spec(d, b2),
{
    let nl = seq!['\n', '\n'];
    lemma_marker_text();
    let begin = STACK_BEGIN@;
    let end = STACK_END@;
    crate::text::lemma_find_some(b1, begin);
    crate::text::lemma_find_some(b1, end);
    crate::text::lemma_find_none(d, begin);
    crate::text::lemma_find_none(d, end);
    let e1 = b1.len() - end.len();
    let x = d + nl + b1;
    assert(splice_spec(d, b1) == x);
    assert(splice_spec(d, b2) == d + nl + b2);
    assert(find_spec(x, begin) == Some(d.len() + 2int)) by {
        lemma_find_after_blank_line(d, b1, begin, 0);
    }
    assert(find_spec(x, end) == Some(d.len() + 2int + e1)) by {
        lemma_find_after_blank_line(d, b1, end, e1);
    }
    assert(splice_spec(x, b2) == x.take(d.len() + 2int) + b2 + x.skip(d.len() + 2 + e1 + end.len()));
    assert(x.take(d.len() + 2int) =~= d + nl);
    assert(x.skip(d.len() + 2 + e1 + end.len()) =~= Seq::<char>::empty());
    assert(d + nl + b2 + Seq::<char>::empty() =~= d + nl + b2);
}

/// In `x + m + w`, where `m` does not occur in `x` and the first character of `m`
/// occurs nowhere else in `m`, the first occurrence of `m` is at the end of `x`.
proof fn lemma_find_after_prefix(x: Seq<char>, m: Seq<char>, w: Seq<char>)
    requires
        m.len() >= 1,
        forall|k: int| 0 < k < m.len() ==> #[trigger] m[k] != m[0],
        forall|i: int| !occurs_at(x, m, i),
    ensures
        find_spec(x + m + w, m) == Some(x.len() as int),
{
    let d = x + m + w;
    assert(d.subrange(x.len() as int, (x.len() + m.len()) as int) =~= m);
    assert forall|j: int| 0 <= j < x.len() implies !occurs_at(d, m, j) by {
        if occurs_at(d, m, j) {
            if j + m.len() <= x.len() {
                assert(x.subrange(j, j + m.len()) =~= d.subrange(j, j + m.len()));
                assert(occurs_at(x, m, j));
            } else {
                let o = x.len() - j;
                assert(d.subrange(j, j + m.len())[o] == d[x.len() as int]);
                assert(d[x.len() as int] == m[0]);
                assert(m[o] == m[0]);
            }
        }
    }
    crate::text::lemma_find_unique(d, m, x.len() as int);
}

/// The two markers each start with the only `<` they hold, and the end marker is no
/// prefix of the begin marker.
proof fn lemma_marker_shapes()
    ensures
        STACK_BEGIN@.len() == 20,
        STACK_END@.len() == 18,
        STACK_BEGIN@[0] == '<',
        STACK_END@[0] == '<',
        forall|k: int| 0 < k < STACK_BEGIN@.len() ==> #[trigger] STACK_BEGIN@[k] != '<',
        forall|k: int| 0 < k < STACK_END@.len() ==> #[trigger] STACK_END@[k] != '<',
        STACK_BEGIN@[11] != STACK_END@[11],
{
    reveal_strlit("<!-- stack:begin -->");
    reveal_strlit("<!-- stack:end -->");
}

/// The end marker does not occur in `p + begin + y` when it occurs neither in `p` nor
/// in `y`.
proof fn lemma_no_end_marker(p: Seq<char>, y: Seq<char>)
    requires
        forall|i: int| !occurs_at(p, STACK_END@, i),
        forall|i: int| !occurs_at(y, STACK_END@, i),
    ensures
        forall|i: int| !occurs_at(p + STACK_BEGIN@ + y, STACK_END@, i),
{
    lemma_marker_shapes();
    let begin = STACK_BEGIN@;
    let end = STACK_END@;
    let x = p + begin + y;
    assert forall|j: int| !occurs_at(x, end, j) by {
        if occurs_at(x, end, j) {
            let w = x.subrange(j, j + end.len());
            if j + end.len() <= p.len() {
                assert(p.subrange(j, j + end.len()) =~= w);
                assert(occurs_at(p, end, j));
            } else if j < p.len() {
                let o = p.len() - j;
                assert(w[o] == x[p.len() as int]);
                assert(x[p.len() as int] == begin[0]);
                assert(end[o] == '<');
            } else if j < p.len() + begin.len() {
                assert(w[0] == x[j]);
                assert(x[j] == begin[j - p.len()]);
                if j > p.len() {
                    assert(begin[j - p.len()] == '<');
                } else {
                    assert(w[11] == x[j + 11]);
                    assert(x[j + 11] == begin[11]);
                    assert(end[11] == begin[11]);
                }
            } else {
                let o = j - p.len() - begin.len();
                assert(y.subrange(o, o + end.len()) =~= w);
                assert(occurs_at(y, end, o));
            }
        }
    }
}

/// Law: splicing a block into a description that holds a stack block replaces exactly
/// that block: the text before it and the text after it stay as they were. The text
/// before holds neither marker, and the old block holds no end marker inside.
pub proof fn lemma_splice_keeps_surroundings(p: Seq<char>, y: Seq<char>, s: Seq<char>, b: Seq<char>)
    requires
        find_spec(p, STACK_BEGIN@) is None,
        find_spec(p, STACK_END@) is None,
        find_spec(y, STACK_END@) is None,
    ensures
        splice_spec(p + STACK_BEGIN@ + y + STACK_END@ + s, b) == p + b + s,
{
    lemma_marker_shapes();
    let begin = STACK_BEGIN@;
    let end = STACK_END@;
    crate::text::lemma_find_none(p, begin);
    crate::text::lemma_find_none(p, end);
    crate::text::lemma_find_none(y, end);
    let d = p + begin + y + end + s;
    assert(d =~= p + begin + (y + end + s));
    lemma_find_after_prefix(p, begin, y + end + s);
    lemma_no_end_marker(p, y);
    assert(d =~= (p + begin + y) + end + s);
    lemma_find_after_prefix(p + begin + y, end, s);
    let e = p.len() + begin.len() + y.len();
    assert(d.take(p.len() as int) =~= p);
    assert(d.skip((e + end.len()) as int) =~= s);
}

/// A generated block, the begin marker, text without markers and the end marker,
/// starts with its begin marker, and its first end marker is the one that closes it.
proof fn lemma_generated_block(x: Seq<char>)
    requires
        find_spec(x, STACK_BEGIN@) is None,
        find_spec(x, STACK_END@) is None,
    ensures
        find_spec(STACK_BEGIN@ + x + STACK_END@, STACK_BEGIN@) == Some(0int),
        find_spec(STACK_BEGIN@ + x + STACK_END@, STACK_END@) == Some(
            (STACK_BEGIN@.len() + x.len()) as int,
        ),
{
    lemma_marker_shapes();
    let begin = STACK_BEGIN@;
    let end = STACK_END@;
    let e = Seq::<char>::empty();
    crate::text::lemma_find_none(x, end);
    assert forall|i: int| !occurs_at(e, begin, i) by {}
    assert forall|i: int| !occurs_at(e, end, i) by {}
    assert(e + begin + (x + end) =~= begin + x + end);
    lemma_find_after_prefix(e, begin, x + end);
    lemma_no_end_marker(e, x);
    assert(e + begin + x =~= begin + x);
    assert(begin + x + end + e =~= begin + x + end);
    lemma_find_after_prefix(begin + x, end, e);
}

/// Law: splicing a generated block `b1` (the begin marker, text `x1` without markers,
/// the end marker) into a description `d` without markers appends it after a blank line
/// (or gives the block alone for a blank description); splicing another block `b2`
/// afterwards gives what splicing `b2` alone gives.
pub proof fn lemma_splice_generated_blocks(d: Seq<char>, x1: Seq<char>, b2: Seq<char>)
    requires
        find_spec(d, STACK_BEGIN@) is None,
        find_spec(d, STACK_END@) is None,
        find_spec(x1, STACK_BEGIN@) is None,
        find_spec(x1, STACK_END@) is None,
    ensures
        splice_spec(d, STACK_BEGIN@ + x1 + STACK_END@) == if is_blank(d) {
            STACK_BEGIN@ + x1 + STACK_END@
        } else {
            d + "\n\n"@ + STACK_BEGIN@ + x1 + STACK_END@
        },
        splice_spec(splice_spec(d, STACK_BEGIN@ + x1 + STACK_END@), b2) == splice_spec(d, b2),
{
    let b1 = STACK_BEGIN@ + x1 + STACK_END@;
    lemma_generated_block(x1);
    assert(b1.len() - STACK_END@.len() == STACK_BEGIN@.len() + x1.len());
    lemma_splice_replaces(d, b1, b2);
    assert(d + "\n\n"@ + b1 =~= d + "\n\n"@ + STACK_BEGIN@ + x1 + STACK_END@);
}

/// The root of the stack that `current` belongs to: follow tracked parents up.
pub fn stack_root(state: &RepoState, current: &str) -> (r: String)
    requires
        valid_graph(state.branches@, state.repo.trunk@),
        !has_branch(state.branches@, state.repo.trunk@),
    ensures
        r@ == root_of(state.branches@, state.repo.trunk@, current@),
{
    let (c, _) = chain_exec(state, current, state.branches.len());
    assert(names_of(c@).len() >= 1) by {
        assert(names_of(c@) == chain(state.branches@, state.repo.trunk@, current@, state.branches@.len() as nat));
    }
    c[c.len() - 1].clone()
}

/// `name` belongs to the stack rooted at `root`: `root` is `name` or one of its
/// ancestors.
pub open spec fn in_stack(s: Seq<ManagedBranch>, t: Seq<char>, name: Seq<char>, root: Seq<char>) -> bool {
    chain(s, t, name, s.len()).contains(root)
}

/// Whether `name` belongs to the stack rooted at `root`.
pub fn branch_is_in_stack(state: &RepoState, name: &str, root: &str) -> (r: bool)
    requires
        valid_graph(state.branches@, state.repo.trunk@),
        !has_branch(state.branches@, state.repo.trunk@),
    ensures
        r == in_stack(state.branches@, state.repo.trunk@, name@, root@),
{
    let ghost s = state.branches@;
    let ghost t = state.repo.trunk@;
    let (c, _) = chain_exec(state, name, state.branches.len());
    let ghost cs = names_of(c@);
    let mut k: usize = 0;
    while k < c.len()
        invariant
            cs == names_of(c@),
            cs == chain(s, t, name@, s.len()),
            s == state.branches@,
            t == state.repo.trunk@,
            k <= c@.len(),
            forall|j: int| 0 <= j < k ==> cs[j] != root@,
        decreases c@.len() - k,
    {
        if crate::text::str_eq(c[k].as_str(), root) {
            assert(cs[k as int] == root@);
            assert(cs.contains(root@));
            return true;
        }
        k = k + 1;
    }
    false
}

/// The names of `order` that belong to the same stack as `current`, in that order.
pub open spec fn stack_order_spec(
    s: Seq<ManagedBranch>,
    t: Seq<char>,
    order: Seq<Seq<char>>,
    current: Seq<char>,
) -> Seq<Seq<char>> {
    order.filter(|n: Seq<char>| in_stack(s, t, n, root_of(s, t, current)))
}

/// The part of `order` that forms the stack of `current`.
pub fn stack_order_for_branch(state: &RepoState, order: &Vec<String>, current: &str) -> (r: Vec<String>)
    requires
        valid_graph(state.branches@, state.repo.trunk@),
        !has_branch(state.branches@, state.repo.trunk@),
    ensures
        names_of(r@) == stack_order_spec(state.branches@, state.repo.trunk@, names_of(order@), current@),
{
    let ghost s = state.branches@;
    let ghost t = state.repo.trunk@;
    let root = stack_root(state, current);
    let ghost p = |n: Seq<char>| in_stack(s, t, n, root_of(s, t, current@));
    let mut out: Vec<String> = Vec::new();
    let mut k: usize = 0;
    while k < order.len()
        invariant
            s == state.branches@,
            t == state.repo.trunk@,
            valid_graph(s, t),
            !has_branch(s, t),
            root@ == root_of(s, t, current@),
            p == (|n: Seq<char>| in_stack(s, t, n, root_of(s, t, current@))),
            k <= order@.len(),
            names_of(out@) == names_of(order@).take(k as int).filter(p),
        decreases order@.len() - k,
    {
        proof {
            assert(names_of(order@).take(k + 1) =~= names_of(order@).take(k as int).push(order@[k as int]@));
            names_of(order@).take(k as int).lemma_filter_push(order@[k as int]@, p);
        }
        if branch_is_in_stack(state, order[k].as_str(), root.as_str()) {
            out.push(order[k].clone());
            assert(names_of(out@) =~= names_of(order@).take(k as int).filter(p).push(order@[k as int]@));
        }
        k = k + 1;
    }
    assert(names_of(order@).take(order@.len() as int) =~= names_of(order@));
    out
}

/// The first entry of `infos` for branch `name`.
pub open spec fn info_for(infos: Seq<(String, PrInfo)>, name: Seq<char>) -> Option<PrInfo>
    decreases infos.len(),
{
    if infos.len() == 0 {
        None
    } else if infos[0].0@ == name {
        Some(infos[0].1)
    } else {
        info_for(infos.drop_first(), name)
    }
}

/// The PR details recorded for branch `name`, if any.
pub fn info_lookup<'a>(infos: &'a Vec<(String, PrInfo)>, name: &str) -> (r: Option<&'a PrInfo>)
    ensures
        match r {
            Some(i) => info_for(infos@, name@) == Some(*i),
            None => info_for(infos@, name@) is None,
        },
{
    let mut k: usize = 0;
    assert(infos@.skip(0) =~= infos@);
    while k < infos.len()
        invariant
            k <= infos@.len(),
            info_for(infos@.skip(k as int), name@) == info_for(infos@, name@),
        decreases infos@.len() - k,
    {
        assert(infos@.skip(k as int).drop_first() =~= infos@.skip(k + 1));
        if crate::text::str_eq(infos[k].0.as_str(), name) {
            return Some(&infos[k].1);
        }
        k = k + 1;
    }
    assert(infos@.skip(k as int) =~= Seq::<(String, PrInfo)>::empty());
    None
}

/// One line of the stack block: the PR label, the branch, its state, and a pointer at
/// the PR the block is written into.
pub open spec fn block_line(
    b: ManagedBranch,
    infos: Seq<(String, PrInfo)>,
    current: Seq<char>,
) -> Seq<char> {
    let label = match b.pr {
        Some(pr) => "!"@ + pr.id@,
        None => "(no PR)"@,
    };
    let status = match b.status {
        BranchStatus::Merged => "✅ merged"@,
        BranchStatus::Archived => "📦 archived"@,
        BranchStatus::Active => match info_for(infos, b.name@) {
            Some(info) => vote_summary_spec(info),
            None => "⏳"@,
        },
    };
    let here = if b.name@ == current {
        "  👈 this PR"@
    } else {
        ""@
    };
    "← "@ + label + " `"@ + b.name@ + "` — "@ + status + here
}

/// The lines for the tracked names of `order`, in order; untracked names are skipped.
pub open spec fn block_entries(
    s: Seq<ManagedBranch>,
    order: Seq<Seq<char>>,
    infos: Seq<(String, PrInfo)>,
    current: Seq<char>,
) -> Seq<Seq<char>>
    decreases order.len(),
{
    if order.len() == 0 {
        Seq::empty()
    } else {
        let rest = block_entries(s, order.drop_last(), infos, current);
        match lookup(s, order.last()) {
            Some(b) => rest.push(block_line(b, infos, current)),
            None => rest,
        }
    }
}

/// Lines joined with line breaks.
pub open spec fn join_lines(lines: Seq<Seq<char>>) -> Seq<char>
    decreases lines.len(),
{
    if lines.len() == 0 {
        Seq::empty()
    } else if lines.len() == 1 {
        lines[0]
    } else {
        join_lines(lines.drop_last()) + "\n"@ + lines.last()
    }
}

/// The stack block written into the PR of `current`: begin marker, heading, trunk,
/// one line per tracked branch of `order`, closing note, end marker.
pub open spec fn stack_block_spec(
    s: Seq<ManagedBranch>,
    t: Seq<char>,
    order: Seq<Seq<char>>,
    infos: Seq<(String, PrInfo)>,
    current: Seq<char>,
) -> Seq<char> {
    join_lines(
        seq![STACK_BEGIN@, "📚 **Stack** (merge order, bottom first):"@, ""@, "`"@ + t + "`"@]
            + block_entries(s, order, infos, current) + seq![
            ""@,
            "Review and merge bottom-up. This block is auto-generated by `stack`."@,
            STACK_END@,
        ],
    )
}

/// `s` ends with `x`.
pub open spec fn ends_with(s: Seq<char>, x: Seq<char>) -> bool {
    x.len() <= s.len() && s.skip(s.len() - x.len()) == x
}

/// The pointer after the state of the current PR's line.
pub open spec fn here_mark(name: Seq<char>, current: Seq<char>) -> Seq<char> {
    if name == current {
        "  👈 this PR"@
    } else {
        ""@
    }
}

/// A state word that cannot end like `✅ merged`: its last character is not `d`, or its
/// third to last is not `g`.
spec fn unlike_merged(st: Seq<char>) -> bool {
    st.len() >= 1 && (st.last() != 'd' || (st.len() >= 3 && st[st.len() - 3] != 'g'))
}

proof fn lemma_vote_summary_unlike_merged(info: PrInfo)
    ensures
        unlike_merged(vote_summary_spec(info)),
{
    reveal_strlit("📝 draft");
    reveal_strlit("❌ rejected");
    reveal_strlit("✏️ changes requested");
    reveal_strlit("✅ approved (");
    reveal_strlit(")");
    reveal_strlit("⏳ awaiting review");
    let st = vote_summary_spec(info);
    if info.is_draft != Some(true) && !(exists|i: int| 0 <= i < info.reviewers@.len() && info.reviewers@[i].vote == -10)
        && !(exists|i: int| 0 <= i < info.reviewers@.len() && info.reviewers@[i].vote == -5)
        && approvals(info.reviewers@) > 0 {
        let x = "✅ approved ("@ + decimal(approvals(info.reviewers@)) + ")"@;
        assert(x.last() == ')');
    }
}

/// Law: the line of a branch in the stack block ends with the state `✅ merged` (then
/// the pointer for the current PR) exactly when the branch is merged.
pub proof fn lemma_block_line_merged_state(b: ManagedBranch, infos: Seq<(String, PrInfo)>, current: Seq<char>)
    ensures
        ends_with(block_line(b, infos, current), "✅ merged"@ + here_mark(b.name@, current))
            <==> b.status == BranchStatus::Merged,
{
    reveal_strlit("✅ merged");
    reveal_strlit("📦 archived");
    reveal_strlit("⏳");
    let m = "✅ merged"@;
    let h = here_mark(b.name@, current);
    let line = block_line(b, infos, current);
    let label = match b.pr {
        Some(pr) => "!"@ + pr.id@,
        None => "(no PR)"@,
    };
    let st = if b.status == BranchStatus::Merged {
        m
    } else if b.status == BranchStatus::Archived {
        "📦 archived"@
    } else {
        match info_for(infos, b.name@) {
            Some(info) => vote_summary_spec(info),
            None => "⏳"@,
        }
    };
    let pre = "← "@ + label + " `"@ + b.name@ + "` — "@;
    assert(line == pre + st + h);
    let mh = m + h;
    if b.status == BranchStatus::Merged {
        assert(line.skip(line.len() - mh.len()) =~= mh);
    } else {
        match b.status {
            BranchStatus::Active => match info_for(infos, b.name@) {
                Some(info) => lemma_vote_summary_unlike_merged(info),
                None => {},
            },
            _ => {},
        }
        assert(unlike_merged(st));
        if ends_with(line, mh) {
            let l = line.len();
            let ps = pre + st;
            assert(line =~= ps + h);
            assert(line[l - h.len() - 1] == mh[7]);
            assert(mh[7] == 'd');
            assert(line[l - h.len() - 1] == st.last());
            assert(st.last() == 'd');
            assert(line[l - h.len() - 3] == mh[5]);
            assert(mh[5] == 'g');
            assert(line[l - h.len() - 3] == st[st.len() - 3]);
        }
    }
}

fn line_for(b: &ManagedBranch, infos: &Vec<(String, PrInfo)>, current: &str) -> (r: String)
    ensures
        r@ == block_line(*b, infos@, current@),
{
    let label = match &b.pr {
        Some(pr) => {
            let mut l = String::from_str("!");
            l.append(pr.id.as_str());
            l
        },
        None => String::from_str("(no PR)"),
    };
    let status = match b.status {
        BranchStatus::Merged => String::from_str("✅ merged"),
        BranchStatus::Archived => String::from_str("📦 archived"),
        BranchStatus::Active => match info_lookup(infos, b.name.as_str()) {
            Some(info) => vote_summary(info),
            None => String::from_str("⏳"),
        },
    };
    let mut r = String::from_str("← ");
    r.append(label.as_str());
    r.append(" `");
    r.append(b.name.as_str());
    r.append("` — ");
    r.append(status.as_str());
    if crate::text::str_eq(b.name.as_str(), current) {
        r.append("  👈 this PR");
    } else {
        r.append("");
    }
    r
}

/// Join lines with line breaks.
pub fn join(lines: &Vec<String>) -> (r: String)
    ensures
        r@ == join_lines(names_of(lines@)),
{
    let mut out = String::new();
    let mut k: usize = 0;
    while k < lines.len()
        invariant
            k <= lines@.len(),
            out@ == join_lines(names_of(lines@).take(k as int)),
        decreases lines@.len() - k,
    {
        let ghost before = names_of(lines@).take(k as int);
        assert(names_of(lines@).take(k + 1).drop_last() =~= before);
        if k > 0 {
            out.append("\n");
        }
        out.append(lines[k].as_str());
        proof {
            if k == 0 {
                assert(out@ =~= lines@[0]@);
            }
        }
        k = k + 1;
    }
    assert(names_of(lines@).take(lines@.len() as int) =~= names_of(lines@));
    out
}

/// The stack block for the PR of `current` (see `stack_block_spec`).
pub fn build_stack_block(
    state: &RepoState,
    order: &Vec<String>,
    infos: &Vec<(String, PrInfo)>,
    current: &str,
) -> (r: String)
    ensures
        r@ == stack_block_spec(state.branches@, state.repo.trunk@, names_of(order@), infos@, current@),
{
    let ghost s = state.branches@;
    let mut lines: Vec<String> = Vec::new();
    lines.push(String::from_str(STACK_BEGIN));
    lines.push(String::from_str("📚 **Stack** (merge order, bottom first):"));
    lines.push(String::from_str(""));
    let mut trunk_line = String::from_str("`");
    trunk_line.append(state.repo.trunk.as_str());
    trunk_line.append("`");
    lines.push(trunk_line);
    let ghost head = names_of(lines@);
    proof {
        assert(head =~= seq![STACK_BEGIN@, "📚 **Stack** (merge order, bottom first):"@, ""@, "`"@ + state.repo.trunk@ + "`"@]);
    }
    let mut k: usize = 0;
    while k < order.len()
        invariant
            s == state.branches@,
            head == seq![STACK_BEGIN@, "📚 **Stack** (merge order, bottom first):"@, ""@, "`"@ + state.repo.trunk@ + "`"@],
            k <= order@.len(),
            names_of(lines@) == head + block_entries(s, names_of(order@).take(k as int), infos@, current@),
        decreases order@.len() - k,
    {
        let ghost before = names_of(lines@);
        proof {
            assert(names_of(order@).take(k + 1).drop_last() =~= names_of(order@).take(k as int));
            assert(names_of(order@).take(k + 1).last() == order@[k as int]@);
        }
        match state.branch(order[k].as_str()) {
            Some(b) => {
                lines.push(line_for(b, infos, current));
                assert(names_of(lines@) =~= before.push(block_line(*b, infos@, current@)));
            },
            None => {},
        }
        k = k + 1;
    }
    assert(names_of(order@).take(order@.len() as int) =~= names_of(order@));
    let ghost mid = names_of(lines@);
    lines.push(String::from_str(""));
    lines.push(String::from_str("Review and merge bottom-up. This block is auto-generated by `stack`."));
    lines.push(String::from_str(STACK_END));
    proof {
        assert(names_of(lines@) =~= mid + seq![
            ""@,
            "Review and merge bottom-up. This block is auto-generated by `stack`."@,
            STACK_END@,
        ]);
    }
    join(&lines)
}

/// Position of the first entry of `infos` for branch `name`.
pub fn info_position(infos: &Vec<(String, PrInfo)>, name: &str) -> (r: Option<usize>)
    ensures
        match r {
            Some(k) => k < infos@.len() && infos@[k as int].0@ == name@ && info_for(infos@, name@)
                == Some(infos@[k as int].1),
            None => info_for(infos@, name@) is None,
        },
{
    let mut k: usize = 0;
    assert(infos@.skip(0) =~= infos@);
    while k < infos.len()
        invariant
            k <= infos@.len(),
            info_for(infos@.skip(k as int), name@) == info_for(infos@, name@),
        decreases infos@.len() - k,
    {
        assert(infos@.skip(k as int).drop_first() =~= infos@.skip(k + 1));
        if crate::text::str_eq(infos[k].0.as_str(), name) {
            return Some(k);
        }
        k = k + 1;
    }
    assert(infos@.skip(k as int) =~= Seq::<(String, PrInfo)>::empty());
    None
}

/// A change that the PR reconciliation made to a branch.
#[derive(Debug, Clone)]
pub enum PrUpdate {
    /// The PR completed, so the branch was marked merged.
    Merged { name: String, pr_id: String },
    /// The PR was abandoned, so its reference was dropped.
    Abandoned { name: String, pr_id: String },
}

/// An open PR whose target branch differs from the branch's effective parent.
#[derive(Debug, Clone)]
pub struct Retarget {
    pub name: String,
    pub pr_id: u64,
    /// The branch the PR currently targets.
    pub actual: String,
    /// The effective parent it should target.
    pub expected: String,
    /// Where the PR's details stand in the list handed to the reconciliation.
    pub shown_index: usize,
    /// Where the branch stands in the state's branch list.
    pub branch_index: usize,
}

/// The outcome of folding PR states into the stack state.
#[derive(Debug, Clone)]
pub struct Reconciliation {
    /// Whether the stack state changed.
    pub changed: bool,
    /// Branches marked merged or whose PR was dropped, in state order.
    pub updates: Vec<PrUpdate>,
    /// Open PRs to retarget, in branch name order.
    pub retargets: Vec<Retarget>,
}

/// The shown PR details for `b`, when `b` tracks a PR.
pub open spec fn shown_info(shown: Seq<(String, PrInfo)>, b: ManagedBranch) -> Option<PrInfo> {
    if b.pr is Some {
        info_for(shown, b.name@)
    } else {
        None
    }
}

/// `b` after its PR's status is folded in: completed marks it merged, abandoned drops
/// the PR reference.
pub open spec fn after_status(b: ManagedBranch, info: Option<PrInfo>) -> ManagedBranch {
    match info {
        Some(i) => if i.status@ == "completed"@ {
            ManagedBranch { status: BranchStatus::Merged, ..b }
        } else if i.status@ == "abandoned"@ {
            ManagedBranch { pr: None, ..b }
        } else {
            b
        },
        None => b,
    }
}

/// All branches after the status pass.
pub open spec fn after_statuses(s: Seq<ManagedBranch>, shown: Seq<(String, PrInfo)>) -> Seq<ManagedBranch> {
    Seq::new(s.len(), |i: int| after_status(s[i], shown_info(shown, s[i])))
}

/// The PR is neither completed nor abandoned.
pub open spec fn open_pr(info: Option<PrInfo>) -> bool {
    info matches Some(i) && i.status@ != "completed"@ && i.status@ != "abandoned"@
}

/// In the state `s1` after the status pass, branch `i` is active with an open PR: its
/// PR target is brought in line.
pub open spec fn retargeted(s1: Seq<ManagedBranch>, shown: Seq<(String, PrInfo)>, i: int) -> bool {
    open_pr(shown_info(shown, s1[i])) && s1[i].status == BranchStatus::Active
}

/// The target the PR of branch `i` should have: its effective parent in the state `s1`
/// after the status pass, once it is settled which branches are merged.
#[verifier::opaque]
pub open spec fn expected_target(s1: Seq<ManagedBranch>, t: Seq<char>, i: int) -> Seq<char> {
    effective_parent_spec(s1, t, s1[i])
}

/// The PR of branch `i` targets another branch than it should.
pub open spec fn remote_mismatch(
    s1: Seq<ManagedBranch>,
    t: Seq<char>,
    shown: Seq<(String, PrInfo)>,
    i: int,
) -> bool {
    retargeted(s1, shown, i) && strip_ref_spec(shown_info(shown, s1[i])->0.target_ref_name@)
        != expected_target(s1, t, i)
}

/// `b` records `expected` as its PR target.
pub open spec fn target_current(b: ManagedBranch, expected: Seq<char>) -> bool {
    b.pr matches Some(q) && q.target_branch matches Some(x) && x@ == expected
}

/// `f` is `b` with its PR target set to `expected`.
pub open spec fn retarget_result(b: ManagedBranch, f: ManagedBranch, expected: Seq<char>) -> bool {
    &&& f.name == b.name
    &&& f.parent == b.parent
    &&& f.recorded_parent_tip == b.recorded_parent_tip
    &&& f.status == b.status
    &&& f.pr matches Some(p) && b.pr matches Some(q) && p.provider == q.provider && p.id == q.id
        && p.url == q.url
    &&& target_current(f, expected)
}

/// The status pass changes branch `i`.
pub open spec fn status_changed(s: Seq<ManagedBranch>, shown: Seq<(String, PrInfo)>, i: int) -> bool {
    match shown_info(shown, s[i]) {
        Some(info) => (info.status@ == "completed"@ && s[i].status != BranchStatus::Merged)
            || info.status@ == "abandoned"@,
        None => false,
    }
}

/// The update reported for `b`.
pub open spec fn update_of(b: ManagedBranch, info: Option<PrInfo>) -> Option<PrUpdate> {
    match info {
        Some(i) => if i.status@ == "completed"@ && b.status != BranchStatus::Merged {
            Some(PrUpdate::Merged { name: b.name, pr_id: b.pr->0.id })
        } else if i.status@ == "abandoned"@ {
            Some(PrUpdate::Abandoned { name: b.name, pr_id: b.pr->0.id })
        } else {
            None
        },
        None => None,
    }
}

/// The updates reported for the first `k` branches.
pub open spec fn updates_upto(s: Seq<ManagedBranch>, shown: Seq<(String, PrInfo)>, k: int) -> Seq<PrUpdate>
    decreases k,
{
    if k <= 0 {
        Seq::empty()
    } else {
        let rest = updates_upto(s, shown, k - 1);
        match update_of(s[k - 1], shown_info(shown, s[k - 1])) {
            Some(u) => rest.push(u),
            None => rest,
        }
    }
}

/// Branches that track a PR.
pub open spec fn has_pr() -> spec_fn(ManagedBranch) -> bool {
    |b: ManagedBranch| b.pr is Some
}

/// The branches that track a PR, each with the PR's id, in state order.
pub fn tracked_prs(state: &RepoState) -> (r: Vec<(String, String)>)
    ensures
        r@.len() == state.branches@.filter(has_pr()).len(),
        forall|k: int|
            #![trigger r@[k]]
            0 <= k < r@.len() ==> (r@[k].0 == state.branches@.filter(has_pr())[k].name && r@[k].1
                == state.branches@.filter(has_pr())[k].pr->0.id),
{
    let ghost p = has_pr();
    let mut out: Vec<(String, String)> = Vec::new();
    let mut i: usize = 0;
    while i < state.branches.len()
        invariant
            i <= state.branches@.len(),
            p == has_pr(),
            out@.len() == state.branches@.take(i as int).filter(p).len(),
            forall|k: int|
                0 <= k < out@.len() ==> #[trigger] out@[k].0 == state.branches@.take(i as int).filter(
                    p,
                )[k].name && out@[k].1 == state.branches@.take(i as int).filter(p)[k].pr->0.id,
        decreases state.branches@.len() - i,
    {
        proof {
            assert(state.branches@.take(i + 1) =~= state.branches@.take(i as int).push(
                state.branches@[i as int],
            ));
            state.branches@.take(i as int).lemma_filter_push(state.branches@[i as int], p);
        }
        match &state.branches[i].pr {
            Some(pr) => {
                out.push((state.branches[i].name.clone(), pr.id.clone()));
            },
            None => {},
        }
        i = i + 1;
    }
    assert(state.branches@.take(i as int) =~= state.branches@);
    let ghost f = state.branches@.filter(has_pr());
    assert(state.branches@.take(i as int).filter(p) == f);
    assert forall|k: int| #![trigger out@[k]] 0 <= k < out@.len() implies (out@[k].0 == f[k].name
        && out@[k].1 == f[k].pr->0.id) by {
        assert(out@[k].0 == state.branches@.take(i as int).filter(p)[k].name);
    }
    out
}

/// `c` is the retarget entry for branch `j` (in the state `s1` after the status pass):
/// its PR is open, targets another branch than the effective parent, and `c` names the
/// branch, both targets, the PR and where its details stand in `shown`.
#[verifier::opaque]
pub open spec fn retarget_entry(
    s1: Seq<ManagedBranch>,
    t: Seq<char>,
    shown: Seq<(String, PrInfo)>,
    c: Retarget,
    j: int,
) -> bool {
    let info = shown_info(shown, s1[j])->0;
    &&& j == c.branch_index
    &&& 0 <= j < s1.len()
    &&& remote_mismatch(s1, t, shown, j)
    &&& c.name == s1[j].name
    &&& c.expected@ == expected_target(s1, t, j)
    &&& c.actual@ == strip_ref_spec(info.target_ref_name@)
    &&& c.pr_id == info.pull_request_id
    &&& c.shown_index < shown.len()
    &&& shown[c.shown_index as int].0@ == s1[j].name@
    &&& shown[c.shown_index as int].1 == info
}

/// What the reconciliation guarantees, given the branches `s` before, `f` after, the
/// PR details `shown`, whether the retarget pass ran, and the outcome `r`.
pub open spec fn reconciled(
    s: Seq<ManagedBranch>,
    f: Seq<ManagedBranch>,
    t: Seq<char>,
    shown: Seq<(String, PrInfo)>,
    retarget_prs: bool,
    r: Reconciliation,
) -> bool {
    let s1 = after_statuses(s, shown);
    &&& f.len() == s.len()
    &&& forall|i: int|
        #![trigger f[i]]
        0 <= i < s.len() ==> if retarget_prs && retargeted(s1, shown, i) {
            retarget_result(s1[i], f[i], expected_target(s1, t, i))
        } else {
            f[i] == s1[i]
        }
    &&& r.changed == exists|i: int|
        0 <= i < s.len() && (status_changed(s, shown, i) || (retarget_prs && retargeted(s1, shown, i)
            && !target_current(s1[i], expected_target(s1, t, i))))
    &&& r.updates@ == updates_upto(s, shown, s.len() as int)
    &&& (!retarget_prs ==> r.retargets@.len() == 0)
    &&& forall|k: int|
        #![trigger r.retargets@[k]]
        0 <= k < r.retargets@.len() ==> retarget_entry(
            s1,
            t,
            shown,
            r.retargets@[k],
            r.retargets@[k].branch_index as int,
        )
    &&& forall|i: int|
        0 <= i < s.len() && retarget_prs && remote_mismatch(s1, t, shown, i) ==> exists|k: int|
            0 <= k < r.retargets@.len() && #[trigger] r.retargets@[k].name == s1[i].name
    &&& forall|a: int, b: int|
        0 <= a < b < r.retargets@.len() ==> name_le(r.retargets@[a].name@, r.retargets@[b].name@)
    &&& forall|a: int, b: int|
        0 <= a < b < r.retargets@.len() ==> r.retargets@[a].branch_index != r.retargets@[b].branch_index
    &&& names_distinct(s) ==> forall|a: int, b: int|
        0 <= a < b < r.retargets@.len() ==> r.retargets@[a].name@ != r.retargets@[b].name@
}

/// Fold the status of `b`'s PR into `b`; report what changed.
fn status_step(b: &mut ManagedBranch, shown: &Vec<(String, PrInfo)>) -> (u: Option<PrUpdate>)
    ensures
        *final(b) == after_status(*old(b), shown_info(shown@, *old(b))),
        u == update_of(*old(b), shown_info(shown@, *old(b))),
{
    proof {
        reveal_strlit("completed");
        reveal_strlit("abandoned");
        assert("completed"@[0] != "abandoned"@[0]);
    }
    if b.pr.is_none() {
        return None;
    }
    match info_lookup(shown, b.name.as_str()) {
        Some(info) => {
            if crate::text::str_eq(info.status.as_str(), "completed") {
                if b.status != BranchStatus::Merged {
                    let name = b.name.clone();
                    let pr_id = b.pr.as_ref().unwrap().id.clone();
                    b.status = BranchStatus::Merged;
                    Some(PrUpdate::Merged { name, pr_id })
                } else {
                    None
                }
            } else if crate::text::str_eq(info.status.as_str(), "abandoned") {
                let name = b.name.clone();
                let pr_id = b.pr.as_ref().unwrap().id.clone();
                b.pr = None;
                Some(PrUpdate::Abandoned { name, pr_id })
            } else {
                None
            }
        },
        None => None,
    }
}

/// Bring the recorded PR target of `b` in line with `expected` when `b` is active
/// with an open PR; report whether `b` changed.
fn retarget_step(b: &mut ManagedBranch, shown: &Vec<(String, PrInfo)>, expected: &String) -> (r: bool)
    ensures
        if open_pr(shown_info(shown@, *old(b))) && old(b).status == BranchStatus::Active {
            &&& retarget_result(*old(b), *final(b), expected@)
            &&& r == !target_current(*old(b), expected@)
        } else {
            *final(b) == *old(b) && !r
        },
{
    if b.status != BranchStatus::Active || b.pr.is_none() {
        return false;
    }
    let info = match info_lookup(shown, b.name.as_str()) {
        Some(info) => info,
        None => return false,
    };
    if crate::text::str_eq(info.status.as_str(), "completed") || crate::text::str_eq(
        info.status.as_str(),
        "abandoned",
    ) {
        return false;
    }
    let current = match &b.pr {
        Some(pr) => match &pr.target_branch {
            Some(tb) => crate::text::str_eq(tb.as_str(), expected.as_str()),
            None => false,
        },
        None => false,
    };
    if !current {
        match &mut b.pr {
            Some(pr) => {
                pr.target_branch = Some(expected.clone());
            },
            None => {},
        }
    }
    !current
}

/// The retarget entry for branch `b` (at position `j` of `s1`), when its open PR
/// targets another branch than `expected`.
fn retarget_candidate(
    b: &ManagedBranch,
    shown: &Vec<(String, PrInfo)>,
    expected: &String,
    j: usize,
    Ghost(s1): Ghost<Seq<ManagedBranch>>,
    Ghost(t): Ghost<Seq<char>>,
) -> (r: Option<Retarget>)
    requires
        j < s1.len(),
        s1[j as int] == *b,
        expected@ == expected_target(s1, t, j as int),
    ensures
        r is Some <==> remote_mismatch(s1, t, shown@, j as int),
        r matches Some(c) ==> retarget_entry(s1, t, shown@, c, j as int),
{
    if b.status != BranchStatus::Active || b.pr.is_none() {
        return None;
    }
    let pos = match info_position(shown, b.name.as_str()) {
        Some(pos) => pos,
        None => return None,
    };
    let info = &shown[pos].1;
    if crate::text::str_eq(info.status.as_str(), "completed") || crate::text::str_eq(
        info.status.as_str(),
        "abandoned",
    ) {
        return None;
    }
    let actual = info.target_branch();
    if crate::text::str_eq(actual.as_str(), expected.as_str()) {
        return None;
    }
    let c = Retarget {
        name: b.name.clone(),
        pr_id: info.pull_request_id,
        actual,
        expected: expected.clone(),
        shown_index: pos,
        branch_index: j,
    };
    assert(retarget_entry(s1, t, shown@, c, j as int)) by {
        reveal(retarget_entry);
    }
    Some(c)
}

/// The retarget entries of all branches of `state` (the state after the status pass),
/// in state order.
fn retarget_candidates(state: &RepoState, shown: &Vec<(String, PrInfo)>, expected: &Vec<String>) -> (r: Vec<Retarget>)
    requires
        expected@.len() == state.branches@.len(),
        forall|j: int|
            0 <= j < state.branches@.len() ==> #[trigger] expected@[j]@ == expected_target(
                state.branches@,
                state.repo.trunk@,
                j,
            ),
    ensures
        forall|c: int|
            #![trigger r@[c]]
            0 <= c < r@.len() ==> retarget_entry(
                state.branches@,
                state.repo.trunk@,
                shown@,
                r@[c],
                r@[c].branch_index as int,
            ),
        forall|j: int|
            0 <= j < state.branches@.len() && remote_mismatch(state.branches@, state.repo.trunk@, shown@, j)
                ==> exists|c: int| 0 <= c < r@.len() && #[trigger] r@[c].name == state.branches@[j].name,
        forall|a: int, b: int| 0 <= a < b < r@.len() ==> r@[a].branch_index < r@[b].branch_index,
{
    let ghost s1 = state.branches@;
    let ghost t = state.repo.trunk@;
    let ghost sh = shown@;
    let n = state.branches.len();
    let mut out: Vec<Retarget> = Vec::new();
    let mut i: usize = 0;
    while i < n
        invariant
            n == s1.len(),
            s1 == state.branches@,
            t == state.repo.trunk@,
            sh == shown@,
            expected@.len() == n,
            forall|j: int| 0 <= j < n ==> #[trigger] expected@[j]@ == expected_target(s1, t, j),
            i <= n,
            forall|c: int|
                #![trigger out@[c]]
                0 <= c < out@.len() ==> retarget_entry(s1, t, sh, out@[c], out@[c].branch_index as int),
            forall|j: int|
                0 <= j < i && remote_mismatch(s1, t, sh, j) ==> exists|c: int|
                    0 <= c < out@.len() && #[trigger] out@[c].name == s1[j].name,
            forall|c: int| 0 <= c < out@.len() ==> #[trigger] out@[c].branch_index < i,
            forall|a: int, b: int| 0 <= a < b < out@.len() ==> out@[a].branch_index < out@[b].branch_index,
        decreases n - i,
    {
        let ghost before = out@;
        match retarget_candidate(&state.branches[i], shown, &expected[i], i, Ghost(s1), Ghost(t)) {
            Some(c) => {
                proof {
                    reveal(retarget_entry);
                    assert(c.branch_index == i);
                }
                out.push(c);
            },
            None => {},
        }
        proof {
            assert forall|c: int| #![trigger out@[c]] 0 <= c < out@.len() implies retarget_entry(s1, t, sh, out@[c], out@[c].branch_index as int) by {
                if c < before.len() {
                    assert(out@[c] == before[c]);
                }
            }
            assert forall|a: int, b: int| 0 <= a < b < out@.len() implies out@[a].branch_index
                < out@[b].branch_index by {
                assert(out@[a] == before[a]);
                if b < before.len() {
                    assert(out@[b] == before[b]);
                }
            }
            assert forall|c: int| 0 <= c < out@.len() implies #[trigger] out@[c].branch_index < i + 1 by {
                if c < before.len() {
                    assert(out@[c] == before[c]);
                }
            }
            assert forall|j: int| 0 <= j < i + 1 && remote_mismatch(s1, t, sh, j) implies exists|c: int|
                0 <= c < out@.len() && #[trigger] out@[c].name == s1[j].name by {
                if j < i {
                    let c = choose|c: int| 0 <= c < before.len() && #[trigger] before[c].name == s1[j].name;
                    assert(out@[c] == before[c]);
                } else {
                    reveal(retarget_entry);
                    assert(out@[out@.len() - 1].name == s1[j].name);
                }
            }
        }
        i = i + 1;
    }
    out
}

/// The status pass over all branches.
fn status_pass(state: &mut RepoState, shown: &Vec<(String, PrInfo)>) -> (r: (Vec<PrUpdate>, bool))
    ensures
        final(state).branches@ == after_statuses(old(state).branches@, shown@),
        r.0@ == updates_upto(old(state).branches@, shown@, old(state).branches@.len() as int),
        r.1 == exists|j: int| 0 <= j < old(state).branches@.len() && status_changed(old(state).branches@, shown@, j),
        final(state).version == old(state).version,
        final(state).repo == old(state).repo,
{
    let ghost s0 = state.branches@;
    let ghost sh = shown@;
    let n = state.branches.len();
    let mut updates: Vec<PrUpdate> = Vec::new();
    let mut changed = false;
    let mut i: usize = 0;
    while i < n
        invariant
            n == s0.len(),
            sh == shown@,
            state.branches@.len() == n,
            state.version == old(state).version,
            state.repo == old(state).repo,
            s0 == old(state).branches@,
            i <= n,
            forall|j: int|
                #![trigger state.branches@[j]]
                0 <= j < i ==> state.branches@[j] == after_status(s0[j], shown_info(sh, s0[j])),
            forall|j: int| #![trigger state.branches@[j]] i <= j < n ==> state.branches@[j] == s0[j],
            updates@ == updates_upto(s0, sh, i as int),
            changed == exists|j: int| 0 <= j < i && status_changed(s0, sh, j),
        decreases n - i,
    {
        let ghost before = state.branches@;
        let u = status_step(&mut state.branches[i], shown);
        proof {
            assert(before[i as int] == s0[i as int]);
            assert(state.branches@ == before.update(i as int, after_status(s0[i as int], shown_info(sh, s0[i as int]))));
            assert(status_changed(s0, sh, i as int) == (u is Some));
        }
        match u {
            Some(x) => {
                updates.push(x);
                changed = true;
            },
            None => {},
        }
        proof {
            assert forall|j: int| #![trigger state.branches@[j]] 0 <= j < i + 1 implies state.branches@[j]
                == after_status(s0[j], shown_info(sh, s0[j])) by {
                if j < i {
                    assert(state.branches@[j] == before[j]);
                }
            }
            assert(changed == exists|j: int| 0 <= j < i + 1 && status_changed(s0, sh, j)) by {
                if status_changed(s0, sh, i as int) {
                    assert(0 <= i < i + 1);
                }
            }
        }
        i = i + 1;
    }
    assert(state.branches@ =~= after_statuses(s0, sh));
    (updates, changed)
}

/// Retarget entries ordered by branch name.
fn sort_retargets(candidates: &Vec<Retarget>) -> (r: Vec<Retarget>)
    requires
        forall|a: int, b: int|
            0 <= a < b < candidates@.len() ==> candidates@[a].branch_index != candidates@[b].branch_index,
    ensures
        forall|a: int, b: int| 0 <= a < b < r@.len() ==> r@[a].branch_index != r@[b].branch_index,
        r@.len() == candidates@.len(),
        forall|k: int| 0 <= k < r@.len() ==> candidates@.contains(#[trigger] r@[k]),
        forall|x: int| 0 <= x < candidates@.len() ==> r@.contains(#[trigger] candidates@[x]),
        forall|a: int, b: int| 0 <= a < b < r@.len() ==> name_le(r@[a].name@, r@[b].name@),
{
    let mut keys: Vec<Vec<String>> = Vec::new();
    let mut c: usize = 0;
    while c < candidates.len()
        invariant
            c <= candidates@.len(),
            keys@.len() == c,
            forall|x: int| 0 <= x < c ==> #[trigger] names_of(keys@[x]@) == seq![candidates@[x].name@],
        decreases candidates@.len() - c,
    {
        let mut key = Vec::new();
        key.push(candidates[c].name.clone());
        proof {
            assert(names_of(key@) =~= seq![candidates@[c as int].name@]);
        }
        keys.push(key);
        c = c + 1;
    }
    let order = sort_by_path(&keys);
    let mut out: Vec<Retarget> = Vec::new();
    let mut c: usize = 0;
    while c < order.len()
        invariant
            keys@.len() == candidates@.len(),
            order@.len() == keys@.len(),
            forall|x: int| 0 <= x < order@.len() ==> #[trigger] order@[x] < keys@.len(),
            c <= order@.len(),
            out@.len() == c,
            forall|x: int| 0 <= x < c ==> #[trigger] out@[x] == candidates@[order@[x] as int],
        decreases order@.len() - c,
    {
        let cand = &candidates[order[c]];
        out.push(Retarget {
            name: cand.name.clone(),
            pr_id: cand.pr_id,
            actual: cand.actual.clone(),
            expected: cand.expected.clone(),
            shown_index: cand.shown_index,
            branch_index: cand.branch_index,
        });
        c = c + 1;
    }
    proof {
        crate::order::lemma_name_order();
        assert forall|k: int| 0 <= k < out@.len() implies candidates@.contains(#[trigger] out@[k]) by {
            assert(candidates@[order@[k] as int] == out@[k]);
        }
        assert forall|x: int| 0 <= x < candidates@.len() implies out@.contains(#[trigger] candidates@[x]) by {
            assert(order@.contains(x as usize));
            let k = choose|k: int| 0 <= k < order@.len() && order@[k] == x as usize;
            assert(out@[k] == candidates@[x]);
        }
        assert forall|a: int, b: int| 0 <= a < b < out@.len() implies out@[a].branch_index
            != out@[b].branch_index by {
            assert(order@[a] != order@[b]);
            if order@[a] < order@[b] {
            } else {
            }
        }
        assert forall|a: int, b: int| 0 <= a < b < out@.len() implies name_le(out@[a].name@, out@[b].name@) by {
            let ka = names_of(keys@[order@[a] as int]@);
            let kb = names_of(keys@[order@[b] as int]@);
            assert(ka == seq![out@[a].name@]);
            assert(kb == seq![out@[b].name@]);
            assert(path_le(ka, kb));
            if out@[a].name@ == out@[b].name@ {
                crate::order::lemma_lex_refl(out@[a].name@, crate::order::char_order());
            }
        }
    }
    out
}

/// The retarget pass over all branches, run on the state after the status pass.
fn retarget_pass(state: &mut RepoState, shown: &Vec<(String, PrInfo)>, expected: &Vec<String>, Ghost(s1): Ghost<Seq<ManagedBranch>>, Ghost(t): Ghost<Seq<char>>) -> (r: bool)
    requires
        old(state).branches@ == s1,
        old(state).repo.trunk@ == t,
        expected@.len() == s1.len(),
        forall|j: int| 0 <= j < s1.len() ==> #[trigger] expected@[j]@ == expected_target(s1, t, j),
    ensures
        final(state).branches@.len() == s1.len(),
        forall|j: int|
            #![trigger final(state).branches@[j]]
            0 <= j < s1.len() ==> if retargeted(s1, shown@, j) {
                retarget_result(s1[j], final(state).branches@[j], expected_target(s1, t, j))
            } else {
                final(state).branches@[j] == s1[j]
            },
        r == exists|j: int|
            0 <= j < s1.len() && retargeted(s1, shown@, j) && !target_current(s1[j], expected_target(s1, t, j)),
        final(state).version == old(state).version,
        final(state).repo == old(state).repo,
{
    let ghost sh = shown@;
    let n = state.branches.len();
    let mut changed = false;
    let mut i: usize = 0;
    while i < n
        invariant
            n == s1.len(),
            sh == shown@,
            state.branches@.len() == n,
            state.version == old(state).version,
            state.repo == old(state).repo,
            expected@.len() == n,
            forall|j: int| 0 <= j < n ==> #[trigger] expected@[j]@ == expected_target(s1, t, j),
            i <= n,
            forall|j: int|
                #![trigger state.branches@[j]]
                0 <= j < i ==> if retargeted(s1, sh, j) {
                    retarget_result(s1[j], state.branches@[j], expected_target(s1, t, j))
                } else {
                    state.branches@[j] == s1[j]
                },
            forall|j: int| #![trigger state.branches@[j]] i <= j < n ==> state.branches@[j] == s1[j],
            changed == exists|j: int|
                0 <= j < i && retargeted(s1, sh, j) && !target_current(s1[j], expected_target(s1, t, j)),
        decreases n - i,
    {
        let ghost before = state.branches@;
        assert(before[i as int] == s1[i as int]);
        assert(expected@[i as int]@ == expected_target(s1, t, i as int));
        let ch = retarget_step(&mut state.branches[i], shown, &expected[i]);
        if ch {
            changed = true;
        }
        proof {
            assert forall|j: int|
                #![trigger state.branches@[j]]
                0 <= j < i + 1 implies (if retargeted(s1, sh, j) {
                retarget_result(s1[j], state.branches@[j], expected_target(s1, t, j))
            } else {
                state.branches@[j] == s1[j]
            }) by {
                if j < i {
                    assert(state.branches@[j] == before[j]);
                }
            }
            assert(changed == exists|j: int|
                0 <= j < i + 1 && retargeted(s1, sh, j) && !target_current(s1[j], expected_target(s1, t, j))) by {
                if retargeted(s1, sh, i as int) && !target_current(s1[i as int], expected_target(s1, t, i as int)) {
                    assert(0 <= i < i + 1);
                }
            }
        }
        i = i + 1;
    }
    changed
}

/// Fold the PR details `shown` (the `az` view of each tracked PR, by branch name) into
/// the state: completed PRs mark their branch merged, abandoned PRs are dropped, and,
/// when `retarget_prs`, each active branch with an open PR records its effective parent
/// as PR target; PRs that target another branch are listed for retargeting.
/// Retarget entries for different branches of a list without repeated names name
/// different branches.
proof fn lemma_retargets_named_once(
    s0: Seq<ManagedBranch>,
    sx: Seq<ManagedBranch>,
    t: Seq<char>,
    shown: Seq<(String, PrInfo)>,
    rs: Seq<Retarget>,
)
    requires
        sx == after_statuses(s0, shown),
        names_distinct(s0),
        forall|k: int|
            #![trigger rs[k]]
            0 <= k < rs.len() ==> retarget_entry(sx, t, shown, rs[k], rs[k].branch_index as int),
        forall|a: int, b: int| 0 <= a < b < rs.len() ==> rs[a].branch_index != rs[b].branch_index,
    ensures
        forall|a: int, b: int| 0 <= a < b < rs.len() ==> rs[a].name@ != rs[b].name@,
{
    assert forall|a: int, b: int| 0 <= a < b < rs.len() implies rs[a].name@ != rs[b].name@ by {
        let ja = rs[a].branch_index as int;
        let jb = rs[b].branch_index as int;
        assert(retarget_entry(sx, t, shown, rs[a], ja));
        assert(retarget_entry(sx, t, shown, rs[b], jb));
        reveal(retarget_entry);
        assert(sx[ja].name == s0[ja].name);
        assert(sx[jb].name == s0[jb].name);
        if ja < jb {
            assert(s0[ja].name@ != s0[jb].name@);
        } else {
            assert(s0[jb].name@ != s0[ja].name@);
        }
    }
}

#[verifier::rlimit(40)]
fn reconcile_inner(state: &mut RepoState, shown: &Vec<(String, PrInfo)>, retarget_prs: bool) -> (r:
    Reconciliation)
    ensures
        reconciled(
            old(state).branches@,
            final(state).branches@,
            old(state).repo.trunk@,
            shown@,
            retarget_prs,
            r,
        ),
        final(state).version == old(state).version,
        final(state).repo == old(state).repo,
{
    let ghost s0 = state.branches@;
    let ghost t = state.repo.trunk@;
    let (updates, status_changed_any) = status_pass(state, shown);
    let ghost s1 = state.branches@;
    let n = state.branches.len();
    let mut expected: Vec<String> = Vec::new();
    let mut k: usize = 0;
    while k < n
        invariant
            n == s1.len(),
            s1 == state.branches@,
            t == state.repo.trunk@,
            k <= n,
            expected@.len() == k,
            forall|j: int| 0 <= j < k ==> #[trigger] expected@[j]@ == expected_target(s1, t, j),
        decreases n - k,
    {
        expected.push(effective_parent(state, &state.branches[k]));
        proof {
            reveal(expected_target);
        }
        k = k + 1;
    }
    if retarget_prs {
        let candidates = retarget_candidates(state, shown, &expected);
        let ch = retarget_pass(state, shown, &expected, Ghost(s1), Ghost(t));
        let retargets = sort_retargets(&candidates);
        proof {
            assert forall|k: int| #![trigger retargets@[k]] 0 <= k < retargets@.len() implies retarget_entry(
                s1,
                t,
                shown@,
                retargets@[k],
                retargets@[k].branch_index as int,
            ) by {
                assert(candidates@.contains(retargets@[k]));
                let c = choose|c: int| 0 <= c < candidates@.len() && candidates@[c] == retargets@[k];
                assert(candidates@[c] == retargets@[k]);
            }
            assert forall|i: int|
                0 <= i < s0.len() && retarget_prs && remote_mismatch(after_statuses(s0, shown@), t, shown@, i) implies exists|k: int|
                    0 <= k < retargets@.len() && #[trigger] retargets@[k].name == after_statuses(s0, shown@)[i].name by {
                let c = choose|c: int| 0 <= c < candidates@.len() && #[trigger] candidates@[c].name == s1[i].name;
                assert(retargets@.contains(candidates@[c]));
                let k = choose|k: int| 0 <= k < retargets@.len() && retargets@[k] == candidates@[c];
                assert(retargets@[k].name == s1[i].name);
            }
        }
        let r = Reconciliation { changed: status_changed_any || ch, updates, retargets };
        proof {
            let sx = after_statuses(s0, shown@);
            assert(sx == s1);
            assert forall|i: int|
                0 <= i < s0.len() && remote_mismatch(sx, t, shown@, i) implies exists|k: int|
                    0 <= k < r.retargets@.len() && #[trigger] r.retargets@[k].name == sx[i].name by {
                let c = choose|c: int| 0 <= c < candidates@.len() && #[trigger] candidates@[c].name == s1[i].name;
                assert(r.retargets@.contains(candidates@[c]));
                let k = choose|k: int| 0 <= k < r.retargets@.len() && r.retargets@[k] == candidates@[c];
                assert(r.retargets@[k].name == sx[i].name);
            }
            assert(forall|k: int|
                #![trigger r.retargets@[k]]
                0 <= k < r.retargets@.len() ==> retarget_entry(sx, t, shown@, r.retargets@[k], r.retargets@[k].branch_index as int));
            assert(forall|a: int, b: int|
                0 <= a < b < r.retargets@.len() ==> name_le(r.retargets@[a].name@, r.retargets@[b].name@));
            if names_distinct(s0) {
                lemma_retargets_named_once(s0, sx, t, shown@, r.retargets@);
            }
            assert(r.changed == exists|i: int|
                0 <= i < s0.len() && (status_changed(s0, shown@, i) || (retargeted(sx, shown@, i)
                    && !target_current(sx[i], expected_target(sx, t, i)))));
            assert(forall|i: int|
                #![trigger state.branches@[i]]
                0 <= i < s0.len() ==> if retargeted(sx, shown@, i) {
                    retarget_result(sx[i], state.branches@[i], expected_target(sx, t, i))
                } else {
                    state.branches@[i] == sx[i]
                });
        }
        r
    } else {
        Reconciliation { changed: status_changed_any, updates, retargets: Vec::new() }
    }
}

/// Fold completed and abandoned PRs into the state and bring the recorded target of
/// every open PR in line with its branch's effective parent (see `reconciled`).
pub fn reconcile(state: &mut RepoState, shown: &Vec<(String, PrInfo)>) -> (r: Reconciliation)
    ensures
        reconciled(old(state).branches@, final(state).branches@, old(state).repo.trunk@, shown@, true, r),
        final(state).version == old(state).version,
        final(state).repo == old(state).repo,
{
    reconcile_inner(state, shown, true)
}

/// Fold only completed and abandoned PRs into the state; no PR target is touched.
pub fn reconcile_statuses(state: &mut RepoState, shown: &Vec<(String, PrInfo)>) -> (r: Reconciliation)
    ensures
        reconciled(old(state).branches@, final(state).branches@, old(state).repo.trunk@, shown@, false, r),
        final(state).version == old(state).version,
        final(state).repo == old(state).repo,
{
    reconcile_inner(state, shown, false)
}

/// Two branch lists with the same names and statuses, position by position, agree on
/// every effective parent.
proof fn lemma_effective_parent_same_shape(a: Seq<ManagedBranch>, b: Seq<ManagedBranch>, t: Seq<char>, x: ManagedBranch)
    requires
        a.len() == b.len(),
        forall|i: int| 0 <= i < a.len() ==> #[trigger] a[i].name@ == b[i].name@ && a[i].status == b[i].status,
    ensures
        effective_parent_spec(a, t, x) == effective_parent_spec(b, t, x),
{
    let n = x.parent@;
    if has_branch(a, n) {
        crate::state::lemma_has_branch_found(a, n);
        let k = find_branch(a, n)->0;
        assert(is_first_match(b, n, k)) by {
            assert forall|j: int| 0 <= j < k implies b[j].name@ != n by {
                assert(a[j].name@ == b[j].name@);
            }
            assert(a[k].name@ == b[k].name@);
        }
        crate::state::lemma_find_branch(b, n, k);
    } else {
        assert forall|j: int| 0 <= j < b.len() implies b[j].name@ != n by {
            assert(a[j].name@ == b[j].name@);
        }
        crate::state::lemma_find_branch_none(b, n);
    }
}

/// With no update for any of the first `k` branches, none is reported.
proof fn lemma_no_updates(s: Seq<ManagedBranch>, shown: Seq<(String, PrInfo)>, k: int)
    requires
        0 <= k <= s.len(),
        forall|i: int| 0 <= i < k ==> update_of(#[trigger] s[i], shown_info(shown, s[i])) is None,
    ensures
        updates_upto(s, shown, k).len() == 0,
    decreases k,
{
    if k > 0 {
        lemma_no_updates(s, shown, k - 1);
    }
}

/// Law: reconciling again with the same PR details changes nothing in the stack state and
/// reports no update.
pub proof fn lemma_reconcile_settles(
    s: Seq<ManagedBranch>,
    f: Seq<ManagedBranch>,
    f2: Seq<ManagedBranch>,
    t: Seq<char>,
    shown: Seq<(String, PrInfo)>,
    r: Reconciliation,
    r2: Reconciliation,
)
    requires
        reconciled(s, f, t, shown, true, r),
        reconciled(f, f2, t, shown, true, r2),
    ensures
        !r2.changed,
        r2.updates@.len() == 0,
{
    let s1 = after_statuses(s, shown);
    let g1 = after_statuses(f, shown);
    reveal_strlit("completed");
    reveal_strlit("abandoned");
    assert("completed"@[0] != "abandoned"@[0]);
    assert("completed"@ != "abandoned"@);
    assert forall|i: int| 0 <= i < f.len() implies #[trigger] g1[i] == f[i] && !status_changed(f, shown, i)
        && update_of(f[i], shown_info(shown, f[i])) is None by {
        let info = shown_info(shown, s[i]);
        assert(s1[i] == after_status(s[i], info));
        assert(g1[i] == after_status(f[i], shown_info(shown, f[i])));
        assert(f[i].name == s[i].name);
        if f[i].pr is Some {
            assert(s[i].pr is Some);
            assert(shown_info(shown, f[i]) == info);
            match info {
                Some(i0) => {
                    if i0.status@ == "completed"@ {
                        assert(!retargeted(s1, shown, i));
                        assert(f[i] == s1[i]);
                        assert(f[i].status == BranchStatus::Merged);
                        assert(ManagedBranch { status: BranchStatus::Merged, ..f[i] } == f[i]);
                    } else if i0.status@ == "abandoned"@ {
                        assert(!retargeted(s1, shown, i));
                        assert(f[i] == s1[i]);
                        assert(false);
                    } else {
                        assert(g1[i] == f[i]);
                    }
                },
                None => {
                    assert(!retargeted(s1, shown, i));
                    assert(f[i] == s1[i]);
                },
            }
        } else {
            assert(shown_info(shown, f[i]) is None);
        }
    }
    assert forall|i: int| 0 <= i < f.len() implies #[trigger] f[i].name@ == s1[i].name@ && f[i].status
        == s1[i].status by {
        assert(f[i].name == s[i].name);
    }
    assert forall|i: int| 0 <= i < f.len() && retargeted(g1, shown, i) implies target_current(
        g1[i],
        expected_target(g1, t, i),
    ) by {
        assert(g1[i] == f[i]);
        assert(f[i].name == s[i].name);
        assert(shown_info(shown, f[i]) == shown_info(shown, s[i]));
        assert(retargeted(s1, shown, i));
        assert forall|j: int| 0 <= j < g1.len() implies #[trigger] g1[j].name@ == s1[j].name@
            && g1[j].status == s1[j].status by {
            assert(g1[j] == f[j]);
        }
        reveal(expected_target);
        lemma_effective_parent_same_shape(g1, s1, t, g1[i]);
        lemma_effective_parent_same_shape(g1, s1, t, s1[i]);
    }
    lemma_no_updates(f, shown, f.len() as int);
}

/// `b` tracks a PR and the details shown for its branch report the PR status `word`.
pub open spec fn pr_reported(shown: Seq<(String, PrInfo)>, b: ManagedBranch, word: Seq<char>) -> bool {
    b.pr is Some && (info_for(shown, b.name@) matches Some(info) && info.status@ == word)
}

/// Law: reconciling changes a branch's status only for a completed PR, and then only to
/// merged; an abandoned PR leaves the status as it was and drops the PR reference;
/// names, parents and recorded parent tips never change.
pub proof fn lemma_reconcile_status_changes(
    s: Seq<ManagedBranch>,
    f: Seq<ManagedBranch>,
    t: Seq<char>,
    shown: Seq<(String, PrInfo)>,
    retarget_prs: bool,
    r: Reconciliation,
    i: int,
)
    requires
        reconciled(s, f, t, shown, retarget_prs, r),
        0 <= i < s.len(),
    ensures
        f[i].name == s[i].name,
        f[i].parent == s[i].parent,
        f[i].recorded_parent_tip == s[i].recorded_parent_tip,
        f[i].status == s[i].status || (f[i].status == BranchStatus::Merged && pr_reported(
            shown,
            s[i],
            "completed"@,
        )),
        pr_reported(shown, s[i], "abandoned"@) ==> f[i].status == s[i].status && f[i].pr is None,
        pr_reported(shown, s[i], "completed"@) ==> f[i].status == BranchStatus::Merged,
{
    reveal_strlit("completed");
    reveal_strlit("abandoned");
    assert("completed"@[0] != "abandoned"@[0]);
    let s1 = after_statuses(s, shown);
    assert(s1[i] == after_status(s[i], shown_info(shown, s[i])));
    assert(f[i] == f[i]);
}

/// PR details whose status is active.
pub open spec fn is_active_info() -> spec_fn((String, PrInfo)) -> bool {
    |e: (String, PrInfo)| e.1.status@ == "active"@
}

/// The new description of `info`'s PR, for branch `name`: its description with the
/// stack block of `name`'s stack spliced in.
pub open spec fn refreshed_description(
    s: Seq<ManagedBranch>,
    t: Seq<char>,
    order: Seq<Seq<char>>,
    infos: Seq<(String, PrInfo)>,
    name: Seq<char>,
    info: PrInfo,
) -> Seq<char> {
    let description = match info.description {
        Some(d) => d@,
        None => ""@,
    };
    splice_spec(description, stack_block_spec(s, t, stack_order_spec(s, t, order, name), infos, name))
}

/// The id of `name`'s PR, where `name` is tracked, active and has a PR.
pub open spec fn active_pr_id(s: Seq<ManagedBranch>, name: Seq<char>) -> Option<Seq<char>> {
    match lookup(s, name) {
        Some(b) => if b.status == BranchStatus::Active {
            match b.pr {
                Some(pr) => Some(pr.id@),
                None => None,
            }
        } else {
            None
        },
        None => None,
    }
}

/// The branches of `order` whose PR description carries a stack block, in that order,
/// each with its PR's id.
pub open spec fn description_targets_spec(s: Seq<ManagedBranch>, order: Seq<String>) -> Seq<
    (Seq<char>, Seq<char>),
>
    decreases order.len(),
{
    if order.len() == 0 {
        seq![]
    } else {
        let prev = description_targets_spec(s, order.drop_last());
        match active_pr_id(s, order.last()@) {
            Some(id) => prev.push((order.last()@, id)),
            None => prev,
        }
    }
}

/// Branches in `order` whose PR description carries a stack block: tracked, active,
/// with a PR; each with the PR's id.
pub fn description_targets(state: &RepoState, order: &Vec<String>) -> (r: Vec<(String, String)>)
    ensures
        r@.len() == description_targets_spec(state.branches@, order@).len(),
        forall|k: int|
            #![trigger r@[k]]
            0 <= k < r@.len() ==> r@[k].0@ == description_targets_spec(state.branches@, order@)[k].0
                && r@[k].1@ == description_targets_spec(state.branches@, order@)[k].1,
{
    let mut out: Vec<(String, String)> = Vec::new();
    let mut x: usize = 0;
    while x < order.len()
        invariant
            x <= order@.len(),
            out@.len() == description_targets_spec(state.branches@, order@.take(x as int)).len(),
            forall|k: int|
                #![trigger out@[k]]
                0 <= k < out@.len() ==> out@[k].0@ == description_targets_spec(
                    state.branches@,
                    order@.take(x as int),
                )[k].0 && out@[k].1@ == description_targets_spec(
                    state.branches@,
                    order@.take(x as int),
                )[k].1,
        decreases order@.len() - x,
    {
        proof {
            assert(order@.take(x + 1).drop_last() =~= order@.take(x as int));
            assert(order@.take(x + 1).last() == order@[x as int]);
        }
        match state.branch(order[x].as_str()) {
            Some(b) => {
                if b.status == BranchStatus::Active {
                    match &b.pr {
                        Some(pr) => {
                            out.push((order[x].clone(), pr.id.clone()));
                        },
                        None => {},
                    }
                }
            },
            None => {},
        }
        x = x + 1;
    }
    proof {
        assert(order@.take(order@.len() as int) =~= order@);
    }
    out
}

/// The update for the PR of `e`: its id, and its description refreshed against the
/// active PR details `infos`.
pub open spec fn description_update(
    s: Seq<ManagedBranch>,
    t: Seq<char>,
    order: Seq<Seq<char>>,
    infos: Seq<(String, PrInfo)>,
    e: (String, PrInfo),
    u: (String, String),
) -> bool {
    &&& u.0@ == decimal(e.1.pull_request_id as nat)
    &&& u.1@ == refreshed_description(s, t, order, infos, e.0@, e.1)
}

/// The description updates after restacking: of the fetched PR details, those of
/// active PRs; for each, the PR id and its refreshed description. The updates are
/// ordered by branch name.
pub fn stack_description_updates(
    state: &RepoState,
    order: &Vec<String>,
    fetched: Vec<(String, PrInfo)>,
) -> (r: Vec<(String, String)>)
    requires
        valid_graph(state.branches@, state.repo.trunk@),
        !has_branch(state.branches@, state.repo.trunk@),
    ensures
        ({
            let f = fetched@.filter(is_active_info());
            &&& r@.len() == f.len()
            &&& exists|q: Seq<int>|
                {
                    &&& q.len() == f.len()
                    &&& q.no_duplicates()
                    &&& forall|k: int| 0 <= k < q.len() ==> 0 <= #[trigger] q[k] < f.len()
                    &&& forall|k: int|
                        0 <= k < r@.len() ==> description_update(
                            state.branches@,
                            state.repo.trunk@,
                            names_of(order@),
                            f,
                            f[q[k]],
                            #[trigger] r@[k],
                        )
                    &&& forall|a: int, b: int|
                        0 <= a < b < q.len() ==> name_le(#[trigger] f[q[a]].0@, #[trigger] f[q[b]].0@)
                }
        }),
{
    let ghost all = fetched@;
    let ghost p = is_active_info();
    // Keep the active ones, in order.
    let mut rev: Vec<(String, PrInfo)> = Vec::new();
    let mut rest = fetched;
    while rest.len() > 0
        invariant
            p == is_active_info(),
            rest@.len() <= all.len(),
            rest@ == all.take(rest@.len() as int),
            rev@.reverse() == all.skip(rest@.len() as int).filter(p),
        decreases rest@.len(),
    {
        let ghost n0 = rest@.len();
        let e = rest.pop().unwrap();
        proof {
            assert(rest@ =~= all.take(n0 - 1));
            assert(all.skip(n0 - 1) =~= seq![e] + all.skip(n0 as int));
            all.skip(n0 as int).lemma_filter_prepend(e, p);
        }
        if crate::text::str_eq(e.1.status.as_str(), "active") {
            rev.push(e);
            proof {
                assert(rev@.reverse() =~= seq![e] + rev@.drop_last().reverse());
            }
        } else {
            proof {
                assert(seq![e] + all.skip(n0 as int) == all.skip(n0 - 1));
            }
        }
    }
    let ghost rev0 = rev@;
    let mut infos: Vec<(String, PrInfo)> = Vec::new();
    while rev.len() > 0
        invariant
            rev@ == rev0.take(rev@.len() as int),
            rev@.len() <= rev0.len(),
            infos@.len() == rev0.len() - rev@.len(),
            forall|k: int| 0 <= k < infos@.len() ==> #[trigger] infos@[k] == rev0[rev0.len() - 1 - k],
        decreases rev@.len(),
    {
        let ghost n0 = rev@.len();
        let e = rev.pop().unwrap();
        assert(e == rev0[n0 - 1]);
        assert(rev@ =~= rev0.take(n0 - 1));
        infos.push(e);
    }
    proof {
        assert(all.skip(0) =~= all);
        assert(infos@ =~= rev0.reverse());
        assert(infos@ =~= all.filter(p));
    }
    let mut out: Vec<(String, String)> = Vec::new();
    let mut k: usize = 0;
    while k < infos.len()
        invariant
            valid_graph(state.branches@, state.repo.trunk@),
            !has_branch(state.branches@, state.repo.trunk@),
            infos@ == all.filter(p),
            k <= infos@.len(),
            out@.len() == k,
            forall|x: int|
                #![trigger out@[x]]
                0 <= x < k ==> out@[x].0@ == decimal(infos@[x].1.pull_request_id as nat) && out@[x].1@
                    == refreshed_description(
                    state.branches@,
                    state.repo.trunk@,
                    names_of(order@),
                    infos@,
                    infos@[x].0@,
                    infos@[x].1,
                ),
        decreases infos@.len() - k,
    {
        let name = infos[k].0.as_str();
        let info = &infos[k].1;
        let stack_order = stack_order_for_branch(state, order, name);
        let block = build_stack_block(state, &stack_order, &infos, name);
        let description = match &info.description {
            Some(d) => splice_block(d.as_str(), block.as_str()),
            None => splice_block("", block.as_str()),
        };
        out.push((to_decimal(info.pull_request_id), description));
        k = k + 1;
    }
    let ghost f = infos@;
    // Order by branch name.
    let mut keys: Vec<Vec<String>> = Vec::new();
    let mut c: usize = 0;
    while c < infos.len()
        invariant
            c <= infos@.len(),
            keys@.len() == c,
            forall|x: int| 0 <= x < c ==> #[trigger] names_of(keys@[x]@) == seq![infos@[x].0@],
        decreases infos@.len() - c,
    {
        let mut key = Vec::new();
        key.push(infos[c].0.clone());
        proof {
            assert(names_of(key@) =~= seq![infos@[c as int].0@]);
        }
        keys.push(key);
        c = c + 1;
    }
    let sorted = sort_by_path(&keys);
    let mut res: Vec<(String, String)> = Vec::new();
    let mut c: usize = 0;
    while c < sorted.len()
        invariant
            out@.len() == infos@.len(),
            keys@.len() == infos@.len(),
            sorted@.len() == keys@.len(),
            forall|x: int| 0 <= x < sorted@.len() ==> #[trigger] sorted@[x] < keys@.len(),
            c <= sorted@.len(),
            res@.len() == c,
            forall|x: int|
                0 <= x < c ==> (#[trigger] res@[x]).0@ == out@[sorted@[x] as int].0@ && res@[x].1@
                    == out@[sorted@[x] as int].1@,
        decreases sorted@.len() - c,
    {
        let i = sorted[c];
        res.push((out[i].0.clone(), out[i].1.clone()));
        c = c + 1;
    }
    proof {
        crate::order::lemma_name_order();
        let q = sorted@.map_values(|x: usize| x as int);
        assert(q.no_duplicates()) by {
            assert forall|a: int, b: int| 0 <= a < q.len() && 0 <= b < q.len() && a != b implies q[a]
                != q[b] by {
                assert(sorted@[a] != sorted@[b]);
            }
        }
        assert forall|k: int| 0 <= k < res@.len() implies description_update(
            state.branches@,
            state.repo.trunk@,
            names_of(order@),
            f,
            f[q[k]],
            #[trigger] res@[k],
        ) by {
            assert(q[k] == sorted@[k] as int);
            assert(out@[q[k]].0@ == decimal(infos@[q[k]].1.pull_request_id as nat));
        }
        assert forall|a: int, b: int| 0 <= a < b < q.len() implies name_le(
            #[trigger] f[q[a]].0@,
            #[trigger] f[q[b]].0@,
        ) by {
            let ka = names_of(keys@[sorted@[a] as int]@);
            let kb = names_of(keys@[sorted@[b] as int]@);
            assert(ka == seq![f[q[a]].0@]);
            assert(kb == seq![f[q[b]].0@]);
            assert(path_le(ka, kb));
            if f[q[a]].0@ == f[q[b]].0@ {
                crate::order::lemma_lex_refl(f[q[a]].0@, crate::order::char_order());
            }
        }
        assert(forall|k: int| 0 <= k < q.len() ==> 0 <= #[trigger] q[k] < f.len());
    }
    res
}

/// Branches whose PR can be landed: active, tracking a PR, and sitting on trunk.
pub open spec fn landable(s: Seq<ManagedBranch>, t: Seq<char>) -> spec_fn(ManagedBranch) -> bool {
    |b: ManagedBranch| b.status == BranchStatus::Active && b.pr is Some && effective_parent_spec(s, t, b) == t
}

/// What landing branch `n` gives: the branch and its PR's id when it is tracked, active,
/// faces trunk and tracks a PR; otherwise the first of these that fails.
pub open spec fn land_outcome(
    s: Seq<ManagedBranch>,
    t: Seq<char>,
    n: Seq<char>,
    r: Result<(String, String), StackError>,
) -> bool {
    match lookup(s, n) {
        None => r matches Err(StackError::BranchNotTracked(m)) && m@ == n,
        Some(b) => if b.status != BranchStatus::Active {
            r matches Err(StackError::BranchNotActive(m)) && m@ == n
        } else if effective_parent_spec(s, t, b) != t {
            r matches Err(StackError::NotTrunkFacing(m, e)) && m@ == n && e@ == effective_parent_spec(s, t, b)
        } else {
            match b.pr {
                None => r matches Err(StackError::NoTrackedPr(m)) && m@ == n,
                Some(pr) => r matches Ok((m, id)) && m@ == n && id == pr.id,
            }
        },
    }
}

/// The names of the branches whose PR can be landed, in state order.
fn landable_names(state: &RepoState) -> (r: Vec<String>)
    ensures
        r@.len() == state.branches@.filter(landable(state.branches@, state.repo.trunk@)).len(),
        forall|k: int|
            #![trigger r@[k]]
            0 <= k < r@.len() ==> r@[k] == state.branches@.filter(
                landable(state.branches@, state.repo.trunk@),
            )[k].name,
{
    let ghost p = landable(state.branches@, state.repo.trunk@);
    let mut out: Vec<String> = Vec::new();
    let mut i: usize = 0;
    while i < state.branches.len()
        invariant
            i <= state.branches@.len(),
            p == landable(state.branches@, state.repo.trunk@),
            out@.len() == state.branches@.take(i as int).filter(p).len(),
            forall|k: int|
                0 <= k < out@.len() ==> #[trigger] out@[k] == state.branches@.take(i as int).filter(
                    p,
                )[k].name,
        decreases state.branches@.len() - i,
    {
        proof {
            assert(state.branches@.take(i + 1) =~= state.branches@.take(i as int).push(
                state.branches@[i as int],
            ));
            state.branches@.take(i as int).lemma_filter_push(state.branches@[i as int], p);
        }
        let b = &state.branches[i];
        if b.status == BranchStatus::Active && b.pr.is_some() {
            let target = effective_parent(state, b);
            if crate::text::str_eq(target.as_str(), state.repo.trunk.as_str()) {
                out.push(b.name.clone());
            }
        }
        i = i + 1;
    }
    assert(state.branches@.take(i as int) =~= state.branches@);
    out
}

/// Check that branch `name` can be landed and give it with its PR's id.
fn land_branch(state: &RepoState, name: &str) -> (r: Result<(String, String), StackError>)
    ensures
        land_outcome(state.branches@, state.repo.trunk@, name@, r),
{
    let managed = match state.branch(name) {
        Some(b) => b,
        None => return Err(StackError::BranchNotTracked(name.to_string())),
    };
    if managed.status != BranchStatus::Active {
        return Err(StackError::BranchNotActive(name.to_string()));
    }
    let target = effective_parent(state, managed);
    if !crate::text::str_eq(target.as_str(), state.repo.trunk.as_str()) {
        return Err(StackError::NotTrunkFacing(name.to_string(), target));
    }
    match &managed.pr {
        Some(pr) => Ok((name.to_string(), pr.id.clone())),
        None => Err(StackError::NoTrackedPr(name.to_string())),
    }
}

/// Law: a branch that landing accepts is active, tracks the PR whose id is given, and
/// sits on trunk.
pub proof fn lemma_landed_branch_is_landable(
    s: Seq<ManagedBranch>,
    t: Seq<char>,
    n: Seq<char>,
    name: String,
    id: String,
)
    requires
        land_outcome(s, t, n, Ok::<(String, String), StackError>((name, id))),
    ensures
        name@ == n,
        lookup(s, n) matches Some(b) && landable(s, t)(b) && b.pr->0.id == id,
{
}

/// The branch to land and its PR's id. Without a branch, the one branch whose PR can be
/// landed is taken; none, or several, is an error.
pub fn land_target(state: &RepoState, branch: Option<&str>) -> (r: Result<(String, String), StackError>)
    ensures
        match branch {
            Some(n) => land_outcome(state.branches@, state.repo.trunk@, n@, r),
            None => {
                let roots = state.branches@.filter(landable(state.branches@, state.repo.trunk@));
                if roots.len() == 0 {
                    r matches Err(StackError::NoLandablePr(m)) && m@ == state.repo.trunk@
                } else if roots.len() > 1 {
                    r matches Err(StackError::MultipleLandablePrs(m, names)) && m@ == state.repo.trunk@
                        && names@.len() == roots.len() && forall|k: int|
                        0 <= k < roots.len() ==> #[trigger] names@[k] == roots[k].name
                } else {
                    land_outcome(state.branches@, state.repo.trunk@, roots[0].name@, r)
                }
            },
        },
{
    match branch {
        Some(n) => land_branch(state, n),
        None => {
            let roots = landable_names(state);
            if roots.len() == 0 {
                Err(StackError::NoLandablePr(state.repo.trunk.clone()))
            } else if roots.len() > 1 {
                Err(StackError::MultipleLandablePrs(state.repo.trunk.clone(), roots))
            } else {
                land_branch(state, roots[0].as_str())
            }
        },
    }
}

/// The branch that a new PR for `name` targets: its effective parent. Refused when the
/// branch is not tracked, not active, or already tracks a PR.
pub fn pr_create_target(state: &RepoState, name: &str) -> (r: Result<String, StackError>)
    ensures
        match lookup(state.branches@, name@) {
            None => r matches Err(StackError::BranchNotTracked(m)) && m@ == name@,
            Some(b) => if b.status != BranchStatus::Active {
                r matches Err(StackError::BranchNotActive(m)) && m@ == name@
            } else {
                match b.pr {
                    Some(pr) => r matches Err(StackError::PrAlreadyTracked(id)) && id == pr.id,
                    None => r matches Ok(t) && t@ == effective_parent_spec(
                        state.branches@,
                        state.repo.trunk@,
                        b,
                    ),
                }
            },
        },
{
    let managed = match state.branch(name) {
        Some(b) => b,
        None => return Err(StackError::BranchNotTracked(name.to_string())),
    };
    if managed.status != BranchStatus::Active {
        return Err(StackError::BranchNotActive(name.to_string()));
    }
    match &managed.pr {
        Some(pr) => Err(StackError::PrAlreadyTracked(pr.id.clone())),
        None => Ok(effective_parent(state, managed)),
    }
}

/// `pr` records the Azure DevOps PR that `info` describes, targeting `target`.
pub open spec fn records_pr(pr: PullRequestRef, info: PrInfo, target: Seq<char>) -> bool {
    &&& pr.provider@ == PROVIDER@
    &&& pr.id@ == decimal(info.pull_request_id as nat)
    &&& match pr.url {
        Some(u) => web_url_spec(info) == Some(u@),
        None => web_url_spec(info) is None,
    }
    &&& pr.target_branch matches Some(tb) && tb@ == target
}

/// Record on branch `name` the PR that `info` describes, targeting `target`; nothing
/// else of the state changes.
pub fn record_pr(state: &mut RepoState, name: &str, info: &PrInfo, target: &str)
    requires
        has_branch(old(state).branches@, name@),
    ensures
        final(state).version == old(state).version,
        final(state).repo == old(state).repo,
        final(state).branches@.len() == old(state).branches@.len(),
        ({
            let i = find_branch(old(state).branches@, name@)->0;
            &&& forall|j: int|
                0 <= j < old(state).branches@.len() && j != i ==> #[trigger] final(state).branches@[j]
                    == old(state).branches@[j]
            &&& final(state).branches@[i].name == old(state).branches@[i].name
            &&& final(state).branches@[i].parent == old(state).branches@[i].parent
            &&& final(state).branches@[i].recorded_parent_tip == old(state).branches@[i].recorded_parent_tip
            &&& final(state).branches@[i].status == old(state).branches@[i].status
            &&& final(state).branches@[i].pr matches Some(pr) && records_pr(pr, *info, target@)
        }),
{
    proof {
        crate::state::lemma_has_branch_found(state.branches@, name@);
    }
    let mut provider = String::new();
    provider.append(PROVIDER);
    let pr = crate::state::PullRequestRef {
        provider,
        id: to_decimal(info.pull_request_id),
        url: info.web_url(),
        target_branch: Some(target.to_string()),
    };
    match state.branch_mut(name) {
        Some(b) => {
            b.pr = Some(pr);
        },
        None => {},
    }
}

/// The Azure DevOps resource that `az rest` requests a token for.
pub const AZURE_DEVOPS_RESOURCE: &'static str = "499b84ac-1321-427f-aa17-267ca6975798";

/// What `serde_json::to_string` writes for a string: the JSON string literal.
pub uninterp spec fn json_string(s: Seq<char>) -> Seq<char>;

/// `serde_json::Error`, carried through unread.
#[verifier::external_type_specification]
#[verifier::external_body]
pub struct ExJsonError(serde_json::Error);

/// Calls `serde_json::to_string` on a string slice. Claimed: the call succeeds (the
/// string is written into a byte vector, which cannot fail); the result is the JSON
/// string literal of `s` (named `json_string`); and, as the crate's escape table shows,
/// for a string without `"`, `\` or a control character below U+0020 that literal is
/// `s` between double quotes.
#[verifier::external_body]
fn to_json_string(s: &str) -> (r: Result<String, serde_json::Error>)
    ensures
        r is Ok,
        r matches Ok(j) ==> j@ == json_string(s@),
        r matches Ok(j) ==> ((forall|i: int|
            0 <= i < s@.len() ==> #[trigger] s@[i] != '"' && s@[i] != '\\' && (s@[i] as int) >= 0x20)
            ==> j@ == seq!['"'] + s@ + seq!['"']),
{
    serde_json::to_string(s)
}

/// The JSON body that retargets a PR to `target`.
pub open spec fn retarget_body_spec(target: Seq<char>) -> Seq<char> {
    "{\"targetRefName\":"@ + json_string(branch_ref_spec(target)) + "}"@
}

/// An `az` invocation: its arguments, run in the repository root.
#[derive(Debug, Clone)]
pub struct AzCommand {
    pub args: Vec<String>,
}

/// The Azure CLI, run from the repository root so that organization, project and
/// repository are found from the git remote.
#[derive(Debug, Clone)]
pub struct AzCli {
    pub repo: GitRepo,
}

fn az_command(args: Vec<String>) -> (r: AzCommand)
    ensures
        r.args@ == args@,
{
    AzCommand { args }
}

fn arg(s: &str) -> (r: String)
    ensures
        r@ == s@,
{
    s.to_string()
}

impl AzCli {
    /// The CLI for `repo`.
    pub fn new(repo: &GitRepo) -> (r: AzCli)
        ensures
            r.repo.root@ == repo.root@,
    {
        AzCli { repo: GitRepo { root: repo.root.clone() } }
    }

    /// The command that prints PR `id` as JSON.
    pub fn pr_show(&self, id: &str) -> (r: AzCommand)
        ensures
            names_of(r.args@) == seq!["repos"@, "pr"@, "show"@, "--id"@, id@, "-o"@, "json"@],
    {
        let r = az_command(vec![arg("repos"), arg("pr"), arg("show"), arg("--id"), arg(id), arg("-o"), arg("json")]);
        assert(names_of(r.args@) =~= seq!["repos"@, "pr"@, "show"@, "--id"@, id@, "-o"@, "json"@]);
        r
    }

    /// The command that opens a PR from `source` into `target` with `title`, as a draft
    /// when `draft`, and prints it as JSON.
    pub fn pr_create(&self, source: &str, target: &str, title: &str, draft: bool) -> (r: AzCommand)
        ensures
            names_of(r.args@) == seq![
                "repos"@,
                "pr"@,
                "create"@,
                "--source-branch"@,
                source@,
                "--target-branch"@,
                target@,
                "--title"@,
                title@,
            ] + (if draft {
                seq!["--draft"@, "true"@]
            } else {
                Seq::empty()
            }) + seq!["-o"@, "json"@],
    {
        let mut args = vec![
            arg("repos"),
            arg("pr"),
            arg("create"),
            arg("--source-branch"),
            arg(source),
            arg("--target-branch"),
            arg(target),
            arg("--title"),
            arg(title),
        ];
        if draft {
            args.push(arg("--draft"));
            args.push(arg("true"));
        }
        args.push(arg("-o"));
        args.push(arg("json"));
        let r = az_command(args);
        assert(names_of(r.args@) =~= seq![
            "repos"@,
            "pr"@,
            "create"@,
            "--source-branch"@,
            source@,
            "--target-branch"@,
            target@,
            "--title"@,
            title@,
        ] + (if draft {
            seq!["--draft"@, "true"@]
        } else {
            Seq::empty()
        }) + seq!["-o"@, "json"@]);
        r
    }

    /// The command that sets the description of PR `id`.
    pub fn pr_update_description(&self, id: &str, description: &str) -> (r: AzCommand)
        ensures
            names_of(r.args@) == seq![
                "repos"@,
                "pr"@,
                "update"@,
                "--id"@,
                id@,
                "--description="@ + description@,
                "-o"@,
                "none"@,
            ],
    {
        let mut d = arg("--description=");
        d.append(description);
        let r = az_command(vec![arg("repos"), arg("pr"), arg("update"), arg("--id"), arg(id), d, arg("-o"), arg("none")]);
        assert(names_of(r.args@) =~= seq![
            "repos"@,
            "pr"@,
            "update"@,
            "--id"@,
            id@,
            "--description="@ + description@,
            "-o"@,
            "none"@,
        ]);
        r
    }

    /// The REST call that patches the PR at `api_url` with the JSON `body`.
    pub fn retarget_command(&self, api_url: &str, body: &str) -> (r: AzCommand)
        ensures
            names_of(r.args@) == seq![
                "rest"@,
                "--resource"@,
                AZURE_DEVOPS_RESOURCE@,
                "--method"@,
                "PATCH"@,
                "--url"@,
                api_url@ + "?api-version=7.1"@,
                "--body"@,
                body@,
                "--headers"@,
                "Content-Type=application/json"@,
                "-o"@,
                "none"@,
            ],
    {
        let mut url = arg(api_url);
        url.append("?api-version=7.1");
        let r = az_command(vec![
            arg("rest"),
            arg("--resource"),
            arg(AZURE_DEVOPS_RESOURCE),
            arg("--method"),
            arg("PATCH"),
            arg("--url"),
            url,
            arg("--body"),
            arg(body),
            arg("--headers"),
            arg("Content-Type=application/json"),
            arg("-o"),
            arg("none"),
        ]);
        assert(names_of(r.args@) =~= seq![
            "rest"@,
            "--resource"@,
            AZURE_DEVOPS_RESOURCE@,
            "--method"@,
            "PATCH"@,
            "--url"@,
            api_url@ + "?api-version=7.1"@,
            "--body"@,
            body@,
            "--headers"@,
            "Content-Type=application/json"@,
            "-o"@,
            "none"@,
        ]);
        r
    }

    /// The REST call that retargets the PR of `info` to branch `target`. Refused when
    /// the PR's REST URL is unknown.
    pub fn pr_retarget(&self, info: &PrInfo, target: &str) -> (r: Result<AzCommand, StackError>)
        ensures
            match info.api_url_spec() {
                None => r == Err::<AzCommand, StackError>(StackError::MissingRestUrl(info.pull_request_id)),
                Some(u) => r matches Ok(c) && names_of(c.args@) == seq![
                    "rest"@,
                    "--resource"@,
                    AZURE_DEVOPS_RESOURCE@,
                    "--method"@,
                    "PATCH"@,
                    "--url"@,
                    u + "?api-version=7.1"@,
                    "--body"@,
                    retarget_body_spec(target@),
                    "--headers"@,
                    "Content-Type=application/json"@,
                    "-o"@,
                    "none"@,
                ],
            },
    {
        let url = info.api_url()?;
        let full_ref = branch_ref(target);
        let quoted = match to_json_string(full_ref.as_str()) {
            Ok(q) => q,
            Err(_) => {
                proof {
                    assert(false);
                }
                String::new()
            },
        };
        let mut body = arg("{\"targetRefName\":");
        body.append(quoted.as_str());
        body.append("}");
        Ok(self.retarget_command(url.as_str(), body.as_str()))
    }

    /// The command that sets auto-complete on PR `id`: squash merge, source branch
    /// deleted.
    pub fn pr_set_autocomplete(&self, id: &str) -> (r: AzCommand)
        ensures
            names_of(r.args@) == seq![
                "repos"@,
                "pr"@,
                "update"@,
                "--id"@,
                id@,
                "--auto-complete"@,
                "true"@,
                "--squash"@,
                "true"@,
                "--delete-source-branch"@,
                "true"@,
                "-o"@,
                "none"@,
            ],
    {
        let r = az_command(vec![
            arg("repos"),
            arg("pr"),
            arg("update"),
            arg("--id"),
            arg(id),
            arg("--auto-complete"),
            arg("true"),
            arg("--squash"),
            arg("true"),
            arg("--delete-source-branch"),
            arg("true"),
            arg("-o"),
            arg("none"),
        ]);
        assert(names_of(r.args@) =~= seq![
            "repos"@,
            "pr"@,
            "update"@,
            "--id"@,
            id@,
            "--auto-complete"@,
            "true"@,
            "--squash"@,
            "true"@,
            "--delete-source-branch"@,
            "true"@,
            "-o"@,
            "none"@,
        ]);
        r
    }
}

} // verus!
