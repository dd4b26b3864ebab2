//! The git operations the engine asks for, the hardened command lines they
//! become, and what their output means.

use vstd::prelude::*;
use crate::text::{
    after_first_word, concat_text, first_word, lines, next_word, parse_u32, parse_u32_text, slice_text,
    split_lines, split_once, split_once_text, trim, trim_text, views,
};

verus! {

/// One git operation run inside a repository.
#[derive(Debug)]
pub enum GitOp {
    /// `symbolic-ref --short HEAD`: the checked-out branch.
    CurrentBranch,
    /// `remote get-url origin`: whether an origin remote exists.
    RemoteOrigin,
    /// `fetch --all --prune`.
    Fetch,
    /// `status --porcelain --untracked-files=no`: tracked changes.
    Status,
    /// `stash list`.
    StashList,
    /// `stash push -m "repo-sync: auto-stash before update"`.
    StashPush,
    /// `stash apply`.
    StashApply,
    /// `stash drop`.
    StashDrop,
    /// `for-each-ref --format=%(refname:short)|%(upstream:short) refs/heads`.
    ListBranches,
    /// `rev-parse --verify --quiet <ref>`.
    VerifyRef(String),
    /// `rev-list --left-right --count <branch>...<upstream>`.
    AheadBehind(String, String),
    /// `merge --ff-only <upstream>`: advances the checked-out branch.
    MergeFfOnly(String),
    /// `branch -f <branch> <upstream>`: moves a branch that is not checked out.
    ForceBranch(String, String),
    /// `checkout <branch>`.
    Checkout(String),
    /// `checkout -b <branch> --track origin/<branch>`.
    CheckoutTracking(String),
    /// `rev-parse HEAD`: the checked-out commit.
    HeadCommit,
    /// `checkout --detach <commit>`: back to a commit, with no branch.
    CheckoutDetached(String),
}

pub enum GitOpView {
    CurrentBranch,
    RemoteOrigin,
    Fetch,
    Status,
    StashList,
    StashPush,
    StashApply,
    StashDrop,
    ListBranches,
    VerifyRef(Seq<char>),
    AheadBehind(Seq<char>, Seq<char>),
    MergeFfOnly(Seq<char>),
    ForceBranch(Seq<char>, Seq<char>),
    Checkout(Seq<char>),
    CheckoutTracking(Seq<char>),
    HeadCommit,
    CheckoutDetached(Seq<char>),
}

impl View for GitOp {
    type V = GitOpView;

    open spec fn view(&self) -> GitOpView {
        match self {
            GitOp::CurrentBranch => GitOpView::CurrentBranch,
            GitOp::RemoteOrigin => GitOpView::RemoteOrigin,
            GitOp::Fetch => GitOpView::Fetch,
            GitOp::Status => GitOpView::Status,
            GitOp::StashList => GitOpView::StashList,
            GitOp::StashPush => GitOpView::StashPush,
            GitOp::StashApply => GitOpView::StashApply,
            GitOp::StashDrop => GitOpView::StashDrop,
            GitOp::ListBranches => GitOpView::ListBranches,
            GitOp::VerifyRef(r) => GitOpView::VerifyRef(r@),
            GitOp::AheadBehind(b, u) => GitOpView::AheadBehind(b@, u@),
            GitOp::MergeFfOnly(u) => GitOpView::MergeFfOnly(u@),
            GitOp::ForceBranch(b, u) => GitOpView::ForceBranch(b@, u@),
            GitOp::Checkout(b) => GitOpView::Checkout(b@),
            GitOp::CheckoutTracking(b) => GitOpView::CheckoutTracking(b@),
            GitOp::HeadCommit => GitOpView::HeadCommit,
            GitOp::CheckoutDetached(c) => GitOpView::CheckoutDetached(c@),
        }
    }
}

/// The message that `stash push` records.
pub open spec fn stash_message() -> Seq<char> {
    "repo-sync: auto-stash before update"@
}

/// The arguments of `op`, after `git` and the hardening options.
pub open spec fn op_args(op: GitOpView) -> Seq<Seq<char>> {
    match op {
        GitOpView::CurrentBranch => seq!["symbolic-ref"@, "--short"@, "HEAD"@],
        GitOpView::RemoteOrigin => seq!["remote"@, "get-url"@, "origin"@],
        GitOpView::Fetch => seq!["fetch"@, "--all"@, "--prune"@],
        GitOpView::Status => seq!["status"@, "--porcelain"@, "--untracked-files=no"@],
        GitOpView::StashList => seq!["stash"@, "list"@],
        GitOpView::StashPush => seq!["stash"@, "push"@, "-m"@, stash_message()],
        GitOpView::StashApply => seq!["stash"@, "apply"@],
        GitOpView::StashDrop => seq!["stash"@, "drop"@],
        GitOpView::ListBranches => seq![
            "for-each-ref"@,
            "--format=%(refname:short)|%(upstream:short)"@,
            "refs/heads"@,
        ],
        GitOpView::VerifyRef(r) => seq!["rev-parse"@, "--verify"@, "--quiet"@, r],
        GitOpView::AheadBehind(b, u) => seq![
            "rev-list"@,
            "--left-right"@,
            "--count"@,
            b + "..."@ + u,
        ],
        GitOpView::MergeFfOnly(u) => seq!["merge"@, "--ff-only"@, u],
        GitOpView::ForceBranch(b, u) => seq!["branch"@, "-f"@, b, u],
        GitOpView::Checkout(b) => seq!["checkout"@, b],
        GitOpView::CheckoutTracking(b) => seq!["checkout"@, "-b"@, b, "--track"@, "origin/"@ + b],
        GitOpView::HeadCommit => seq!["rev-parse"@, "HEAD"@],
        GitOpView::CheckoutDetached(c) => seq!["checkout"@, "--detach"@, c],
    }
}

/// The remote whose existence decides whether a repo is pulled is `origin`,
/// the same remote target branches are created tracking: its query is
/// `git remote get-url origin`, and for every branch `b` a tracking checkout
/// follows `origin/b` on that remote.
pub proof fn lemma_origin_is_the_remote(b: Seq<char>)
    ensures
        op_args(GitOpView::RemoteOrigin) == seq!["remote"@, "get-url"@, "origin"@],
        op_args(GitOpView::CheckoutTracking(b))[4] == op_args(GitOpView::RemoteOrigin)[2] + "/"@ + b,
{
    reveal_strlit("origin/");
    reveal_strlit("origin");
    reveal_strlit("/");
    assert("origin/"@ =~= "origin"@ + "/"@);
    assert("origin/"@ + b =~= "origin"@ + "/"@ + b);
}

fn texts(parts: &[&str]) -> (r: Vec<String>)
    ensures
        r@.len() == parts@.len(),
        forall|i: int| 0 <= i < parts@.len() ==> #[trigger] r@[i]@ == parts@[i]@,
{
    let mut r: Vec<String> = Vec::new();
    let mut i: usize = 0;
    while i < parts.len()
        invariant
            i <= parts@.len(),
            r@.len() == i,
            forall|k: int| 0 <= k < i ==> #[trigger] r@[k]@ == parts@[k]@,
        decreases parts@.len() - i,
    {
        r.push(String::from_str(parts[i]));
        i = i + 1;
    }
    r
}

impl GitOp {
    /// The arguments of this operation after `git` and the hardening options.
    pub fn args(&self) -> (r: Vec<String>)
        ensures
            views(r@) == op_args(self@),
    {
        let r = match self {
            GitOp::CurrentBranch => texts(&["symbolic-ref", "--short", "HEAD"]),
            GitOp::RemoteOrigin => texts(&["remote", "get-url", "origin"]),
            GitOp::Fetch => texts(&["fetch", "--all", "--prune"]),
            GitOp::Status => texts(&["status", "--porcelain", "--untracked-files=no"]),
            GitOp::StashList => texts(&["stash", "list"]),
            GitOp::StashPush => texts(
                &["stash", "push", "-m", "repo-sync: auto-stash before update"],
            ),
            GitOp::StashApply => texts(&["stash", "apply"]),
            GitOp::StashDrop => texts(&["stash", "drop"]),
            GitOp::ListBranches => texts(
                &["for-each-ref", "--format=%(refname:short)|%(upstream:short)", "refs/heads"],
            ),
            GitOp::VerifyRef(rf) => texts(&["rev-parse", "--verify", "--quiet", rf.as_str()]),
            GitOp::AheadBehind(b, u) => {
                let spec_text = concat_text(concat_text(b.as_str(), "...").as_str(), u.as_str());
                texts(&["rev-list", "--left-right", "--count", spec_text.as_str()])
            },
            GitOp::MergeFfOnly(u) => texts(&["merge", "--ff-only", u.as_str()]),
            GitOp::ForceBranch(b, u) => texts(&["branch", "-f", b.as_str(), u.as_str()]),
            GitOp::Checkout(b) => texts(&["checkout", b.as_str()]),
            GitOp::CheckoutTracking(b) => {
                let remote = concat_text("origin/", b.as_str());
                texts(&["checkout", "-b", b.as_str(), "--track", remote.as_str()])
            },
            GitOp::HeadCommit => texts(&["rev-parse", "HEAD"]),
            GitOp::CheckoutDetached(c) => texts(&["checkout", "--detach", c.as_str()]),
        };
        proof {
            assert(views(r@) =~= op_args(self@));
        }
        r
    }
}

/// Seconds after which a git invocation is killed.
pub const GIT_TIMEOUT_SECS: u64 = 180;

/// A complete git command line with its hardening: `core.fsmonitor` forced
/// off, no terminal prompts, ssh in batch mode, and a hard timeout.
#[derive(Debug)]
pub struct GitInvocation {
    pub program: String,
    pub args: Vec<String>,
    pub env: Vec<(String, String)>,
    pub timeout_secs: u64,
}

pub open spec fn pair_views(v: Seq<(String, String)>) -> Seq<(Seq<char>, Seq<char>)> {
    v.map_values(|p: (String, String)| (p.0@, p.1@))
}

/// The hardening options that precede every operation's arguments.
pub open spec fn hardening_args() -> Seq<Seq<char>> {
    seq!["-c"@, "core.fsmonitor="@]
}

/// The environment every git invocation runs with.
pub open spec fn hardening_env() -> Seq<(Seq<char>, Seq<char>)> {
    seq![("GIT_TERMINAL_PROMPT"@, "0"@), ("GIT_SSH_COMMAND"@, "ssh -oBatchMode=yes"@)]
}

/// The command line that runs `op`.
pub fn invocation(op: &GitOp) -> (r: GitInvocation)
    ensures
        r.program@ == "git"@,
        views(r.args@) == hardening_args() + op_args(op@),
        pair_views(r.env@) == hardening_env(),
        r.timeout_secs == GIT_TIMEOUT_SECS,
{
    let mut args = texts(&["-c", "core.fsmonitor="]);
    let rest = op.args();
    let mut i: usize = 0;
    while i < rest.len()
        invariant
            i <= rest@.len(),
            views(rest@) == op_args(op@),
            views(args@) == hardening_args() + views(rest@).take(i as int),
        decreases rest@.len() - i,
    {
        let ghost before = args@;
        args.push(rest[i].clone());
        proof {
            assert(args@ =~= before.push(rest@[i as int]));
            assert(views(args@) =~= views(before).push(rest@[i as int]@));
            assert(views(rest@).take(i + 1) =~= views(rest@).take(i as int).push(rest@[i as int]@));
        }
        i = i + 1;
    }
    proof {
        assert(views(rest@).take(i as int) =~= views(rest@));
    }
    let mut env: Vec<(String, String)> = Vec::new();
    env.push((String::from_str("GIT_TERMINAL_PROMPT"), String::from_str("0")));
    env.push((String::from_str("GIT_SSH_COMMAND"), String::from_str("ssh -oBatchMode=yes")));
    proof {
        assert(pair_views(env@) =~= hardening_env());
    }
    GitInvocation { program: String::from_str("git"), args, env, timeout_secs: GIT_TIMEOUT_SECS }
}

/// What a git invocation reported: whether it succeeded, and its output
/// with surrounding whitespace trimmed.
#[derive(Debug)]
pub struct GitReply {
    pub ok: bool,
    pub stdout: String,
    pub stderr: String,
}

pub struct GitReplyView {
    pub ok: bool,
    pub stdout: Seq<char>,
    pub stderr: Seq<char>,
}

impl View for GitReply {
    type V = GitReplyView;

    open spec fn view(&self) -> GitReplyView {
        GitReplyView { ok: self.ok, stdout: self.stdout@, stderr: self.stderr@ }
    }
}

/// The message recorded when an invocation of `op` ran out of time.
pub open spec fn timeout_message(op: GitOpView) -> Seq<char> {
    "git "@ + op_args(op)[0] + " timed out after 180s"@
}

impl GitReply {
    /// The reply of a finished invocation, from its exit status and raw output.
    pub fn from_raw(ok: bool, stdout: &str, stderr: &str) -> (r: GitReply)
        ensures
            r@ == (GitReplyView { ok, stdout: trim(stdout@), stderr: trim(stderr@) }),
    {
        GitReply { ok, stdout: trim_text(stdout), stderr: trim_text(stderr) }
    }

    /// The reply of an invocation that could not be started or awaited.
    pub fn failure(message: String) -> (r: GitReply)
        ensures
            r@ == (GitReplyView { ok: false, stdout: Seq::empty(), stderr: message@ }),
    {
        GitReply { ok: false, stdout: String::new(), stderr: message }
    }

    /// The reply of an invocation of `op` that was killed after the timeout.
    pub fn timed_out(op: &GitOp) -> (r: GitReply)
        ensures
            r@ == (GitReplyView { ok: false, stdout: Seq::empty(), stderr: timeout_message(op@) }),
    {
        let args = op.args();
        proof {
            assert(op_args(op@).len() >= 2);
            assert(views(args@).len() == args@.len());
            assert(views(args@)[0] == args@[0]@);
        }
        let head = concat_text("git ", args[0].as_str());
        GitReply {
            ok: false,
            stdout: String::new(),
            stderr: concat_text(head.as_str(), " timed out after 180s"),
        }
    }
}

/// The checked-out branch that a `symbolic-ref` reply names, or "DETACHED".
pub open spec fn branch_of(r: GitReplyView) -> Seq<char> {
    if r.ok && r.stdout.len() > 0 {
        r.stdout
    } else {
        "DETACHED"@
    }
}

pub fn branch_from(r: &GitReply) -> (b: String)
    ensures
        b@ == branch_of(r@),
{
    if r.ok && r.stdout.unicode_len() > 0 {
        r.stdout.clone()
    } else {
        String::from_str("DETACHED")
    }
}

/// The commit a `rev-parse HEAD` reply names; empty when it failed.
pub open spec fn commit_of(r: GitReplyView) -> Seq<char> {
    if r.ok {
        r.stdout
    } else {
        Seq::empty()
    }
}

pub fn commit_from(r: &GitReply) -> (c: String)
    ensures
        c@ == commit_of(r@),
{
    if r.ok {
        r.stdout.clone()
    } else {
        String::new()
    }
}

/// Whether a `status --porcelain` reply lists tracked changes.
pub open spec fn is_dirty(r: GitReplyView) -> bool {
    trim(r.stdout).len() > 0
}

pub fn dirty_from(r: &GitReply) -> (d: bool)
    ensures
        d == is_dirty(r@),
{
    trim_text(r.stdout.as_str()).unicode_len() > 0
}

/// Number of non-blank lines among `ls`.
pub open spec fn count_nonblank(ls: Seq<Seq<char>>) -> nat
    decreases ls.len(),
{
    if ls.len() == 0 {
        0
    } else {
        count_nonblank(ls.drop_last()) + if trim(ls.last()).len() > 0 {
            1nat
        } else {
            0nat
        }
    }
}

/// Number of stashes that a `stash list` reply shows (0 when it failed).
pub open spec fn stash_count_of(r: GitReplyView) -> u32 {
    if r.ok {
        count_nonblank(lines(r.stdout)) as u32
    } else {
        0
    }
}

pub fn stash_count_from(r: &GitReply) -> (n: u32)
    ensures
        n == stash_count_of(r@),
{
    if !r.ok {
        return 0;
    }
    let ls = split_lines(r.stdout.as_str());
    let ghost lv = views(ls@);
    let mut n: usize = 0;
    let mut i: usize = 0;
    while i < ls.len()
        invariant
            i <= ls@.len(),
            lv == views(ls@),
            n <= i,
            n == count_nonblank(lv.take(i as int)),
        decreases ls@.len() - i,
    {
        proof {
            assert(lv.take(i + 1).drop_last() =~= lv.take(i as int));
            assert(lv.take(i + 1).last() == ls@[i as int]@);
        }
        if trim_text(ls[i].as_str()).unicode_len() > 0 {
            n = n + 1;
        }
        i = i + 1;
    }
    proof {
        assert(lv.take(i as int) =~= lv);
    }
    n as u32
}

/// (ahead, behind) from a `rev-list --left-right --count` reply: the first two
/// whitespace-separated fields as numbers, or `None`.
pub open spec fn ahead_behind_of(r: GitReplyView) -> Option<(u32, u32)> {
    if !r.ok {
        None
    } else {
        match first_word(r.stdout) {
            None => None,
            Some(w1) => match first_word(after_first_word(r.stdout)) {
                None => None,
                Some(w2) => match (parse_u32(w1), parse_u32(w2)) {
                    (Some(a), Some(b)) => Some((a, b)),
                    _ => None,
                },
            },
        }
    }
}

pub fn ahead_behind_from(r: &GitReply) -> (ab: Option<(u32, u32)>)
    ensures
        ab == ahead_behind_of(r@),
{
    if !r.ok {
        return None;
    }
    let s = r.stdout.as_str();
    proof {
        assert(s@.skip(0) =~= s@);
    }
    let (a0, a1) = match next_word(s, 0) {
        None => return None,
        Some(w) => w,
    };
    let (b0, b1) = match next_word(s, a1) {
        None => return None,
        Some(w) => w,
    };
    let ahead = match parse_u32_text(s, a0, a1) {
        None => return None,
        Some(v) => v,
    };
    let behind = match parse_u32_text(s, b0, b1) {
        None => return None,
        Some(v) => v,
    };
    Some((ahead, behind))
}

/// The message of a failed fetch: the last line of its error output, or a
/// generic one when there is none.
pub open spec fn fetch_error_of(r: GitReplyView) -> Seq<char> {
    let ls = lines(r.stderr);
    if ls.len() > 0 {
        ls.last()
    } else {
        "git fetch failed"@
    }
}

pub fn fetch_error_from(r: &GitReply) -> (m: String)
    ensures
        m@ == fetch_error_of(r@),
{
    let mut ls = split_lines(r.stderr.as_str());
    let ghost lv = views(ls@);
    match ls.pop() {
        Some(last) => {
            proof {
                assert(lv.last() == last@);
            }
            last
        },
        None => String::from_str("git fetch failed"),
    }
}

/// (branch, upstream) pairs from the lines of a `for-each-ref` listing: each
/// line split at its first `|`, lines with an empty branch name left out.
pub open spec fn branch_entries(ls: Seq<Seq<char>>) -> Seq<(Seq<char>, Seq<char>)>
    decreases ls.len(),
{
    if ls.len() == 0 {
        seq![]
    } else {
        let rest = branch_entries(ls.drop_last());
        let e = split_once(ls.last(), '|');
        if e.0.len() == 0 {
            rest
        } else {
            rest.push(e)
        }
    }
}

/// The local branches and their upstreams that a `for-each-ref` reply lists
/// (none when it failed).
pub open spec fn branch_list_of(r: GitReplyView) -> Seq<(Seq<char>, Seq<char>)> {
    if r.ok {
        branch_entries(lines(r.stdout))
    } else {
        seq![]
    }
}

pub fn branch_list_from(r: &GitReply) -> (v: Vec<(String, String)>)
    ensures
        pair_views(v@) == branch_list_of(r@),
{
    let mut v: Vec<(String, String)> = Vec::new();
    if !r.ok {
        proof {
            assert(pair_views(v@) =~= Seq::<(Seq<char>, Seq<char>)>::empty());
        }
        return v;
    }
    let ls = split_lines(r.stdout.as_str());
    let ghost lv = views(ls@);
    let mut i: usize = 0;
    proof {
        assert(pair_views(v@) =~= branch_entries(lv.take(0)));
    }
    while i < ls.len()
        invariant
            i <= ls@.len(),
            lv == views(ls@),
            pair_views(v@) == branch_entries(lv.take(i as int)),
        decreases ls@.len() - i,
    {
        proof {
            assert(lv.take(i + 1).drop_last() =~= lv.take(i as int));
            assert(lv.take(i + 1).last() == ls@[i as int]@);
        }
        let (b, u) = split_once_text(ls[i].as_str(), '|');
        if b.unicode_len() > 0 {
            let ghost before = v@;
            v.push((b, u));
            proof {
                assert(v@ =~= before.push((b, u)));
                assert(pair_views(v@) =~= pair_views(before).push((b@, u@)));
            }
        }
        i = i + 1;
    }
    proof {
        assert(lv.take(i as int) =~= lv);
    }
    v
}

} // verus!
