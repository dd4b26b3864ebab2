//! The pull engine for one repository, as a state machine: each step takes
//! the reply to the last git operation and names the next one. The caller
//! runs the operations; every decision is made here.

use vstd::prelude::*;
use crate::config::{DirtyPolicy, RepoSettings, RepoSettingsView};
use crate::git::{
    ahead_behind_of, branch_list_of, branch_of, commit_of, fetch_error_of, is_dirty, pair_views,
    stash_count_of, GitOp, GitOpView, GitReply, GitReplyView,
};
use crate::repos::{BranchResult, BranchResultView, BranchStatus, PullResult, PullResultView, RepoInfo};
use crate::text::views;

verus! {

/// Where the engine stands: which reply it waits for.
#[derive(Debug, Clone, Copy, PartialEq, Eq, Structural)]
pub enum Phase {
    AwaitBranch,
    AwaitHeadCommit,
    AwaitFetch,
    AwaitStatus,
    AwaitStashCountBefore,
    AwaitStashPush,
    AwaitStashCountAfter,
    AwaitTargetRef,
    AwaitTargetCheckout,
    AwaitBranchList,
    AwaitVerify,
    AwaitAheadBehind,
    AwaitAdvance { ahead: u32, behind: u32 },
    AwaitLanding,
    AwaitApply,
    AwaitDrop,
    Done,
}

/// What the engine asks for next.
#[derive(Debug)]
pub enum PullAction {
    /// Run this operation in the repository and hand back its reply.
    Run(GitOp),
    /// The pull is over; its result is final.
    Finished,
}

pub enum PullActionView {
    Run(GitOpView),
    Finished,
}

impl View for PullAction {
    type V = PullActionView;

    open spec fn view(&self) -> PullActionView {
        match self {
            PullAction::Run(op) => PullActionView::Run(op@),
            PullAction::Finished => PullActionView::Finished,
        }
    }
}

/// The engine's state, as the contracts see it.
pub struct PullView {
    pub phase: Phase,
    pub result: PullResultView,
    pub settings: RepoSettingsView,
    pub policy: DirtyPolicy,
    /// The branch checked out now.
    pub checked_out: Seq<char>,
    /// The commit checked out at the start, read when no branch was.
    pub start_commit: Seq<char>,
    /// Stash entries before the auto-stash.
    pub stash_before: u32,
    /// Whether the auto-stash took.
    pub did_stash: bool,
    /// Whether `stash apply` has been asked for.
    pub restore_issued: bool,
    /// (branch, upstream) pairs to bring up to date, in order.
    pub todo: Seq<(Seq<char>, Seq<char>)>,
    /// How many of `todo` are done.
    pub cursor: nat,
}

pub open spec fn detached() -> Seq<char> {
    "DETACHED"@
}

pub open spec fn no_remote_message() -> Seq<char> {
    "no origin remote"@
}

pub open spec fn dirty_skip_message() -> Seq<char> {
    "uncommitted changes"@
}

pub open spec fn checkout_error(b: Seq<char>) -> Seq<char> {
    "could not check out "@ + b
}

/// The pairs of `entries` whose branch is in `wanted`; all of them when
/// `wanted` is empty.
pub open spec fn selected(
    entries: Seq<(Seq<char>, Seq<char>)>,
    wanted: Seq<Seq<char>>,
) -> Seq<(Seq<char>, Seq<char>)>
    decreases entries.len(),
{
    if wanted.len() == 0 || entries.len() == 0 {
        entries
    } else {
        let rest = selected(entries.drop_last(), wanted);
        if wanted.contains(entries.last().0) {
            rest.push(entries.last())
        } else {
            rest
        }
    }
}

pub open spec fn with_phase(s: PullView, p: Phase) -> PullView {
    PullView { phase: p, ..s }
}

pub open spec fn finish(s: PullView) -> (PullView, PullActionView) {
    (with_phase(s, Phase::Done), PullActionView::Finished)
}

pub open spec fn ask(s: PullView, p: Phase, op: GitOpView) -> (PullView, PullActionView) {
    (with_phase(s, p), PullActionView::Run(op))
}

pub open spec fn with_skip(s: PullView, m: Seq<char>) -> PullView {
    PullView { result: PullResultView { skipped: Some(m), ..s.result }, ..s }
}

pub open spec fn with_error(s: PullView, m: Seq<char>) -> PullView {
    PullView { result: PullResultView { error: Some(m), ..s.result }, ..s }
}

/// With the tree clean or stashed: check out the target branch first, if one
/// is set and not already checked out; else list the branches.
pub open spec fn to_target(s: PullView) -> (PullView, PullActionView) {
    match s.settings.target_branch {
        Some(t) => if t != s.checked_out {
            ask(s, Phase::AwaitTargetRef, GitOpView::VerifyRef("refs/heads/"@ + t))
        } else {
            ask(s, Phase::AwaitBranchList, GitOpView::ListBranches)
        },
        None => ask(s, Phase::AwaitBranchList, GitOpView::ListBranches),
    }
}

/// Restore stashed changes if a stash was made; else finish.
pub open spec fn restore(s: PullView) -> (PullView, PullActionView) {
    if s.did_stash {
        ask(PullView { restore_issued: true, ..s }, Phase::AwaitApply, GitOpView::StashApply)
    } else {
        finish(s)
    }
}

/// The branch to be on at the end: the fallback branch, else the one that
/// was checked out at the start.
pub open spec fn landing_branch(s: PullView) -> Seq<char> {
    match s.settings.fallback_branch {
        Some(f) => f,
        None => s.result.original_branch,
    }
}

/// Whether the repo is to be checked out again at the end: onto a landing
/// branch that is not the one checked out, or, for a repo that started with
/// no branch and was moved onto one, back onto the commit it started on.
pub open spec fn landing_needed(s: PullView) -> bool {
    if landing_branch(s) == detached() {
        s.checked_out != detached() && s.start_commit.len() > 0
    } else {
        landing_branch(s) != s.checked_out
    }
}

/// What the landing checks out: the landing branch, or the start commit when
/// the repo started with no branch and has no fallback branch.
pub open spec fn landing_ref(s: PullView) -> Seq<char> {
    if landing_branch(s) == detached() {
        s.start_commit
    } else {
        landing_branch(s)
    }
}

/// The operation that lands the repo.
pub open spec fn landing_op(s: PullView) -> GitOpView {
    if landing_branch(s) == detached() {
        GitOpView::CheckoutDetached(s.start_commit)
    } else {
        GitOpView::Checkout(landing_branch(s))
    }
}

/// After the branches: land the repo if it is needed, then restore.
pub open spec fn land(s: PullView) -> (PullView, PullActionView) {
    if landing_needed(s) {
        ask(s, Phase::AwaitLanding, landing_op(s))
    } else {
        restore(s)
    }
}

/// Records `status` for branch `b` and moves past it.
pub open spec fn record(s: PullView, b: Seq<char>, status: BranchStatus) -> PullView {
    PullView {
        result: PullResultView {
            branches: s.result.branches.push(BranchResultView { branch: b, status }),
            ..s.result
        },
        cursor: s.cursor + 1,
        ..s
    }
}

/// Works through the remaining branches: one with no upstream is recorded at
/// once; for the next one, its upstream is verified.
pub open spec fn scan_branches(s: PullView) -> (PullView, PullActionView)
    decreases s.todo.len() - s.cursor,
{
    if s.cursor >= s.todo.len() {
        land(s)
    } else {
        let e = s.todo[s.cursor as int];
        if e.1.len() == 0 {
            scan_branches(record(s, e.0, BranchStatus::NoUpstream))
        } else {
            ask(s, Phase::AwaitVerify, GitOpView::VerifyRef(e.1))
        }
    }
}

/// One step: the state after `r`, the reply to the last operation, and what
/// to do next.
pub open spec fn next(s: PullView, r: GitReplyView) -> (PullView, PullActionView) {
    match s.phase {
        Phase::AwaitBranch => {
            let o = branch_of(r);
            let s1 = PullView {
                result: PullResultView { original_branch: o, ..s.result },
                checked_out: o,
                ..s
            };
            if !s.result.repo.has_remote {
                finish(with_skip(s1, no_remote_message()))
            } else if o == detached() {
                ask(s1, Phase::AwaitHeadCommit, GitOpView::HeadCommit)
            } else {
                ask(s1, Phase::AwaitFetch, GitOpView::Fetch)
            }
        },
        Phase::AwaitHeadCommit => ask(
            PullView { start_commit: commit_of(r), ..s },
            Phase::AwaitFetch,
            GitOpView::Fetch,
        ),
        Phase::AwaitFetch => if !r.ok {
            finish(with_error(s, fetch_error_of(r)))
        } else {
            ask(s, Phase::AwaitStatus, GitOpView::Status)
        },
        Phase::AwaitStatus => if is_dirty(r) {
            if s.policy == DirtyPolicy::Skip {
                finish(with_skip(s, dirty_skip_message()))
            } else {
                ask(s, Phase::AwaitStashCountBefore, GitOpView::StashList)
            }
        } else {
            to_target(s)
        },
        Phase::AwaitStashCountBefore => ask(
            PullView { stash_before: stash_count_of(r), ..s },
            Phase::AwaitStashPush,
            GitOpView::StashPush,
        ),
        Phase::AwaitStashPush => if r.ok {
            ask(s, Phase::AwaitStashCountAfter, GitOpView::StashList)
        } else {
            to_target(s)
        },
        Phase::AwaitStashCountAfter => {
            let d = stash_count_of(r) > s.stash_before;
            to_target(
                PullView {
                    did_stash: d,
                    result: PullResultView { had_local_changes: d, ..s.result },
                    ..s
                },
            )
        },
        Phase::AwaitTargetRef => {
            let t = s.settings.target_branch->0;
            if r.ok {
                ask(s, Phase::AwaitTargetCheckout, GitOpView::Checkout(t))
            } else {
                ask(s, Phase::AwaitTargetCheckout, GitOpView::CheckoutTracking(t))
            }
        },
        Phase::AwaitTargetCheckout => {
            let t = s.settings.target_branch->0;
            if r.ok {
                ask(PullView { checked_out: t, ..s }, Phase::AwaitBranchList, GitOpView::ListBranches)
            } else {
                restore(with_error(s, checkout_error(t)))
            }
        },
        Phase::AwaitBranchList => scan_branches(
            PullView {
                todo: selected(branch_list_of(r), s.settings.branches),
                cursor: 0,
                ..s
            },
        ),
        Phase::AwaitVerify => {
            let e = s.todo[s.cursor as int];
            if !r.ok {
                scan_branches(record(s, e.0, BranchStatus::NoUpstream))
            } else {
                ask(s, Phase::AwaitAheadBehind, GitOpView::AheadBehind(e.0, e.1))
            }
        },
        Phase::AwaitAheadBehind => {
            let e = s.todo[s.cursor as int];
            match ahead_behind_of(r) {
                None => scan_branches(record(s, e.0, BranchStatus::NoUpstream)),
                Some((a, h)) => if h == 0 {
                    scan_branches(record(s, e.0, BranchStatus::UpToDate))
                } else if a > 0 {
                    scan_branches(record(s, e.0, BranchStatus::Diverged { ahead: a, behind: h }))
                } else if e.0 == s.checked_out {
                    ask(s, Phase::AwaitAdvance { ahead: a, behind: h }, GitOpView::MergeFfOnly(e.1))
                } else {
                    ask(
                        s,
                        Phase::AwaitAdvance { ahead: a, behind: h },
                        GitOpView::ForceBranch(e.0, e.1),
                    )
                },
            }
        },
        Phase::AwaitAdvance { ahead, behind } => {
            let e = s.todo[s.cursor as int];
            if r.ok {
                scan_branches(record(s, e.0, BranchStatus::FastForwarded { commits: behind }))
            } else {
                scan_branches(record(s, e.0, BranchStatus::Diverged { ahead, behind }))
            }
        },
        Phase::AwaitLanding => {
            let f = landing_branch(s);
            if r.ok {
                restore(PullView { checked_out: f, ..s })
            } else if s.result.error is None {
                restore(with_error(s, checkout_error(landing_ref(s))))
            } else {
                restore(s)
            }
        },
        Phase::AwaitApply => if r.ok {
            ask(s, Phase::AwaitDrop, GitOpView::StashDrop)
        } else {
            finish(PullView { result: PullResultView { stash_conflict: true, ..s.result }, ..s })
        },
        Phase::AwaitDrop => finish(s),
        Phase::Done => finish(s),
    }
}

/// The invariant the engine keeps.
pub open spec fn wf(s: PullView) -> bool {
    &&& s.cursor <= s.todo.len()
    &&& s.result.branches.len() == s.cursor
    &&& forall|i: int| 0 <= i < s.cursor ==> (#[trigger] s.result.branches[i]).branch == s.todo[i].0
    &&& s.restore_issued ==> s.did_stash
    &&& s.result.had_local_changes == s.did_stash
    &&& (s.phase is AwaitBranch || s.phase is AwaitHeadCommit || s.phase is AwaitFetch
        || s.phase is AwaitStatus || s.phase is AwaitStashCountBefore || s.phase is AwaitStashPush
        || s.phase is AwaitStashCountAfter) ==> !s.did_stash
    &&& (s.phase is AwaitTargetRef || s.phase is AwaitTargetCheckout) ==> s.settings.target_branch is Some
    &&& (s.phase is AwaitBranch || s.phase is AwaitHeadCommit || s.phase is AwaitFetch
        || s.phase is AwaitStatus || s.phase is AwaitStashCountBefore || s.phase is AwaitStashPush
        || s.phase is AwaitStashCountAfter || s.phase is AwaitTargetRef
        || s.phase is AwaitTargetCheckout || s.phase is AwaitBranchList) ==> s.cursor == 0
    &&& (s.phase is AwaitVerify || s.phase is AwaitAheadBehind || s.phase is AwaitAdvance) ==> (
    s.cursor < s.todo.len() && s.todo[s.cursor as int].1.len() > 0)
    &&& (s.phase is AwaitApply || s.phase is AwaitDrop) ==> s.restore_issued
    &&& s.phase is AwaitAdvance ==> s.phase->behind > 0
    &&& s.phase is Done ==> (s.did_stash ==> s.restore_issued)
}

/// The part of the invariant that does not depend on the phase.
pub open spec fn core_wf(s: PullView) -> bool {
    &&& s.cursor <= s.todo.len()
    &&& s.result.branches.len() == s.cursor
    &&& forall|i: int| 0 <= i < s.cursor ==> (#[trigger] s.result.branches[i]).branch == s.todo[i].0
    &&& s.restore_issued ==> s.did_stash
    &&& s.result.had_local_changes == s.did_stash
}

/// Whether `op` moves a branch.
pub open spec fn is_advance(a: PullActionView) -> bool {
    ||| a matches PullActionView::Run(GitOpView::MergeFfOnly(_))
    ||| a matches PullActionView::Run(GitOpView::ForceBranch(_, _))
}

/// `b` extends `a` with `NoUpstream` entries only.
pub open spec fn extends_with_no_upstream(a: Seq<BranchResultView>, b: Seq<BranchResultView>) -> bool {
    &&& a.len() <= b.len()
    &&& b.take(a.len() as int) == a
    &&& forall|i: int| a.len() <= i < b.len() ==> (#[trigger] b[i]).status == BranchStatus::NoUpstream
}

proof fn lemma_restore(s: PullView)
    requires
        core_wf(s),
    ensures
        wf(restore(s).0),
        !is_advance(restore(s).1),
        restore(s).1 is Finished ==> restore(s).0.phase is Done,
        restore(s).1 matches PullActionView::Run(op) ==> op == GitOpView::StashApply && s.did_stash,
        restore(s).0.result == s.result,
        restore(s).0.did_stash == s.did_stash,
{
}

proof fn lemma_land(s: PullView)
    requires
        core_wf(s),
    ensures
        wf(land(s).0),
        !is_advance(land(s).1),
        land(s).1 is Finished ==> land(s).0.phase is Done,
        land(s).1 != PullActionView::Run(GitOpView::StashDrop),
        land(s).1 == PullActionView::Run(GitOpView::StashApply) ==> s.did_stash,
        land(s).0.result == s.result,
        land(s).0.did_stash == s.did_stash,
{
    lemma_restore(s);
}

proof fn lemma_scan(s: PullView)
    requires
        core_wf(s),
    ensures
        wf(scan_branches(s).0),
        !is_advance(scan_branches(s).1),
        scan_branches(s).1 is Finished ==> scan_branches(s).0.phase is Done,
        scan_branches(s).1 != PullActionView::Run(GitOpView::StashDrop),
        extends_with_no_upstream(s.result.branches, scan_branches(s).0.result.branches),
        scan_branches(s).0.result.stash_conflict == s.result.stash_conflict,
        scan_branches(s).0.did_stash == s.did_stash,
        scan_branches(s).0.todo == s.todo,
        scan_branches(s).0.settings == s.settings,
        scan_branches(s).0.result.repo == s.result.repo,
        scan_branches(s).1 matches PullActionView::Run(op) ==> (op == GitOpView::StashApply
            ==> s.did_stash),
        !(scan_branches(s).1 matches PullActionView::Run(GitOpView::VerifyRef(_))) ==> (landing_needed(s)
            ==> scan_branches(s).1 == PullActionView::Run(landing_op(s))),
        scan_branches(s).0.checked_out == s.checked_out,
        scan_branches(s).0.result.original_branch == s.result.original_branch,
        (stays_put(s) && s.checked_out == s.result.original_branch) ==> !is_checkout(
            scan_branches(s).1,
        ),
    decreases s.todo.len() - s.cursor,
{
    if s.cursor >= s.todo.len() {
        lemma_land(s);
        assert(s.result.branches.take(s.result.branches.len() as int) =~= s.result.branches);
        lemma_restore(s);
    } else {
        let e = s.todo[s.cursor as int];
        if e.1.len() == 0 {
            let s2 = record(s, e.0, BranchStatus::NoUpstream);
            assert forall|i: int| 0 <= i < s2.cursor implies (#[trigger] s2.result.branches[i]).branch
                == s2.todo[i].0 by {
                if i < s.cursor {
                    assert(s2.result.branches[i] == s.result.branches[i]);
                }
            }
            lemma_scan(s2);
            let b = scan_branches(s2).0.result.branches;
            assert(b.take(s2.result.branches.len() as int) == s2.result.branches);
            assert(b.take(s.result.branches.len() as int) =~= s.result.branches) by {
                assert forall|i: int| 0 <= i < s.result.branches.len() implies b[i] == s.result.branches[i] by {
                    assert(b.take(s2.result.branches.len() as int)[i] == b[i]);
                    assert(s2.result.branches[i] == s.result.branches[i]);
                }
            }
            assert forall|i: int| s.result.branches.len() <= i < b.len() implies (#[trigger] b[i]).status
                == BranchStatus::NoUpstream by {
                if i == s.result.branches.len() {
                    assert(b.take(s2.result.branches.len() as int)[i] == b[i]);
                }
            }
        } else {
            assert(s.result.branches.take(s.result.branches.len() as int) =~= s.result.branches);
        }
    }
}

proof fn lemma_to_target(s: PullView)
    requires
        core_wf(s),
        s.cursor == 0,
    ensures
        wf(to_target(s).0),
        !is_advance(to_target(s).1),
        to_target(s).1 is Run,
        to_target(s).1 != PullActionView::Run(GitOpView::StashDrop),
        to_target(s).1 != PullActionView::Run(GitOpView::StashApply),
        to_target(s).0.result == s.result,
        to_target(s).0.did_stash == s.did_stash,
{
}

/// Every step keeps the engine's invariant, and the repo a result is about.
pub proof fn lemma_step_keeps_wf(s: PullView, r: GitReplyView)
    requires
        wf(s),
    ensures
        wf(next(s, r).0),
        next(s, r).1 is Finished ==> next(s, r).0.phase is Done,
        next(s, r).0.result.repo == s.result.repo,
{
    match s.phase {
        Phase::AwaitStatus => {
            lemma_to_target(s);
        },
        Phase::AwaitStashPush => {
            lemma_to_target(s);
        },
        Phase::AwaitStashCountAfter => {
            let d = stash_count_of(r) > s.stash_before;
            lemma_to_target(
                PullView {
                    did_stash: d,
                    result: PullResultView { had_local_changes: d, ..s.result },
                    ..s
                },
            );
        },
        Phase::AwaitTargetCheckout => {
            let t = s.settings.target_branch->0;
            lemma_restore(with_error(s, checkout_error(t)));
        },
        Phase::AwaitBranchList | Phase::AwaitVerify | Phase::AwaitAheadBehind
        | Phase::AwaitAdvance { .. } => {
            lemma_loop_step(s, r);
        },
        Phase::AwaitLanding => {
            let f = landing_branch(s);
            lemma_restore(PullView { checked_out: f, ..s });
            lemma_restore(with_error(s, checkout_error(landing_ref(s))));
            lemma_restore(s);
        },
        _ => {},
    }
}

proof fn lemma_scan_record(s: PullView, b: Seq<char>, st: BranchStatus)
    requires
        core_wf(s),
        s.cursor < s.todo.len(),
        b == s.todo[s.cursor as int].0,
    ensures
        core_wf(record(s, b, st)),
        wf(scan_branches(record(s, b, st)).0),
        !is_advance(scan_branches(record(s, b, st)).1),
        scan_branches(record(s, b, st)).1 is Finished ==> scan_branches(record(s, b, st)).0.phase is Done,
        scan_branches(record(s, b, st)).1 != PullActionView::Run(GitOpView::StashDrop),
        extends_with_no_upstream(
            s.result.branches.push(BranchResultView { branch: b, status: st }),
            scan_branches(record(s, b, st)).0.result.branches,
        ),
        scan_branches(record(s, b, st)).0.result.stash_conflict == s.result.stash_conflict,
        scan_branches(record(s, b, st)).0.result.repo == s.result.repo,
{
    let s2 = record(s, b, st);
    assert forall|i: int| 0 <= i < s2.cursor implies (#[trigger] s2.result.branches[i]).branch
        == s2.todo[i].0 by {
        if i < s.cursor {
            assert(s2.result.branches[i] == s.result.branches[i]);
        }
    }
    lemma_scan(s2);
}

/// What one step of the branch loop keeps, whatever the reply: the
/// invariant, the repo, the settings, the checked-out and starting branches
/// and the branches to work through (set by the step that lists them); a step
/// that leaves the loop lands the repo where needed, and with settings that
/// stay put on the starting branch it checks nothing out.
proof fn lemma_loop_step(s: PullView, r: GitReplyView)
    requires
        wf(s),
        s.phase is AwaitBranchList || s.phase is AwaitVerify || s.phase is AwaitAheadBehind
            || s.phase is AwaitAdvance,
    ensures
        wf(next(s, r).0),
        next(s, r).1 is Finished ==> next(s, r).0.phase is Done,
        next(s, r).0.result.repo == s.result.repo,
        next(s, r).0.settings == s.settings,
        next(s, r).0.checked_out == s.checked_out,
        next(s, r).0.result.original_branch == s.result.original_branch,
        s.phase is AwaitBranchList ==> next(s, r).0.todo == selected(branch_list_of(r), s.settings.branches),
        !(s.phase is AwaitBranchList) ==> next(s, r).0.todo == s.todo,
        !is_branch_loop_op(next(s, r).1) ==> (landing_needed(s) ==> next(s, r).1 == PullActionView::Run(
            landing_op(s),
        )),
        (stays_put(s) && s.checked_out == s.result.original_branch) ==> !is_checkout(next(s, r).1),
        !(s.phase is AwaitAheadBehind) ==> !is_advance(next(s, r).1),
        next(s, r).1 != PullActionView::Run(GitOpView::StashDrop),
        next(s, r).1 == PullActionView::Run(GitOpView::StashApply) ==> s.did_stash,
        next(s, r).0.result.stash_conflict == s.result.stash_conflict,
        next(s, r).0.did_stash == s.did_stash,
{
    match s.phase {
        Phase::AwaitBranchList => {
            lemma_scan(
                PullView {
                    todo: selected(branch_list_of(r), s.settings.branches),
                    cursor: 0,
                    ..s
                },
            );
        },
        Phase::AwaitVerify => {
            lemma_record_scan(s, BranchStatus::NoUpstream);
        },
        Phase::AwaitAheadBehind => {
            lemma_record_scan(s, BranchStatus::NoUpstream);
            lemma_record_scan(s, BranchStatus::UpToDate);
            match ahead_behind_of(r) {
                Some((a, h)) => {
                    lemma_record_scan(s, BranchStatus::Diverged { ahead: a, behind: h });
                },
                None => {},
            }
        },
        Phase::AwaitAdvance { ahead, behind } => {
            lemma_record_scan(s, BranchStatus::FastForwarded { commits: behind });
            lemma_record_scan(s, BranchStatus::Diverged { ahead, behind });
        },
        _ => {},
    }
}

/// `lemma_scan` for the state that records `st` for the current branch.
proof fn lemma_record_scan(s: PullView, st: BranchStatus)
    requires
        core_wf(s),
        s.cursor < s.todo.len(),
    ensures
        ({
            let s2 = record(s, s.todo[s.cursor as int].0, st);
            &&& wf(scan_branches(s2).0)
            &&& scan_branches(s2).1 is Finished ==> scan_branches(s2).0.phase is Done
            &&& scan_branches(s2).0.result.repo == s.result.repo
            &&& scan_branches(s2).0.settings == s.settings
            &&& scan_branches(s2).0.todo == s.todo
            &&& scan_branches(s2).0.checked_out == s.checked_out
            &&& scan_branches(s2).0.result.original_branch == s.result.original_branch
            &&& !(scan_branches(s2).1 matches PullActionView::Run(GitOpView::VerifyRef(_))) ==> (
            landing_needed(s) ==> scan_branches(s2).1 == PullActionView::Run(landing_op(s)))
            &&& (stays_put(s) && s.checked_out == s.result.original_branch) ==> !is_checkout(
                scan_branches(s2).1,
            )
            &&& !is_advance(scan_branches(s2).1)
            &&& scan_branches(s2).1 != PullActionView::Run(GitOpView::StashDrop)
            &&& scan_branches(s2).1 == PullActionView::Run(GitOpView::StashApply) ==> s.did_stash
            &&& scan_branches(s2).0.result.stash_conflict == s.result.stash_conflict
            &&& scan_branches(s2).0.did_stash == s.did_stash
        }),
{
    let b = s.todo[s.cursor as int].0;
    lemma_scan_record(s, b, st);
    lemma_scan(record(s, b, st));
}

/// With a branch list set, every branch the engine works through is on it.
pub open spec fn listed_only(s: PullView) -> bool {
    s.settings.branches.len() > 0 ==> forall|i: int|
        0 <= i < s.todo.len() ==> s.settings.branches.contains(#[trigger] s.todo[i].0)
}

proof fn lemma_selected_listed(entries: Seq<(Seq<char>, Seq<char>)>, wanted: Seq<Seq<char>>)
    requires
        wanted.len() > 0,
    ensures
        forall|i: int|
            0 <= i < selected(entries, wanted).len() ==> wanted.contains(
                #[trigger] selected(entries, wanted)[i].0,
            ),
    decreases entries.len(),
{
    if entries.len() > 0 {
        lemma_selected_listed(entries.drop_last(), wanted);
        let rest = selected(entries.drop_last(), wanted);
        assert forall|i: int| 0 <= i < selected(entries, wanted).len() implies wanted.contains(
            #[trigger] selected(entries, wanted)[i].0,
        ) by {
            if i < rest.len() {
                assert(selected(entries, wanted)[i] == rest[i]);
            }
        }
    }
}

/// With a branch list set for a repo, only branches on that list are ever
/// moved. It holds at the start, where there are no branches yet, and every
/// step keeps it.
pub proof fn lemma_only_listed_branches_move(s: PullView, r: GitReplyView)
    requires
        wf(s),
        listed_only(s),
    ensures
        listed_only(next(s, r).0),
        s.settings.branches.len() > 0 ==> (next(s, r).1 matches PullActionView::Run(
            GitOpView::MergeFfOnly(_),
        ) ==> s.settings.branches.contains(s.checked_out)),
        s.settings.branches.len() > 0 ==> (next(s, r).1 matches PullActionView::Run(
            GitOpView::ForceBranch(b, _),
        ) ==> s.settings.branches.contains(b)),
{
    lemma_only_fast_forwards(s, r);
    if s.phase is AwaitBranchList || s.phase is AwaitVerify || s.phase is AwaitAheadBehind
        || s.phase is AwaitAdvance {
        lemma_loop_step(s, r);
        if s.phase is AwaitBranchList && s.settings.branches.len() > 0 {
            lemma_selected_listed(branch_list_of(r), s.settings.branches);
        }
    }
}

/// Whether `a` is one of the operations of the branch loop: verifying an
/// upstream, counting ahead and behind, or moving a branch.
pub open spec fn is_branch_loop_op(a: PullActionView) -> bool {
    ||| a matches PullActionView::Run(GitOpView::VerifyRef(_))
    ||| a matches PullActionView::Run(GitOpView::AheadBehind(_, _))
    ||| is_advance(a)
}

/// Once the branches are worked through, the repo is put back where it is to
/// land: on its landing branch (the fallback branch, else the one checked out
/// at the start), or, when it started with no branch and has no fallback, on
/// the commit it started on. The step that leaves the branch loop asks for
/// that checkout whenever the repo is not there already.
pub proof fn lemma_lands_after_branches(s: PullView, r: GitReplyView)
    requires
        wf(s),
        s.phase is AwaitBranchList || s.phase is AwaitVerify || s.phase is AwaitAheadBehind
            || s.phase is AwaitAdvance,
        !is_branch_loop_op(next(s, r).1),
        landing_needed(s),
    ensures
        next(s, r).1 == PullActionView::Run(landing_op(s)),
{
    lemma_loop_step(s, r);
}

/// A pull never stops with stashed changes left in the stash unasked-for:
/// when the engine finishes, every auto-stash it made has been applied back.
pub proof fn lemma_stash_never_left_behind(s: PullView, r: GitReplyView)
    requires
        wf(s),
        next(s, r).1 is Finished,
    ensures
        next(s, r).0.result.had_local_changes ==> next(s, r).0.restore_issued,
{
    lemma_step_keeps_wf(s, r);
}

/// Branches only ever move forward: an operation that moves a branch is asked
/// for only right after `rev-list` showed that branch strictly behind its
/// upstream and not ahead of it. The checked-out branch moves by
/// `merge --ff-only`, any other by `branch -f` to its upstream.
pub proof fn lemma_only_fast_forwards(s: PullView, r: GitReplyView)
    requires
        wf(s),
    ensures
        next(s, r).1 matches PullActionView::Run(GitOpView::MergeFfOnly(u)) ==> {
            &&& s.phase == Phase::AwaitAheadBehind
            &&& ahead_behind_of(r) matches Some((a, h)) && a == 0 && h > 0
            &&& u == s.todo[s.cursor as int].1
            &&& s.todo[s.cursor as int].0 == s.checked_out
        },
        next(s, r).1 matches PullActionView::Run(GitOpView::ForceBranch(b, u)) ==> {
            &&& s.phase == Phase::AwaitAheadBehind
            &&& ahead_behind_of(r) matches Some((a, h)) && a == 0 && h > 0
            &&& (b, u) == s.todo[s.cursor as int]
            &&& b != s.checked_out
        },
{
    lemma_no_other_advance(s, r);
    if s.phase == Phase::AwaitAheadBehind {
        let e = s.todo[s.cursor as int];
        lemma_scan_record(s, e.0, BranchStatus::NoUpstream);
        lemma_scan_record(s, e.0, BranchStatus::UpToDate);
        match ahead_behind_of(r) {
            Some((a, h)) => {
                lemma_scan_record(s, e.0, BranchStatus::Diverged { ahead: a, behind: h });
            },
            None => {},
        }
    }
}

proof fn lemma_no_other_advance(s: PullView, r: GitReplyView)
    requires
        wf(s),
    ensures
        s.phase != Phase::AwaitAheadBehind ==> !is_advance(next(s, r).1),
        next(s, r).1 == PullActionView::Run(GitOpView::StashDrop) ==> s.phase == Phase::AwaitApply,
        next(s, r).1 == PullActionView::Run(GitOpView::StashApply) ==> s.did_stash,
{
    match s.phase {
        Phase::AwaitStatus => {
            lemma_to_target(s);
        },
        Phase::AwaitStashPush => {
            lemma_to_target(s);
        },
        Phase::AwaitStashCountAfter => {
            let d = stash_count_of(r) > s.stash_before;
            lemma_to_target(
                PullView {
                    did_stash: d,
                    result: PullResultView { had_local_changes: d, ..s.result },
                    ..s
                },
            );
        },
        Phase::AwaitTargetCheckout => {
            let t = s.settings.target_branch->0;
            lemma_restore(with_error(s, checkout_error(t)));
        },
        Phase::AwaitBranchList | Phase::AwaitVerify | Phase::AwaitAheadBehind
        | Phase::AwaitAdvance { .. } => {
            lemma_loop_step(s, r);
        },
        Phase::AwaitLanding => {
            let f = landing_branch(s);
            lemma_restore(PullView { checked_out: f, ..s });
            lemma_restore(with_error(s, checkout_error(landing_ref(s))));
            lemma_restore(s);
        },
        _ => {},
    }
}

/// The stash is dropped only after it was applied cleanly, and applied only
/// when the engine itself made it.
pub proof fn lemma_stash_drop_only_after_clean_apply(s: PullView, r: GitReplyView)
    requires
        wf(s),
    ensures
        next(s, r).1 == PullActionView::Run(GitOpView::StashDrop) ==> s.phase == Phase::AwaitApply
            && r.ok && s.did_stash,
        next(s, r).1 == PullActionView::Run(GitOpView::StashApply) ==> s.did_stash,
{
    lemma_no_other_advance(s, r);
}

/// A restore that fails flags the repo, keeps the stash and ends the pull;
/// nothing else raises the flag.
pub proof fn lemma_stash_conflict_flag(s: PullView, r: GitReplyView)
    requires
        wf(s),
    ensures
        (s.phase == Phase::AwaitApply && !r.ok) ==> next(s, r).0.result.stash_conflict && next(
            s,
            r,
        ).1 is Finished,
        (!s.result.stash_conflict && next(s, r).0.result.stash_conflict) ==> (s.phase
            == Phase::AwaitApply && !r.ok),
{
    lemma_conflict_untouched(s, r);
}

proof fn lemma_conflict_untouched(s: PullView, r: GitReplyView)
    requires
        wf(s),
    ensures
        s.phase != Phase::AwaitApply ==> next(s, r).0.result.stash_conflict == s.result.stash_conflict,
{
    match s.phase {
        Phase::AwaitBranchList | Phase::AwaitVerify | Phase::AwaitAheadBehind
        | Phase::AwaitAdvance { .. } => {
            lemma_loop_step(s, r);
        },
        _ => {},
    }
}

/// A branch is recorded as fast-forwarded only in the step that receives the
/// successful reply to its advance, with the number of commits it was behind.
pub proof fn lemma_fast_forward_recorded_only_after_advance(s: PullView, r: GitReplyView)
    requires
        wf(s),
    ensures
        forall|i: int|
            s.cursor <= i < next(s, r).0.result.branches.len()
                && (#[trigger] next(s, r).0.result.branches[i]).status is FastForwarded ==> {
                &&& i == s.cursor
                &&& s.phase is AwaitAdvance
                &&& r.ok
                &&& next(s, r).0.result.branches[i].status == BranchStatus::FastForwarded {
                    commits: s.phase->behind,
                }
            },
{
    let n = next(s, r).0.result.branches;
    match s.phase {
        Phase::AwaitStatus => {
            lemma_to_target(s);
        },
        Phase::AwaitStashPush => {
            lemma_to_target(s);
        },
        Phase::AwaitStashCountAfter => {
            let d = stash_count_of(r) > s.stash_before;
            lemma_to_target(
                PullView {
                    did_stash: d,
                    result: PullResultView { had_local_changes: d, ..s.result },
                    ..s
                },
            );
        },
        Phase::AwaitTargetCheckout => {
            let t = s.settings.target_branch->0;
            lemma_restore(with_error(s, checkout_error(t)));
        },
        Phase::AwaitBranchList => {
            lemma_scan(
                PullView {
                    todo: selected(branch_list_of(r), s.settings.branches),
                    cursor: 0,
                    ..s
                },
            );
        },
        Phase::AwaitVerify => {
            let e = s.todo[s.cursor as int];
            lemma_scan_record(s, e.0, BranchStatus::NoUpstream);
            if !r.ok {
                assert forall|i: int| s.cursor <= i < n.len() implies !((#[trigger] n[i]).status is FastForwarded) by {
                    if i == s.cursor {
                        let p = s.result.branches.push(BranchResultView { branch: e.0, status: BranchStatus::NoUpstream });
                        assert(n.take(p.len() as int)[i] == n[i]);
                    }
                }
            }
        },
        Phase::AwaitAheadBehind => {
            let e = s.todo[s.cursor as int];
            match ahead_behind_of(r) {
                None => {
                    lemma_scan_record(s, e.0, BranchStatus::NoUpstream);
                    let p = s.result.branches.push(BranchResultView { branch: e.0, status: BranchStatus::NoUpstream });
                    assert forall|i: int| s.cursor <= i < n.len() implies !((#[trigger] n[i]).status is FastForwarded) by {
                        if i == s.cursor {
                            assert(n.take(p.len() as int)[i] == n[i]);
                        }
                    }
                },
                Some((a, h)) => {
                    if h == 0 {
                        lemma_scan_record(s, e.0, BranchStatus::UpToDate);
                        let p = s.result.branches.push(BranchResultView { branch: e.0, status: BranchStatus::UpToDate });
                        assert forall|i: int| s.cursor <= i < n.len() implies !((#[trigger] n[i]).status is FastForwarded) by {
                            if i == s.cursor {
                                assert(n.take(p.len() as int)[i] == n[i]);
                            }
                        }
                    } else if a > 0 {
                        let st = BranchStatus::Diverged { ahead: a, behind: h };
                        lemma_scan_record(s, e.0, st);
                        let p = s.result.branches.push(BranchResultView { branch: e.0, status: st });
                        assert forall|i: int| s.cursor <= i < n.len() implies !((#[trigger] n[i]).status is FastForwarded) by {
                            if i == s.cursor {
                                assert(n.take(p.len() as int)[i] == n[i]);
                            }
                        }
                    }
                },
            }
        },
        Phase::AwaitAdvance { ahead, behind } => {
            let e = s.todo[s.cursor as int];
            let st = if r.ok {
                BranchStatus::FastForwarded { commits: behind }
            } else {
                BranchStatus::Diverged { ahead, behind }
            };
            lemma_scan_record(s, e.0, st);
            let p = s.result.branches.push(BranchResultView { branch: e.0, status: st });
            assert forall|i: int| s.cursor <= i < n.len() && (#[trigger] n[i]).status is FastForwarded implies i
                == s.cursor && r.ok && n[i].status == BranchStatus::FastForwarded { commits: behind } by {
                if i == s.cursor {
                    assert(n.take(p.len() as int)[i] == n[i]);
                }
            }
        },
        Phase::AwaitLanding => {
            let f = landing_branch(s);
            lemma_restore(PullView { checked_out: f, ..s });
            lemma_restore(with_error(s, checkout_error(landing_ref(s))));
            lemma_restore(s);
        },
        _ => {},
    }
}

/// A branch is recorded as diverged only when it is behind its upstream: a
/// branch that `rev-list` shows nothing behind is up to date however far it is
/// ahead (local commits not yet pushed need no attention), and every
/// `Diverged` entry a step records counts at least one commit behind.
pub proof fn lemma_diverged_only_when_behind(s: PullView, r: GitReplyView)
    requires
        wf(s),
    ensures
        s.phase == Phase::AwaitAheadBehind ==> (ahead_behind_of(r) matches Some((a, h)) ==> (h == 0 ==> {
            &&& next(s, r).0.result.branches.len() > s.cursor
            &&& next(s, r).0.result.branches[s.cursor as int] == (BranchResultView {
                branch: s.todo[s.cursor as int].0,
                status: BranchStatus::UpToDate,
            })
        })),
        forall|i: int|
            s.cursor <= i < next(s, r).0.result.branches.len() && (#[trigger] next(
                s,
                r,
            ).0.result.branches[i]).status is Diverged ==> next(s, r).0.result.branches[i].status->behind > 0,
{
    let n = next(s, r).0.result.branches;
    match s.phase {
        Phase::AwaitStatus => {
            lemma_to_target(s);
        },
        Phase::AwaitStashPush => {
            lemma_to_target(s);
        },
        Phase::AwaitStashCountAfter => {
            let d = stash_count_of(r) > s.stash_before;
            lemma_to_target(
                PullView {
                    did_stash: d,
                    result: PullResultView { had_local_changes: d, ..s.result },
                    ..s
                },
            );
        },
        Phase::AwaitTargetCheckout => {
            let t = s.settings.target_branch->0;
            lemma_restore(with_error(s, checkout_error(t)));
        },
        Phase::AwaitBranchList => {
            lemma_scan(
                PullView {
                    todo: selected(branch_list_of(r), s.settings.branches),
                    cursor: 0,
                    ..s
                },
            );
        },
        Phase::AwaitLanding => {
            let f = landing_branch(s);
            lemma_restore(PullView { checked_out: f, ..s });
            lemma_restore(with_error(s, checkout_error(landing_ref(s))));
            lemma_restore(s);
        },
        Phase::AwaitVerify | Phase::AwaitAheadBehind | Phase::AwaitAdvance { .. } => {
            let e = s.todo[s.cursor as int];
            let st = match s.phase {
                Phase::AwaitVerify => BranchStatus::NoUpstream,
                Phase::AwaitAheadBehind => match ahead_behind_of(r) {
                    None => BranchStatus::NoUpstream,
                    Some((a, h)) => if h == 0 {
                        BranchStatus::UpToDate
                    } else {
                        BranchStatus::Diverged { ahead: a, behind: h }
                    },
                },
                Phase::AwaitAdvance { ahead, behind } => if r.ok {
                    BranchStatus::FastForwarded { commits: behind }
                } else {
                    BranchStatus::Diverged { ahead, behind }
                },
                _ => BranchStatus::NoUpstream,
            };
            lemma_scan_record(s, e.0, st);
            let p = s.result.branches.push(BranchResultView { branch: e.0, status: st });
            let recorded = match s.phase {
                Phase::AwaitAheadBehind => match ahead_behind_of(r) {
                    Some((a, h)) => h == 0 || a > 0,
                    None => true,
                },
                _ => !(s.phase is AwaitVerify) || !r.ok,
            };
            if recorded {
                assert(n.take(p.len() as int) == p);
                assert(n[s.cursor as int] == p[s.cursor as int]);
                assert forall|i: int| s.cursor <= i < n.len() && (#[trigger] n[i]).status is Diverged implies n[i].status->behind
                    > 0 by {
                    if i == s.cursor {
                        assert(n.take(p.len() as int)[i] == n[i]);
                    }
                }
            }
        },
        _ => {},
    }
}

/// A repo without an origin remote is skipped right after its branch is
/// read, with the reason recorded; nothing else is run in it.
pub proof fn lemma_no_remote_is_skipped(s: PullView, r: GitReplyView)
    requires
        s.phase == Phase::AwaitBranch,
        !s.result.repo.has_remote,
    ensures
        next(s, r).1 is Finished,
        next(s, r).0.result.skipped == Some(no_remote_message()),
        next(s, r).0.result.original_branch == branch_of(r),
{
}

/// Under the skip policy a repo with tracked changes is left untouched: the
/// pull ends right after `status`, recorded as skipped, with nothing stashed.
pub proof fn lemma_dirty_repo_skipped_under_skip_policy(s: PullView, r: GitReplyView)
    requires
        wf(s),
        s.phase == Phase::AwaitStatus,
        s.policy == DirtyPolicy::Skip,
        is_dirty(r),
    ensures
        next(s, r).1 is Finished,
        next(s, r).0.result.skipped == Some(dirty_skip_message()),
        !next(s, r).0.did_stash,
{
}

/// Settings that leave the checked-out branch alone: no target branch and
/// no fallback branch.
pub open spec fn stays_put(s: PullView) -> bool {
    s.settings.target_branch is None && s.settings.fallback_branch is None
}

/// Once the starting branch is known, it is the one checked out.
pub open spec fn on_original(s: PullView) -> bool {
    !(s.phase is AwaitBranch) ==> s.checked_out == s.result.original_branch
}

/// Whether `a` checks out a branch or a commit.
pub open spec fn is_checkout(a: PullActionView) -> bool {
    ||| a matches PullActionView::Run(GitOpView::Checkout(_))
    ||| a matches PullActionView::Run(GitOpView::CheckoutTracking(_))
    ||| a matches PullActionView::Run(GitOpView::CheckoutDetached(_))
}

/// With no target and no fallback branch a repo behaves as if there were no
/// per-repo settings: no branch is ever checked out, and the branch that was
/// checked out at the start stays checked out.
pub proof fn lemma_default_settings_keep_branch(s: PullView, r: GitReplyView)
    requires
        wf(s),
        stays_put(s),
        on_original(s),
    ensures
        stays_put(next(s, r).0),
        on_original(next(s, r).0),
        !is_checkout(next(s, r).1),
{
    if s.phase is AwaitBranchList || s.phase is AwaitVerify || s.phase is AwaitAheadBehind
        || s.phase is AwaitAdvance {
        lemma_loop_step(s, r);
    }
}

/// The state a pull of `repo` starts in.
pub open spec fn initial(
    repo: crate::repos::RepoInfoView,
    settings: RepoSettingsView,
    policy: DirtyPolicy,
) -> PullView {
    PullView {
        phase: Phase::AwaitBranch,
        result: PullResultView {
            repo,
            original_branch: Seq::empty(),
            branches: Seq::empty(),
            had_local_changes: false,
            stash_conflict: false,
            skipped: None,
            error: None,
        },
        settings,
        policy,
        checked_out: Seq::empty(),
        start_commit: Seq::empty(),
        stash_before: 0,
        did_stash: false,
        restore_issued: false,
        todo: Seq::empty(),
        cursor: 0,
    }
}

struct PullState {
    phase: Phase,
    result: PullResult,
    settings: RepoSettings,
    policy: DirtyPolicy,
    checked_out: String,
    start_commit: String,
    stash_before: u32,
    did_stash: bool,
    restore_issued: bool,
    todo: Vec<(String, String)>,
    cursor: usize,
}

impl View for PullState {
    type V = PullView;

    closed spec fn view(&self) -> PullView {
        PullView {
            phase: self.phase,
            result: self.result@,
            settings: self.settings@,
            policy: self.policy,
            checked_out: self.checked_out@,
            start_commit: self.start_commit@,
            stash_before: self.stash_before,
            did_stash: self.did_stash,
            restore_issued: self.restore_issued,
            todo: pair_views(self.todo@),
            cursor: self.cursor as nat,
        }
    }
}

fn ex_finish(s: PullState) -> (r: (PullState, PullAction))
    ensures
        (r.0@, r.1@) == finish(s@),
{
    let mut s = s;
    s.phase = Phase::Done;
    (s, PullAction::Finished)
}

fn ex_ask(s: PullState, p: Phase, op: GitOp) -> (r: (PullState, PullAction))
    ensures
        (r.0@, r.1@) == ask(s@, p, op@),
{
    let mut s = s;
    s.phase = p;
    (s, PullAction::Run(op))
}

fn ex_restore(s: PullState) -> (r: (PullState, PullAction))
    ensures
        (r.0@, r.1@) == restore(s@),
{
    let mut s = s;
    if s.did_stash {
        s.restore_issued = true;
        ex_ask(s, Phase::AwaitApply, GitOp::StashApply)
    } else {
        ex_finish(s)
    }
}

fn ex_land(s: PullState) -> (r: (PullState, PullAction))
    ensures
        (r.0@, r.1@) == land(s@),
{
    let f = match &s.settings.fallback_branch {
        Some(f) => f.clone(),
        None => s.result.original_branch.clone(),
    };
    if crate::text::same_text(f.as_str(), "DETACHED") {
        proof {
            reveal_strlit("DETACHED");
        }
        if !crate::text::same_text(s.checked_out.as_str(), "DETACHED") && s.start_commit.unicode_len() > 0 {
            let c = s.start_commit.clone();
            ex_ask(s, Phase::AwaitLanding, GitOp::CheckoutDetached(c))
        } else {
            ex_restore(s)
        }
    } else if !crate::text::same_text(f.as_str(), s.checked_out.as_str()) {
        ex_ask(s, Phase::AwaitLanding, GitOp::Checkout(f))
    } else {
        ex_restore(s)
    }
}

fn ex_to_target(s: PullState) -> (r: (PullState, PullAction))
    ensures
        (r.0@, r.1@) == to_target(s@),
{
    let t = match &s.settings.target_branch {
        Some(t) => {
            if crate::text::same_text(t.as_str(), s.checked_out.as_str()) {
                None
            } else {
                Some(crate::text::concat_text("refs/heads/", t.as_str()))
            }
        },
        None => None,
    };
    match t {
        Some(rf) => ex_ask(s, Phase::AwaitTargetRef, GitOp::VerifyRef(rf)),
        None => ex_ask(s, Phase::AwaitBranchList, GitOp::ListBranches),
    }
}

fn ex_record(s: PullState, b: String, status: BranchStatus) -> (r: PullState)
    requires
        s.cursor < s.todo@.len(),
    ensures
        r@ == record(s@, b@, status),
{
    let mut s = s;
    proof {
        assert(s.todo@.len() == s.todo.len());
    }
    let ghost before = s.result.branches@;
    s.result.branches.push(BranchResult { branch: b, status });
    proof {
        assert(crate::repos::branch_views(s.result.branches@) =~= crate::repos::branch_views(
            before,
        ).push(BranchResultView { branch: b@, status }));
    }
    s.cursor = s.cursor + 1;
    s
}

fn ex_scan(s: PullState) -> (r: (PullState, PullAction))
    requires
        core_wf(s@),
    ensures
        (r.0@, r.1@) == scan_branches(s@),
{
    let ghost start = s@;
    let mut s = s;
    while s.cursor < s.todo.len() && s.todo[s.cursor].1.unicode_len() == 0
        invariant
            core_wf(s@),
            scan_branches(s@) == scan_branches(start),
        decreases s.todo@.len() - s.cursor,
    {
        let b = s.todo[s.cursor].0.clone();
        proof {
            assert(s@.todo[s.cursor as int] == (s.todo@[s.cursor as int].0@, s.todo@[s.cursor as int].1@));
        }
        let ghost prev = s@;
        s = ex_record(s, b, BranchStatus::NoUpstream);
        proof {
            assert forall|i: int| 0 <= i < s@.cursor implies (#[trigger] s@.result.branches[i]).branch
                == s@.todo[i].0 by {
                if i < prev.cursor {
                    assert(s@.result.branches[i] == prev.result.branches[i]);
                }
            }
        }
    }
    if s.cursor >= s.todo.len() {
        ex_land(s)
    } else {
        let u = s.todo[s.cursor].1.clone();
        ex_ask(s, Phase::AwaitVerify, GitOp::VerifyRef(u))
    }
}

fn contains_text(list: &Vec<String>, x: &str) -> (r: bool)
    ensures
        r == views(list@).contains(x@),
{
    let mut i: usize = 0;
    while i < list.len()
        invariant
            i <= list@.len(),
            forall|k: int| 0 <= k < i ==> list@[k]@ != x@,
        decreases list@.len() - i,
    {
        if crate::text::same_text(list[i].as_str(), x) {
            proof {
                assert(views(list@)[i as int] == x@);
            }
            return true;
        }
        i = i + 1;
    }
    proof {
        if views(list@).contains(x@) {
            let k = choose|k: int| 0 <= k < views(list@).len() && views(list@)[k] == x@;
            assert(list@[k]@ == x@);
        }
    }
    false
}

fn ex_select(entries: Vec<(String, String)>, wanted: &Vec<String>) -> (r: Vec<(String, String)>)
    ensures
        pair_views(r@) == selected(pair_views(entries@), views(wanted@)),
{
    let ghost ev = pair_views(entries@);
    let ghost wv = views(wanted@);
    if wanted.len() == 0 {
        proof {
            if ev.len() > 0 {
                assert(selected(ev, wv) == ev);
            }
        }
        return entries;
    }
    let mut out: Vec<(String, String)> = Vec::new();
    let mut i: usize = 0;
    proof {
        assert(ev.take(0) =~= Seq::<(Seq<char>, Seq<char>)>::empty());
        assert(pair_views(out@) =~= selected(ev.take(0), wv));
    }
    while i < entries.len()
        invariant
            i <= entries@.len(),
            ev == pair_views(entries@),
            wv == views(wanted@),
            wv.len() > 0,
            pair_views(out@) == selected(ev.take(i as int), wv),
        decreases entries@.len() - i,
    {
        proof {
            let t = ev.take(i + 1);
            assert(t.drop_last() =~= ev.take(i as int));
            assert(t.last() == ev[i as int]);
            assert(ev[i as int] == (entries@[i as int].0@, entries@[i as int].1@));
        }
        if contains_text(wanted, entries[i].0.as_str()) {
            let ghost before = out@;
            out.push((entries[i].0.clone(), entries[i].1.clone()));
            proof {
                assert(pair_views(out@) =~= pair_views(before).push(ev[i as int]));
            }
        }
        i = i + 1;
    }
    proof {
        assert(ev.take(i as int) =~= ev);
    }
    out
}

fn skip_with(s: PullState, m: &str) -> (r: PullState)
    ensures
        r@ == with_skip(s@, m@),
{
    let mut s = s;
    s.result.skipped = Some(String::from_str(m));
    s
}

fn fail_with(s: PullState, m: String) -> (r: PullState)
    ensures
        r@ == with_error(s@, m@),
{
    let mut s = s;
    s.result.error = Some(m);
    s
}

fn ex_next(s: PullState, r: &GitReply) -> (out: (PullState, PullAction))
    requires
        wf(s@),
    ensures
        (out.0@, out.1@) == next(s@, r@),
{
    let mut s = s;
    match s.phase {
        Phase::AwaitBranch => {
            let o = crate::git::branch_from(r);
            s.result.original_branch = o.clone();
            let detached_head = crate::text::same_text(o.as_str(), "DETACHED");
            s.checked_out = o;
            if !s.result.repo.has_remote {
                ex_finish(skip_with(s, "no origin remote"))
            } else if detached_head {
                ex_ask(s, Phase::AwaitHeadCommit, GitOp::HeadCommit)
            } else {
                ex_ask(s, Phase::AwaitFetch, GitOp::Fetch)
            }
        },
        Phase::AwaitHeadCommit => {
            s.start_commit = crate::git::commit_from(r);
            ex_ask(s, Phase::AwaitFetch, GitOp::Fetch)
        },
        Phase::AwaitFetch => {
            if !r.ok {
                let m = crate::git::fetch_error_from(r);
                ex_finish(fail_with(s, m))
            } else {
                ex_ask(s, Phase::AwaitStatus, GitOp::Status)
            }
        },
        Phase::AwaitStatus => {
            if crate::git::dirty_from(r) {
                if s.policy == DirtyPolicy::Skip {
                    ex_finish(skip_with(s, "uncommitted changes"))
                } else {
                    ex_ask(s, Phase::AwaitStashCountBefore, GitOp::StashList)
                }
            } else {
                ex_to_target(s)
            }
        },
        Phase::AwaitStashCountBefore => {
            s.stash_before = crate::git::stash_count_from(r);
            ex_ask(s, Phase::AwaitStashPush, GitOp::StashPush)
        },
        Phase::AwaitStashPush => {
            if r.ok {
                ex_ask(s, Phase::AwaitStashCountAfter, GitOp::StashList)
            } else {
                ex_to_target(s)
            }
        },
        Phase::AwaitStashCountAfter => {
            let d = crate::git::stash_count_from(r) > s.stash_before;
            s.did_stash = d;
            s.result.had_local_changes = d;
            ex_to_target(s)
        },
        Phase::AwaitTargetRef => {
            let t = match &s.settings.target_branch {
                Some(t) => t.clone(),
                None => String::new(),
            };
            if r.ok {
                ex_ask(s, Phase::AwaitTargetCheckout, GitOp::Checkout(t))
            } else {
                ex_ask(s, Phase::AwaitTargetCheckout, GitOp::CheckoutTracking(t))
            }
        },
        Phase::AwaitTargetCheckout => {
            let t = match &s.settings.target_branch {
                Some(t) => t.clone(),
                None => String::new(),
            };
            if r.ok {
                s.checked_out = t;
                ex_ask(s, Phase::AwaitBranchList, GitOp::ListBranches)
            } else {
                let m = crate::text::concat_text("could not check out ", t.as_str());
                ex_restore(fail_with(s, m))
            }
        },
        Phase::AwaitBranchList => {
            let list = crate::git::branch_list_from(r);
            let todo = ex_select(list, &s.settings.branches);
            s.todo = todo;
            s.cursor = 0;
            ex_scan(s)
        },
        Phase::AwaitVerify => {
            let b = s.todo[s.cursor].0.clone();
            let u = s.todo[s.cursor].1.clone();
            proof {
                assert(s@.todo[s.cursor as int] == (s.todo@[s.cursor as int].0@, s.todo@[s.cursor as int].1@));
            }
            if !r.ok {
                let ghost prev = s@;
                let s2 = ex_record(s, b, BranchStatus::NoUpstream);
                proof {
                    lemma_scan_record(prev, b@, BranchStatus::NoUpstream);
                }
                ex_scan(s2)
            } else {
                ex_ask(s, Phase::AwaitAheadBehind, GitOp::AheadBehind(b, u))
            }
        },
        Phase::AwaitAheadBehind => {
            let b = s.todo[s.cursor].0.clone();
            let u = s.todo[s.cursor].1.clone();
            proof {
                assert(s@.todo[s.cursor as int] == (s.todo@[s.cursor as int].0@, s.todo@[s.cursor as int].1@));
            }
            let ghost prev = s@;
            match crate::git::ahead_behind_from(r) {
                None => {
                    proof {
                        lemma_scan_record(prev, b@, BranchStatus::NoUpstream);
                    }
                    ex_scan(ex_record(s, b, BranchStatus::NoUpstream))
                },
                Some((a, h)) => {
                    if h == 0 {
                        proof {
                            lemma_scan_record(prev, b@, BranchStatus::UpToDate);
                        }
                        ex_scan(ex_record(s, b, BranchStatus::UpToDate))
                    } else if a > 0 {
                        proof {
                            lemma_scan_record(prev, b@, BranchStatus::Diverged { ahead: a, behind: h });
                        }
                        ex_scan(ex_record(s, b, BranchStatus::Diverged { ahead: a, behind: h }))
                    } else if crate::text::same_text(b.as_str(), s.checked_out.as_str()) {
                        ex_ask(s, Phase::AwaitAdvance { ahead: a, behind: h }, GitOp::MergeFfOnly(u))
                    } else {
                        ex_ask(
                            s,
                            Phase::AwaitAdvance { ahead: a, behind: h },
                            GitOp::ForceBranch(b, u),
                        )
                    }
                },
            }
        },
        Phase::AwaitAdvance { ahead, behind } => {
            let b = s.todo[s.cursor].0.clone();
            proof {
                assert(s@.todo[s.cursor as int].0 == s.todo@[s.cursor as int].0@);
            }
            let status = if r.ok {
                BranchStatus::FastForwarded { commits: behind }
            } else {
                BranchStatus::Diverged { ahead, behind }
            };
            proof {
                lemma_scan_record(s@, b@, status);
            }
            ex_scan(ex_record(s, b, status))
        },
        Phase::AwaitLanding => {
            let f = match &s.settings.fallback_branch {
                Some(f) => f.clone(),
                None => s.result.original_branch.clone(),
            };
            if r.ok {
                s.checked_out = f;
                ex_restore(s)
            } else if s.result.error.is_none() {
                let target = if crate::text::same_text(f.as_str(), "DETACHED") {
                    s.start_commit.clone()
                } else {
                    f
                };
                let m = crate::text::concat_text("could not check out ", target.as_str());
                ex_restore(fail_with(s, m))
            } else {
                ex_restore(s)
            }
        },
        Phase::AwaitApply => {
            if r.ok {
                ex_ask(s, Phase::AwaitDrop, GitOp::StashDrop)
            } else {
                s.result.stash_conflict = true;
                ex_finish(s)
            }
        },
        Phase::AwaitDrop => ex_finish(s),
        Phase::Done => ex_finish(s),
    }
}

/// A pull of one repository in progress.
pub struct PullMachine {
    state: PullState,
}

impl View for PullMachine {
    type V = PullView;

    closed spec fn view(&self) -> PullView {
        self.state@
    }
}

impl PullMachine {
    #[verifier::type_invariant]
    spec fn keeps_wf(self) -> bool {
        wf(self.state@)
    }

    /// Advances the pull with `reply`, the reply to the operation it asked
    /// for last, and returns the next thing to do.
    pub fn step(self, reply: &GitReply) -> (r: (PullMachine, PullAction))
        ensures
            wf(self@),
            (r.0@, r.1@) == next(self@, reply@),
            wf(r.0@),
    {
        proof {
            use_type_invariant(&self);
            lemma_step_keeps_wf(self@, reply@);
        }
        let PullMachine { state } = self;
        let (state, action) = ex_next(state, reply);
        (PullMachine { state }, action)
    }

    /// The result so far; final once the pull has finished.
    pub fn result(&self) -> (r: &PullResult)
        ensures
            r@ == self@.result,
    {
        &self.state.result
    }

    /// Whether the pull has finished.
    pub fn is_done(&self) -> (r: bool)
        ensures
            r == (self@.phase == Phase::Done),
    {
        self.state.phase == Phase::Done
    }

    /// The result, consuming the engine.
    pub fn into_result(self) -> (r: PullResult)
        ensures
            r@ == self@.result,
    {
        let PullMachine { state } = self;
        state.result
    }
}

/// Starts the pull of `repo` with its settings and the dirty-tree policy:
/// the engine, and the first operation to run (reading the checked-out branch).
///
/// Flow, one reply at a time:
/// 1. read the checked-out branch; a repo without origin is skipped;
/// 2. `git fetch --all --prune` (a failure ends the pull with its message);
/// 3. tracked changes are stashed (or, under the skip policy, the repo is skipped);
/// 4. the target branch, if set, is checked out (created tracking origin if need be);
/// 5. each selected local branch with an upstream is brought up to date:
///    up to date, fast-forwarded (`merge --ff-only` for the checked-out branch,
///    `branch -f` for the others) or recorded as diverged, never merged;
/// 6. the landing branch is checked out;
/// 7. stashed changes are applied back; the stash is dropped only after a
///    clean apply, kept and flagged otherwise.
pub fn pull(repo: &RepoInfo, settings: RepoSettings, on_dirty: DirtyPolicy) -> (r: (
    PullMachine,
    GitOp,
))
    ensures
        r.0@ == initial(repo@, settings@, on_dirty),
        wf(r.0@),
        r.1@ == GitOpView::CurrentBranch,
{
    let result = PullResult {
        repo: repo.clone(),
        original_branch: String::new(),
        branches: Vec::new(),
        had_local_changes: false,
        stash_conflict: false,
        skipped: None,
        error: None,
    };
    let state = PullState {
        phase: Phase::AwaitBranch,
        result,
        settings,
        policy: on_dirty,
        checked_out: String::new(),
        start_commit: String::new(),
        stash_before: 0,
        did_stash: false,
        restore_issued: false,
        todo: Vec::new(),
        cursor: 0,
    };
    proof {
        assert(crate::repos::branch_views(state.result.branches@) =~= Seq::<BranchResultView>::empty());
        assert(pair_views(state.todo@) =~= Seq::<(Seq<char>, Seq<char>)>::empty());
        assert(state@ == initial(repo@, settings@, on_dirty));
    }
    (PullMachine { state }, GitOp::CurrentBranch)
}

} // verus!
