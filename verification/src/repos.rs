//! Repositories, per-branch outcomes, per-repo results and sync reports, with
//! the counts that the tray and the dashboard show.

use vstd::prelude::*;
use crate::git::{branch_of, GitReply};
use crate::platform::{components_prefix, is_simple_path, rel_of};
use crate::text::{lemma_text_lt_asym, lemma_text_lt_trans, less_text, same_text, text_lt};

verus! {

/// A git repository found under the configured root.
#[derive(Debug)]
pub struct RepoInfo {
    /// Relative path from config root.
    pub rel_path: String,
    /// Absolute path.
    pub abs_path: String,
    /// Branch that was checked out when the sync started, or "DETACHED".
    pub branch: String,
    /// Whether origin remote exists.
    pub has_remote: bool,
}

pub struct RepoInfoView {
    pub rel_path: Seq<char>,
    pub abs_path: Seq<char>,
    pub branch: Seq<char>,
    pub has_remote: bool,
}

impl View for RepoInfo {
    type V = RepoInfoView;

    open spec fn view(&self) -> RepoInfoView {
        RepoInfoView {
            rel_path: self.rel_path@,
            abs_path: self.abs_path@,
            branch: self.branch@,
            has_remote: self.has_remote,
        }
    }
}

impl Clone for RepoInfo {
    fn clone(&self) -> (r: Self)
        ensures
            r@ == self@,
    {
        RepoInfo {
            rel_path: self.rel_path.clone(),
            abs_path: self.abs_path.clone(),
            branch: self.branch.clone(),
            has_remote: self.has_remote,
        }
    }
}

/// Outcome for one branch.
#[derive(Debug, Clone, Copy, PartialEq, Eq, Structural)]
pub enum BranchStatus {
    /// Already at upstream.
    UpToDate,
    /// Fast-forwarded by `commits` commits.
    FastForwarded { commits: u32 },
    /// Local and remote have both moved — cannot fast-forward. Needs attention.
    Diverged { ahead: u32, behind: u32 },
    /// Branch has no configured upstream, so nothing to pull.
    NoUpstream,
}

#[derive(Debug)]
pub struct BranchResult {
    pub branch: String,
    pub status: BranchStatus,
}

pub struct BranchResultView {
    pub branch: Seq<char>,
    pub status: BranchStatus,
}

impl View for BranchResult {
    type V = BranchResultView;

    open spec fn view(&self) -> BranchResultView {
        BranchResultView { branch: self.branch@, status: self.status }
    }
}

impl Clone for BranchResult {
    fn clone(&self) -> (r: Self)
        ensures
            r@ == self@,
    {
        BranchResult { branch: self.branch.clone(), status: self.status }
    }
}

pub open spec fn branch_views(v: Seq<BranchResult>) -> Seq<BranchResultView> {
    v.map_values(|b: BranchResult| b@)
}

/// Result of syncing a single repo across all its branches.
#[derive(Debug)]
pub struct PullResult {
    pub repo: RepoInfo,
    /// The branch we started on.
    pub original_branch: String,
    /// Per-branch outcomes.
    pub branches: Vec<BranchResult>,
    /// True if the repo had uncommitted changes that we stashed.
    pub had_local_changes: bool,
    /// True if restoring stashed changes left conflict markers in the tree.
    pub stash_conflict: bool,
    /// Set if the whole repo was skipped (e.g. no remote, or disabled).
    pub skipped: Option<String>,
    /// Set on a hard failure (e.g. `git fetch` failed).
    pub error: Option<String>,
}

pub open spec fn opt_view(o: Option<String>) -> Option<Seq<char>> {
    match o {
        Some(s) => Some(s@),
        None => None,
    }
}

pub struct PullResultView {
    pub repo: RepoInfoView,
    pub original_branch: Seq<char>,
    pub branches: Seq<BranchResultView>,
    pub had_local_changes: bool,
    pub stash_conflict: bool,
    pub skipped: Option<Seq<char>>,
    pub error: Option<Seq<char>>,
}

impl View for PullResult {
    type V = PullResultView;

    open spec fn view(&self) -> PullResultView {
        PullResultView {
            repo: self.repo@,
            original_branch: self.original_branch@,
            branches: branch_views(self.branches@),
            had_local_changes: self.had_local_changes,
            stash_conflict: self.stash_conflict,
            skipped: opt_view(self.skipped),
            error: opt_view(self.error),
        }
    }
}

pub fn clone_opt_text(o: &Option<String>) -> (r: Option<String>)
    ensures
        opt_view(r) == opt_view(*o),
{
    match o {
        Some(s) => Some(s.clone()),
        None => None,
    }
}

pub fn clone_branches(v: &Vec<BranchResult>) -> (r: Vec<BranchResult>)
    ensures
        branch_views(r@) == branch_views(v@),
{
    let mut r: Vec<BranchResult> = Vec::new();
    let mut i: usize = 0;
    while i < v.len()
        invariant
            i <= v.len(),
            r@.len() == i,
            forall|k: int| 0 <= k < i ==> #[trigger] r@[k]@ == v@[k]@,
        decreases v.len() - i,
    {
        r.push(v[i].clone());
        i = i + 1;
    }
    proof {
        assert(branch_views(r@) =~= branch_views(v@));
    }
    r
}

impl Clone for PullResult {
    fn clone(&self) -> (r: Self)
        ensures
            r@ == self@,
    {
        PullResult {
            repo: self.repo.clone(),
            original_branch: self.original_branch.clone(),
            branches: clone_branches(&self.branches),
            had_local_changes: self.had_local_changes,
            stash_conflict: self.stash_conflict,
            skipped: clone_opt_text(&self.skipped),
            error: clone_opt_text(&self.error),
        }
    }
}

/// Whether any branch in `b` diverged from its upstream.
pub open spec fn any_diverged(b: Seq<BranchResultView>) -> bool {
    exists|i: int| 0 <= i < b.len() && (#[trigger] b[i]).status is Diverged
}

/// Number of branches in `b` that were fast-forwarded.
pub open spec fn count_fast_forwarded(b: Seq<BranchResultView>) -> nat
    decreases b.len(),
{
    if b.len() == 0 {
        0
    } else {
        count_fast_forwarded(b.drop_last()) + if b.last().status is FastForwarded {
            1nat
        } else {
            0nat
        }
    }
}

impl PullResultView {
    /// A repo needs attention if restoring stashed changes conflicted, or any
    /// branch diverged and could not be fast-forwarded.
    pub open spec fn has_conflict(self) -> bool {
        self.stash_conflict || any_diverged(self.branches)
    }
}

impl PullResult {
    /// A repo "needs attention" if restoring stashed changes conflicted, or any
    /// branch diverged and could not be fast-forwarded.
    pub fn has_conflict(&self) -> (r: bool)
        ensures
            r == self@.has_conflict(),
    {
        if self.stash_conflict {
            return true;
        }
        let mut i: usize = 0;
        while i < self.branches.len()
            invariant
                i <= self.branches@.len(),
                forall|k: int| 0 <= k < i ==> !((#[trigger] self.branches@[k]).status is Diverged),
            decreases self.branches@.len() - i,
        {
            if let BranchStatus::Diverged { .. } = self.branches[i].status {
                proof {
                    assert(self@.branches[i as int].status is Diverged);
                }
                return true;
            }
            i = i + 1;
        }
        proof {
            if any_diverged(self@.branches) {
                let k = choose|k: int| 0 <= k < self@.branches.len() && (#[trigger] self@.branches[k]).status is Diverged;
                assert(self.branches@[k].status is Diverged);
            }
        }
        false
    }

    /// Number of fast-forwarded branches.
    pub fn updated_count(&self) -> (r: u32)
        ensures
            r == count_fast_forwarded(self@.branches) as u32,
    {
        let mut n: usize = 0;
        let mut i: usize = 0;
        while i < self.branches.len()
            invariant
                i <= self.branches@.len(),
                n <= i,
                n == count_fast_forwarded(self@.branches.take(i as int)),
            decreases self.branches@.len() - i,
        {
            proof {
                let t = self@.branches.take(i + 1);
                assert(t.drop_last() =~= self@.branches.take(i as int));
                assert(t.last() == self.branches@[i as int]@);
            }
            if let BranchStatus::FastForwarded { .. } = self.branches[i].status {
                n = n + 1;
            }
            i = i + 1;
        }
        proof {
            assert(self@.branches.take(i as int) =~= self@.branches);
        }
        n as u32
    }
}

/// Which of the five summary buckets a repo falls in.
#[derive(PartialEq, Eq, Structural)]
pub enum Outcome {
    Updated,
    Clean,
    Skipped,
    Failed,
    Conflict,
}

impl PullResultView {
    /// The bucket of the tray summary: a hard failure first, then a skip, then
    /// a conflict, then whether any branch moved.
    pub open spec fn outcome(self) -> Outcome {
        if self.error is Some {
            Outcome::Failed
        } else if self.skipped is Some {
            Outcome::Skipped
        } else if self.has_conflict() {
            Outcome::Conflict
        } else if count_fast_forwarded(self.branches) as u32 > 0 {
            Outcome::Updated
        } else {
            Outcome::Clean
        }
    }
}

/// Number of results in `rs` that fall in bucket `o`.
pub open spec fn count_outcome(rs: Seq<PullResultView>, o: Outcome) -> nat
    decreases rs.len(),
{
    if rs.len() == 0 {
        0
    } else {
        count_outcome(rs.drop_last(), o) + if rs.last().outcome() == o {
            1nat
        } else {
            0nat
        }
    }
}

/// Number of results in `rs` that need attention.
pub open spec fn count_conflicts(rs: Seq<PullResultView>) -> nat
    decreases rs.len(),
{
    if rs.len() == 0 {
        0
    } else {
        count_conflicts(rs.drop_last()) + if rs.last().has_conflict() {
            1nat
        } else {
            0nat
        }
    }
}

pub open spec fn result_views(v: Seq<PullResult>) -> Seq<PullResultView> {
    v.map_values(|r: PullResult| r@)
}

/// The record of one sync run.
#[derive(Debug)]
pub struct SyncReport {
    pub started_at: String,
    pub finished_at: String,
    pub root: String,
    pub results: Vec<PullResult>,
}

pub struct SyncReportView {
    pub started_at: Seq<char>,
    pub finished_at: Seq<char>,
    pub root: Seq<char>,
    pub results: Seq<PullResultView>,
}

impl View for SyncReport {
    type V = SyncReportView;

    open spec fn view(&self) -> SyncReportView {
        SyncReportView {
            started_at: self.started_at@,
            finished_at: self.finished_at@,
            root: self.root@,
            results: result_views(self.results@),
        }
    }
}

impl Clone for SyncReport {
    fn clone(&self) -> (r: Self)
        ensures
            r@ == self@,
    {
        let mut results: Vec<PullResult> = Vec::new();
        let mut i: usize = 0;
        while i < self.results.len()
            invariant
                i <= self.results.len(),
                results@.len() == i,
                forall|k: int| 0 <= k < i ==> #[trigger] results@[k]@ == self.results@[k]@,
            decreases self.results.len() - i,
        {
            results.push(self.results[i].clone());
            i = i + 1;
        }
        proof {
            assert(result_views(results@) =~= result_views(self.results@));
        }
        SyncReport {
            started_at: self.started_at.clone(),
            finished_at: self.finished_at.clone(),
            root: self.root.clone(),
            results,
        }
    }
}

impl Default for SyncReport {
    fn default() -> (r: Self)
        ensures
            r@.started_at.len() == 0,
            r@.finished_at.len() == 0,
            r@.root.len() == 0,
            r@.results.len() == 0,
    {
        SyncReport {
            started_at: String::new(),
            finished_at: String::new(),
            root: String::new(),
            results: Vec::new(),
        }
    }
}

impl SyncReportView {
    /// True for a report written before per-branch data existed: it has
    /// results and none of them records a starting branch.
    pub open spec fn is_legacy(self) -> bool {
        self.results.len() > 0 && forall|i: int|
            0 <= i < self.results.len() ==> (#[trigger] self.results[i]).original_branch.len() == 0
    }
}

impl SyncReport {
    /// (repos_with_updates, repos_clean, repos_skipped, repos_failed, repos_conflict)
    pub fn summary(&self) -> (r: (u32, u32, u32, u32, u32))
        requires
            self.results@.len() <= u32::MAX,
        ensures
            r.0 == count_outcome(self@.results, Outcome::Updated),
            r.1 == count_outcome(self@.results, Outcome::Clean),
            r.2 == count_outcome(self@.results, Outcome::Skipped),
            r.3 == count_outcome(self@.results, Outcome::Failed),
            r.4 == count_outcome(self@.results, Outcome::Conflict),
    {
        let mut updated: u32 = 0;
        let mut clean: u32 = 0;
        let mut skipped: u32 = 0;
        let mut failed: u32 = 0;
        let mut conflict: u32 = 0;
        let mut i: usize = 0;
        while i < self.results.len()
            invariant
                i <= self.results@.len() <= u32::MAX,
                updated == count_outcome(self@.results.take(i as int), Outcome::Updated),
                clean == count_outcome(self@.results.take(i as int), Outcome::Clean),
                skipped == count_outcome(self@.results.take(i as int), Outcome::Skipped),
                failed == count_outcome(self@.results.take(i as int), Outcome::Failed),
                conflict == count_outcome(self@.results.take(i as int), Outcome::Conflict),
                updated + clean + skipped + failed + conflict == i,
            decreases self.results@.len() - i,
        {
            let r = &self.results[i];
            let ghost t = self@.results.take(i + 1);
            proof {
                assert(t.drop_last() =~= self@.results.take(i as int));
                assert(t.last() == r@);
            }
            if r.error.is_some() {
                failed = failed + 1;
            } else if r.skipped.is_some() {
                skipped = skipped + 1;
            } else if r.has_conflict() {
                conflict = conflict + 1;
            } else if r.updated_count() > 0 {
                updated = updated + 1;
            } else {
                clean = clean + 1;
            }
            i = i + 1;
        }
        proof {
            assert(self@.results.take(i as int) =~= self@.results);
        }
        (updated, clean, skipped, failed, conflict)
    }

    /// Number of repos that need attention.
    pub fn conflict_count(&self) -> (r: u32)
        ensures
            r == count_conflicts(self@.results) as u32,
    {
        let mut n: usize = 0;
        let mut i: usize = 0;
        while i < self.results.len()
            invariant
                n <= i <= self.results@.len(),
                n == count_conflicts(self@.results.take(i as int)),
            decreases self.results@.len() - i,
        {
            let ghost t = self@.results.take(i + 1);
            proof {
                assert(t.drop_last() =~= self@.results.take(i as int));
                assert(t.last() == self.results@[i as int]@);
            }
            if self.results[i].has_conflict() {
                n = n + 1;
            }
            i = i + 1;
        }
        proof {
            assert(self@.results.take(i as int) =~= self@.results);
        }
        n as u32
    }

    /// True if this looks like a report written before per-branch data existed.
    pub fn is_legacy(&self) -> (r: bool)
        ensures
            r == self@.is_legacy(),
    {
        if self.results.len() == 0 {
            return false;
        }
        let mut i: usize = 0;
        while i < self.results.len()
            invariant
                i <= self.results@.len(),
                forall|k: int| 0 <= k < i ==> (#[trigger] self.results@[k]).original_branch@.len() == 0,
            decreases self.results@.len() - i,
        {
            if self.results[i].original_branch.unicode_len() != 0 {
                proof {
                    assert(self@.results[i as int].original_branch.len() != 0);
                }
                return false;
            }
            i = i + 1;
        }
        proof {
            assert forall|k: int| 0 <= k < self@.results.len() implies (
            #[trigger] self@.results[k]).original_branch.len() == 0 by {
                assert(self@.results[k] == self.results@[k]@);
            }
        }
        true
    }
}

/// Every repo of a report falls in exactly one bucket of the summary: the
/// five counts add up to the number of results.
pub proof fn lemma_summary_partitions(rs: Seq<PullResultView>)
    ensures
        count_outcome(rs, Outcome::Updated) + count_outcome(rs, Outcome::Clean) + count_outcome(
            rs,
            Outcome::Skipped,
        ) + count_outcome(rs, Outcome::Failed) + count_outcome(rs, Outcome::Conflict) == rs.len(),
    decreases rs.len(),
{
    if rs.len() > 0 {
        lemma_summary_partitions(rs.drop_last());
    }
}

/// Whether a result records a hard failure: it has an error.
pub open spec fn is_failed_result(x: PullResultView) -> bool {
    x.error is Some
}

/// Whether a result records a skipped repo: skipped, with no error.
pub open spec fn is_skipped_result(x: PullResultView) -> bool {
    x.error is None && x.skipped is Some
}

/// The summary counts as failed exactly the results with an error, and as
/// skipped exactly those skipped without one.
pub proof fn lemma_failed_and_skipped_counts(rs: Seq<PullResultView>)
    ensures
        count_outcome(rs, Outcome::Failed) == rs.filter(|x: PullResultView| is_failed_result(x)).len(),
        count_outcome(rs, Outcome::Skipped) == rs.filter(|x: PullResultView| is_skipped_result(x)).len(),
    decreases rs.len(),
{
    reveal(Seq::filter);
    if rs.len() > 0 {
        lemma_failed_and_skipped_counts(rs.drop_last());
    }
}

/// The number of repos that need attention is at most the number of repos.
/// The summary's conflict bucket never exceeds it (a failed or skipped repo
/// is counted as failed or skipped first), and equals it when no repo failed
/// or was skipped.
pub proof fn lemma_conflict_bucket_within_count(rs: Seq<PullResultView>)
    ensures
        count_conflicts(rs) <= rs.len(),
        count_outcome(rs, Outcome::Conflict) <= count_conflicts(rs),
        (forall|i: int| 0 <= i < rs.len() ==> (#[trigger] rs[i]).error is None && rs[i].skipped is None)
            ==> count_outcome(rs, Outcome::Conflict) == count_conflicts(rs),
    decreases rs.len(),
{
    if rs.len() > 0 {
        lemma_conflict_bucket_within_count(rs.drop_last());
        if forall|i: int| 0 <= i < rs.len() ==> (#[trigger] rs[i]).error is None && rs[i].skipped is None {
            assert forall|i: int| 0 <= i < rs.drop_last().len() implies (#[trigger] rs.drop_last()[i]).error is None
                && rs.drop_last()[i].skipped is None by {
                assert(rs.drop_last()[i] == rs[i]);
            }
            assert(rs.last() == rs[rs.len() - 1]);
        }
    }
}

/// How many levels below the root a repository may be nested and still be
/// found.
pub const MAX_REPO_DEPTH: usize = 5;

/// How many levels below the root the walk goes: the `.git` marker of a
/// repository sits one level below the repository itself.
pub const MAX_SCAN_DEPTH: usize = MAX_REPO_DEPTH + 1;

/// Whether a directory entry marks a repository: a directory named `.git`.
pub fn is_repo_marker(name: &str, is_dir: bool) -> (r: bool)
    ensures
        r == (is_dir && name@ == ".git"@),
{
    is_dir && same_text(name, ".git")
}

/// Where a repository at `abs_path` lies relative to the root: below a
/// non-empty simple root (see `is_simple_path`), a simple path under it is
/// given without the root and its `/` (empty for the root itself), and any
/// other simple path is given whole.
pub open spec fn relative_path_spec(root: Seq<char>, abs_path: Seq<char>) -> Seq<char> {
    if components_prefix(root, abs_path) {
        rel_of(root, abs_path)
    } else {
        abs_path
    }
}

/// The path of a repository relative to the root: `abs_path` with the root
/// taken off, or `abs_path` itself when it does not lie under the root.
pub fn relative_path(root: &str, abs_path: &str) -> (r: String)
    ensures
        is_simple_path(root@) && is_simple_path(abs_path@) && root@.len() > 0 ==> r@ == relative_path_spec(
            root@,
            abs_path@,
        ),
{
    match crate::platform::strip_root(root, abs_path) {
        Some(rel) => rel,
        None => String::from_str(abs_path),
    }
}

/// The record of a repository found at `abs_path` below `root`, from the
/// replies to its `CurrentBranch` and `RemoteOrigin` queries.
pub fn repo_info(
    root: &str,
    abs_path: String,
    branch_reply: &GitReply,
    origin_reply: &GitReply,
) -> (r: RepoInfo)
    ensures
        r@.abs_path == abs_path@,
        r@.branch == branch_of(branch_reply@),
        r@.has_remote == origin_reply@.ok,
        is_simple_path(root@) && is_simple_path(abs_path@) && root@.len() > 0 ==> r@.rel_path
            == relative_path_spec(root@, abs_path@),
{
    let rel_path = relative_path(root, abs_path.as_str());
    RepoInfo {
        rel_path,
        abs_path,
        branch: crate::git::branch_from(branch_reply),
        has_remote: origin_reply.ok,
    }
}

pub open spec fn info_views(v: Seq<RepoInfo>) -> Seq<RepoInfoView> {
    v.map_values(|r: RepoInfo| r@)
}

/// Whether `s` is in ascending order of relative path.
pub open spec fn sorted_by_path(s: Seq<RepoInfoView>) -> bool {
    forall|i: int, j: int|
        0 <= i < j < s.len() ==> !text_lt(#[trigger] s[j].rel_path, #[trigger] s[i].rel_path)
}

/// The repositories of `v` in ascending order of relative path.
pub fn sort_repos(v: Vec<RepoInfo>) -> (r: Vec<RepoInfo>)
    ensures
        sorted_by_path(info_views(r@)),
        info_views(r@).to_multiset() == info_views(v@).to_multiset(),
{
    broadcast use vstd::seq_lib::group_to_multiset_ensures;

    let mut out: Vec<RepoInfo> = Vec::new();
    let mut i: usize = 0;
    proof {
        assert(info_views(v@).take(0) =~= info_views(out@));
    }
    while i < v.len()
        invariant
            i <= v@.len(),
            sorted_by_path(info_views(out@)),
            info_views(out@).to_multiset() == info_views(v@).take(i as int).to_multiset(),
        decreases v@.len() - i,
    {
        let x = v[i].clone();
        let mut p: usize = 0;
        while p < out.len() && !less_text(x.rel_path.as_str(), out[p].rel_path.as_str())
            invariant
                p <= out@.len(),
                forall|k: int| 0 <= k < p ==> !text_lt(x.rel_path@, #[trigger] out@[k].rel_path@),
            decreases out@.len() - p,
        {
            p = p + 1;
        }
        let ghost before = info_views(out@);
        let ghost xv = x@;
        out.insert(p, x);
        proof {
            assert(info_views(out@) =~= before.insert(p as int, xv));
            let n = info_views(out@);
            assert forall|a: int, b: int| 0 <= a < b < n.len() implies !text_lt(
                #[trigger] n[b].rel_path,
                #[trigger] n[a].rel_path,
            ) by {
                if a < p && b < p {
                    assert(n[a] == before[a] && n[b] == before[b]);
                } else if a < p && b == p {
                    assert(n[a] == before[a]);
                    assert(before[a] == out@[a]@);
                } else if a < p {
                    assert(n[a] == before[a] && n[b] == before[b - 1]);
                    assert(before[a] == out@[a]@);
                    if text_lt(n[b].rel_path, n[a].rel_path) {
                        lemma_text_lt_asym(xv.rel_path, before[p as int].rel_path);
                        crate::text::lemma_text_lt_total_or_eq(before[a].rel_path, xv.rel_path);
                        if text_lt(before[a].rel_path, xv.rel_path) {
                            lemma_text_lt_trans(before[b - 1].rel_path, before[a].rel_path, xv.rel_path);
                            lemma_text_lt_trans(before[b - 1].rel_path, xv.rel_path, before[p as int].rel_path);
                        } else {
                            lemma_text_lt_trans(before[b - 1].rel_path, xv.rel_path, before[p as int].rel_path);
                        }
                    }
                } else if a == p {
                    assert(n[b] == before[b - 1]);
                    if text_lt(before[b - 1].rel_path, xv.rel_path) {
                        if b - 1 == p {
                            lemma_text_lt_asym(xv.rel_path, before[p as int].rel_path);
                        } else {
                            lemma_text_lt_trans(before[b - 1].rel_path, xv.rel_path, before[p as int].rel_path);
                        }
                    }
                } else {
                    assert(n[a] == before[a - 1] && n[b] == before[b - 1]);
                }
            }
            assert(info_views(v@).take(i + 1) =~= info_views(v@).take(i as int).push(v@[i as int]@));
            vstd::seq_lib::to_multiset_insert(before, p as int, xv);
            vstd::seq_lib::to_multiset_build(info_views(v@).take(i as int), v@[i as int]@);
        }
        i = i + 1;
    }
    proof {
        assert(info_views(v@).take(i as int) =~= info_views(v@));
    }
    out
}

} // verus!
