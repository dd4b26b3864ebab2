//! A sync run over every repo found: announces each repo, skips the disabled
//! ones, and drives the pull engine of the others, collecting one result per
//! repo in order.

use vstd::prelude::*;
use crate::config::{AppConfig, DirtyPolicy, RepoSettings, RepoSettingsView};
use crate::git::{GitOp, GitOpView, GitReply, GitReplyView};
use crate::pull::{initial, next, wf, PullAction, PullActionView, PullMachine, PullView};
use crate::repos::{PullResult, PullResultView, RepoInfo, RepoInfoView, SyncReport};

verus! {

/// What the run asks for next.
#[derive(Debug)]
pub enum SyncAction {
    /// Repo `index` of `total` (at `rel_path`) starts now.
    Progress { index: usize, total: usize, rel_path: String },
    /// Run `op` in the repository at `repo_path` and hand back its reply.
    Run { repo_path: String, op: GitOp },
    /// Every repo has its result.
    Finished,
}

pub enum SyncActionView {
    Progress { index: nat, total: nat, rel_path: Seq<char> },
    Run { repo_path: Seq<char>, op: GitOpView },
    Finished,
}

impl View for SyncAction {
    type V = SyncActionView;

    open spec fn view(&self) -> SyncActionView {
        match self {
            SyncAction::Progress { index, total, rel_path } => SyncActionView::Progress {
                index: *index as nat,
                total: *total as nat,
                rel_path: rel_path@,
            },
            SyncAction::Run { repo_path, op } => SyncActionView::Run {
                repo_path: repo_path@,
                op: op@,
            },
            SyncAction::Finished => SyncActionView::Finished,
        }
    }
}

pub enum StageView {
    Announced,
    Pulling(PullView),
    Done,
}

pub struct SyncView {
    pub root: Seq<char>,
    pub started_at: Seq<char>,
    pub repos: Seq<RepoInfoView>,
    pub settings: Seq<RepoSettingsView>,
    pub policy: DirtyPolicy,
    /// The repo being worked on; all before it have their result.
    pub index: nat,
    pub results: Seq<PullResultView>,
    pub stage: StageView,
}

pub open spec fn disabled_message() -> Seq<char> {
    "disabled"@
}

/// The result recorded for a repo that is switched off.
pub open spec fn disabled_result(repo: RepoInfoView) -> PullResultView {
    PullResultView {
        repo,
        original_branch: repo.branch,
        branches: Seq::empty(),
        had_local_changes: false,
        stash_conflict: false,
        skipped: Some(disabled_message()),
        error: None,
    }
}

/// Announces the repo at `v.index`, or finishes when there is none left.
pub open spec fn begin(v: SyncView) -> (SyncView, SyncActionView) {
    if v.index >= v.repos.len() {
        (SyncView { stage: StageView::Done, ..v }, SyncActionView::Finished)
    } else {
        (
            SyncView { stage: StageView::Announced, ..v },
            SyncActionView::Progress {
                index: v.index,
                total: v.repos.len(),
                rel_path: v.repos[v.index as int].rel_path,
            },
        )
    }
}

/// A reply that stands for no reply: a failure with no output.
pub open spec fn blank_failure() -> GitReplyView {
    GitReplyView { ok: false, stdout: Seq::empty(), stderr: Seq::empty() }
}

/// One step of the run. `r` is the reply to the last `Run`; after a
/// `Progress` it is ignored.
pub open spec fn sync_next(v: SyncView, r: Option<GitReplyView>) -> (SyncView, SyncActionView) {
    match v.stage {
        StageView::Announced => {
            let i = v.index as int;
            if !v.settings[i].enabled {
                begin(
                    SyncView {
                        results: v.results.push(disabled_result(v.repos[i])),
                        index: v.index + 1,
                        ..v
                    },
                )
            } else {
                (
                    SyncView {
                        stage: StageView::Pulling(initial(v.repos[i], v.settings[i], v.policy)),
                        ..v
                    },
                    SyncActionView::Run {
                        repo_path: v.repos[i].abs_path,
                        op: GitOpView::CurrentBranch,
                    },
                )
            }
        },
        StageView::Pulling(p) => {
            let reply = match r {
                Some(x) => x,
                None => blank_failure(),
            };
            let (p2, a) = next(p, reply);
            match a {
                PullActionView::Finished => begin(
                    SyncView { results: v.results.push(p2.result), index: v.index + 1, ..v },
                ),
                PullActionView::Run(op) => (
                    SyncView { stage: StageView::Pulling(p2), ..v },
                    SyncActionView::Run { repo_path: v.repos[v.index as int].abs_path, op },
                ),
            }
        },
        StageView::Done => (v, SyncActionView::Finished),
    }
}

/// The engine's state after the replies `rs`, one step each, from `s`.
pub open spec fn run_steps(s: PullView, rs: Seq<GitReplyView>) -> PullView
    decreases rs.len(),
{
    if rs.len() == 0 {
        s
    } else {
        next(run_steps(s, rs.drop_last()), rs.last()).0
    }
}

/// Whether `result` is what the pull engine ends with for `repo`, with
/// `settings` and `policy`, after some replies to its operations.
pub open spec fn pulled(
    repo: RepoInfoView,
    settings: RepoSettingsView,
    policy: DirtyPolicy,
    result: PullResultView,
) -> bool {
    exists|rs: Seq<GitReplyView>|
        #![trigger run_steps(initial(repo, settings, policy), rs)]
        run_steps(initial(repo, settings, policy), rs).phase is Done && run_steps(
            initial(repo, settings, policy),
            rs,
        ).result == result
}

/// The result recorded for repo `i` of a run: a switched-off repo's is the
/// disabled result; any other's is what the pull engine ended with for it.
pub open spec fn result_for(v: SyncView, i: int) -> bool {
    if v.settings[i].enabled {
        pulled(v.repos[i], v.settings[i], v.policy, v.results[i])
    } else {
        v.results[i] == disabled_result(v.repos[i])
    }
}

/// The invariant of a run.
pub open spec fn sync_wf(v: SyncView) -> bool {
    &&& v.settings.len() == v.repos.len()
    &&& v.index <= v.repos.len()
    &&& v.results.len() == v.index
    &&& forall|i: int| 0 <= i < v.index ==> (#[trigger] v.results[i]).repo == v.repos[i]
    &&& forall|i: int| 0 <= i < v.index ==> #[trigger] result_for(v, i)
    &&& match v.stage {
        StageView::Announced => v.index < v.repos.len(),
        StageView::Pulling(p) => {
            &&& v.index < v.repos.len()
            &&& wf(p)
            &&& p.result.repo == v.repos[v.index as int]
            &&& v.settings[v.index as int].enabled
            &&& exists|rs: Seq<GitReplyView>|
                #[trigger] run_steps(
                    initial(v.repos[v.index as int], v.settings[v.index as int], v.policy),
                    rs,
                ) == p
        },
        StageView::Done => v.index == v.repos.len(),
    }
}

/// Every step of a run keeps its invariant.
pub proof fn lemma_sync_step_keeps_wf(v: SyncView, r: Option<GitReplyView>)
    requires
        sync_wf(v),
    ensures
        sync_wf(sync_next(v, r).0),
{
    let n = sync_next(v, r).0;
    match v.stage {
        StageView::Pulling(p) => {
            let reply = match r {
                Some(x) => x,
                None => blank_failure(),
            };
            crate::pull::lemma_step_keeps_wf(p, reply);
            let i0 = v.index as int;
            let init = initial(v.repos[i0], v.settings[i0], v.policy);
            let rs0 = choose|rs: Seq<GitReplyView>| #[trigger] run_steps(init, rs) == p;
            let rs1 = rs0.push(reply);
            assert(rs1.drop_last() =~= rs0);
            assert(run_steps(init, rs1) == next(p, reply).0);
            assert forall|i: int| 0 <= i < n.index implies (#[trigger] n.results[i]).repo == n.repos[i]
                && result_for(n, i) by {
                if i < v.index {
                    assert(n.results[i] == v.results[i]);
                    assert(result_for(v, i));
                } else {
                    assert(run_steps(init, rs1).phase is Done);
                }
            }
        },
        StageView::Announced => {
            let i0 = v.index as int;
            let init = initial(v.repos[i0], v.settings[i0], v.policy);
            assert(run_steps(init, Seq::<GitReplyView>::empty()) == init);
            assert forall|i: int| 0 <= i < n.index implies (#[trigger] n.results[i]).repo == n.repos[i]
                && result_for(n, i) by {
                if i < v.index {
                    assert(n.results[i] == v.results[i]);
                    assert(result_for(v, i));
                }
            }
        },
        StageView::Done => {},
    }
}

/// A run that finishes has exactly one result per repo, in the order of the
/// repos, each about its own repo.
pub proof fn lemma_sync_results_match_repos(v: SyncView, r: Option<GitReplyView>)
    requires
        sync_wf(v),
        sync_next(v, r).1 is Finished,
    ensures
        sync_next(v, r).0.results.len() == v.repos.len(),
        forall|i: int|
            0 <= i < v.repos.len() ==> (#[trigger] sync_next(v, r).0.results[i]).repo == v.repos[i],
{
    lemma_sync_step_keeps_wf(v, r);
}

/// A repo that is switched off is left alone: no git operation is run in it,
/// and it is recorded as skipped with the reason "disabled".
pub proof fn lemma_disabled_repo_untouched(v: SyncView, r: Option<GitReplyView>)
    requires
        sync_wf(v),
        v.stage is Announced,
        !v.settings[v.index as int].enabled,
    ensures
        !(sync_next(v, r).1 is Run),
        sync_next(v, r).0.results.last() == disabled_result(v.repos[v.index as int]),
        sync_next(v, r).0.index == v.index + 1,
{
}

/// Every git operation of a run is run in the repository being worked on,
/// and that repository is switched on: nothing is ever run in a disabled one.
pub proof fn lemma_operations_target_current_repo(v: SyncView, r: Option<GitReplyView>)
    requires
        sync_wf(v),
    ensures
        sync_next(v, r).1 matches SyncActionView::Run { repo_path, op } ==> v.index < v.repos.len()
            && repo_path == v.repos[v.index as int].abs_path && v.settings[v.index as int].enabled,
{
}

enum Stage {
    Announced,
    Pulling(PullMachine),
    Done,
}

/// A sync run in progress.
pub struct SyncRun {
    root: String,
    started_at: String,
    repos: Vec<RepoInfo>,
    settings: Vec<RepoSettings>,
    policy: DirtyPolicy,
    index: usize,
    results: Vec<PullResult>,
    stage: Stage,
}

pub open spec fn settings_views(v: Seq<RepoSettings>) -> Seq<RepoSettingsView> {
    v.map_values(|s: RepoSettings| s@)
}

pub open spec fn repo_views(v: Seq<RepoInfo>) -> Seq<RepoInfoView> {
    v.map_values(|r: RepoInfo| r@)
}

impl View for SyncRun {
    type V = SyncView;

    closed spec fn view(&self) -> SyncView {
        SyncView {
            root: self.root@,
            started_at: self.started_at@,
            repos: repo_views(self.repos@),
            settings: settings_views(self.settings@),
            policy: self.policy,
            index: self.index as nat,
            results: crate::repos::result_views(self.results@),
            stage: match self.stage {
                Stage::Announced => StageView::Announced,
                Stage::Pulling(m) => StageView::Pulling(m@),
                Stage::Done => StageView::Done,
            },
        }
    }
}

impl SyncRun {
    #[verifier::type_invariant]
    spec fn keeps_wf(self) -> bool {
        sync_wf(self@)
    }

    /// Advances the run. `reply` is the reply to the last `Run` action; after
    /// a `Progress` action it is ignored.
    pub fn step(self, reply: Option<&GitReply>) -> (r: (SyncRun, SyncAction))
        ensures
            sync_wf(self@),
            sync_wf(r.0@),
            (r.0@, r.1@) == sync_next(
                self@,
                match reply {
                    Some(x) => Some(x@),
                    None => None,
                },
            ),
    {
        proof {
            use_type_invariant(&self);
        }
        let ghost v = self@;
        let ghost rv = match reply {
            Some(x) => Some(x@),
            None => None,
        };
        proof {
            lemma_sync_step_keeps_wf(v, rv);
        }
        let SyncRun { root, started_at, repos, settings, policy, index, results, stage } = self;
        proof {
            assert(repos@.len() == repos.len());
        }
        let (index, results, stage, action) = match stage {
            Stage::Announced => {
                proof {
                    assert(settings_views(settings@)[index as int] == settings@[index as int]@);
                    assert(repo_views(repos@)[index as int] == repos@[index as int]@);
                }
                if !settings[index].enabled {
                    let repo = &repos[index];
                    let pr = PullResult {
                        repo: repo.clone(),
                        original_branch: repo.branch.clone(),
                        branches: Vec::new(),
                        had_local_changes: false,
                        stash_conflict: false,
                        skipped: Some(String::from_str("disabled")),
                        error: None,
                    };
                    let mut results = results;
                    let ghost before = results@;
                    results.push(pr);
                    proof {
                        assert(crate::repos::branch_views(pr.branches@)
                            =~= Seq::<crate::repos::BranchResultView>::empty());
                        assert(pr@ == disabled_result(repos@[index as int]@));
                        assert(crate::repos::result_views(results@)
                            =~= crate::repos::result_views(before).push(pr@));
                    }
                    let (stage, action) = announce(&repos, index + 1);
                    (index + 1, results, stage, action)
                } else {
                    let (m, op) = crate::pull::pull(&repos[index], settings[index].clone(), policy);
                    let repo_path = repos[index].abs_path.clone();
                    (index, results, Stage::Pulling(m), SyncAction::Run { repo_path, op })
                }
            },
            Stage::Pulling(m) => {
                let blank = GitReply::failure(String::new());
                let rep = match reply {
                    Some(x) => x,
                    None => &blank,
                };
                let (m2, a) = m.step(rep);
                match a {
                    PullAction::Finished => {
                        let pr = m2.into_result();
                        let mut results = results;
                        let ghost before = results@;
                        results.push(pr);
                        proof {
                            assert(crate::repos::result_views(results@)
                                =~= crate::repos::result_views(before).push(pr@));
                        }
                        let (stage, action) = announce(&repos, index + 1);
                        (index + 1, results, stage, action)
                    },
                    PullAction::Run(op) => {
                        proof {
                            assert(repo_views(repos@)[index as int] == repos@[index as int]@);
                        }
                        let repo_path = repos[index].abs_path.clone();
                        (index, results, Stage::Pulling(m2), SyncAction::Run { repo_path, op })
                    },
                }
            },
            Stage::Done => (index, results, Stage::Done, SyncAction::Finished),
        };
        (SyncRun { root, started_at, repos, settings, policy, index, results, stage }, action)
    }

    /// The report of the run, stamped with the current time as its end. Each
    /// result is about its own repo, in order: a switched-off repo's is the
    /// disabled result; any other's is what the pull
    /// engine ended with for that repo, its settings and the run's policy. A
    /// run that has finished has a result for every repo.
    pub fn finish(self) -> (r: SyncReport)
        ensures
            r@.root == self@.root,
            r@.started_at == self@.started_at,
            r@.results == self@.results,
            sync_wf(self@),
            self@.stage is Done ==> r@.results.len() == self@.repos.len(),
            forall|i: int|
                0 <= i < r@.results.len() ==> (#[trigger] r@.results[i]).repo == self@.repos[i] && result_for(
                    self@,
                    i,
                ),
    {
        proof {
            use_type_invariant(&self);
        }
        let finished_at = crate::platform::now_rfc3339();
        let SyncRun { root, started_at, results, .. } = self;
        SyncReport { started_at, finished_at, root, results }
    }
}

/// The stage and action that announce repo `index`, or finish the run.
fn announce(repos: &Vec<RepoInfo>, index: usize) -> (r: (Stage, SyncAction))
    requires
        index <= repos@.len(),
    ensures
        match begin(
            SyncView {
                root: Seq::empty(),
                started_at: Seq::empty(),
                repos: repo_views(repos@),
                settings: Seq::empty(),
                policy: DirtyPolicy::Stash,
                index: index as nat,
                results: Seq::empty(),
                stage: StageView::Done,
            },
        ) {
            (v, a) => r.1@ == a && match (r.0, v.stage) {
                (Stage::Announced, StageView::Announced) => true,
                (Stage::Done, StageView::Done) => true,
                _ => false,
            },
        },
{
    if index >= repos.len() {
        (Stage::Done, SyncAction::Finished)
    } else {
        proof {
            assert(repo_views(repos@)[index as int] == repos@[index as int]@);
        }
        let total = repos.len();
        let rel_path = repos[index].rel_path.clone();
        (Stage::Announced, SyncAction::Progress { index, total, rel_path })
    }
}

/// Starts a sync of `repos` under `root` with the per-repo settings and the
/// dirty-tree policy of `config`, stamped with the current time as its start;
/// returns the run and its first action.
pub fn pull_all(root: &str, repos: Vec<RepoInfo>, config: &AppConfig) -> (r: (SyncRun, SyncAction))
    ensures
        r.0@.root == root@,
        r.0@.repos == repo_views(repos@),
        r.0@.settings.len() == repos@.len(),
        forall|i: int|
            0 <= i < repos@.len() ==> #[trigger] r.0@.settings[i] == config.effective_settings(
                repos@[i].rel_path@,
            ),
        r.0@.policy == config.on_dirty,
        r.0@.index == 0,
        r.0@.results.len() == 0,
        (r.0@, r.1@) == begin(r.0@),
        sync_wf(r.0@),
{
    let mut settings: Vec<RepoSettings> = Vec::new();
    let mut i: usize = 0;
    while i < repos.len()
        invariant
            i <= repos@.len(),
            settings@.len() == i,
            forall|k: int|
                0 <= k < i ==> #[trigger] settings@[k]@ == config.effective_settings(
                    repos@[k].rel_path@,
                ),
        decreases repos@.len() - i,
    {
        settings.push(config.settings_for(repos[i].rel_path.as_str()));
        i = i + 1;
    }
    let started_at = crate::platform::now_rfc3339();
    let (stage, action) = announce(&repos, 0);
    let run = SyncRun {
        root: String::from_str(root),
        started_at,
        repos,
        settings,
        policy: config.on_dirty,
        index: 0,
        results: Vec::new(),
        stage,
    };
    proof {
        assert(crate::repos::result_views(run.results@) =~= Seq::<PullResultView>::empty());
        assert(settings_views(settings@).len() == settings@.len());
        assert forall|k: int| 0 <= k < repos@.len() implies #[trigger] run@.settings[k]
            == config.effective_settings(repos@[k].rel_path@) by {
            assert(settings_views(settings@)[k] == settings@[k]@);
        }
    }
    (run, action)
}

} // verus!
