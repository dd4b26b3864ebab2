use repo_sync::config::{DirtyPolicy, RepoSettings};
use repo_sync::git::{GitOp, GitReply};
use repo_sync::pull::{pull, PullAction, PullMachine};
use repo_sync::repos::{BranchStatus, RepoInfo};

fn repo(has_remote: bool) -> RepoInfo {
    RepoInfo {
        rel_path: "svc/api".to_string(),
        abs_path: "/root/svc/api".to_string(),
        branch: "main".to_string(),
        has_remote,
    }
}

fn ok(out: &str) -> GitReply {
    GitReply::from_raw(true, out, "")
}

fn fail(err: &str) -> GitReply {
    GitReply::from_raw(false, "", err)
}

fn args(a: &PullAction) -> Vec<String> {
    match a {
        PullAction::Run(op) => op.args(),
        PullAction::Finished => vec!["<finished>".to_string()],
    }
}

fn step(m: PullMachine, r: GitReply) -> (PullMachine, PullAction) {
    m.step(&r)
}

#[test]
fn repo_without_origin_is_skipped() {
    let (m, op) = pull(&repo(false), RepoSettings::default(), DirtyPolicy::Stash);
    assert_eq!(op.args(), vec!["symbolic-ref", "--short", "HEAD"]);
    let (m, a) = step(m, ok("main\n"));
    assert!(matches!(a, PullAction::Finished));
    assert!(m.is_done());
    let r = m.into_result();
    assert_eq!(r.skipped.as_deref(), Some("no origin remote"));
    assert_eq!(r.original_branch, "main");
    assert!(r.branches.is_empty());
}

#[test]
fn failed_fetch_records_last_error_line() {
    let (m, _) = pull(&repo(true), RepoSettings::default(), DirtyPolicy::Stash);
    let (m, a) = step(m, fail(""));
    // No branch is checked out: the commit is read first.
    assert_eq!(args(&a), vec!["rev-parse", "HEAD"]);
    assert_eq!(m.result().original_branch, "DETACHED");
    let (m, a) = step(m, ok("abc123\n"));
    assert_eq!(args(&a), vec!["fetch", "--all", "--prune"]);
    let (m, a) = step(m, fail("fatal: unable to access\nfatal: could not read from remote\n"));
    assert!(matches!(a, PullAction::Finished));
    assert_eq!(m.result().error.as_deref(), Some("fatal: could not read from remote"));
    let (m, _) = pull(&repo(true), RepoSettings::default(), DirtyPolicy::Stash);
    let (m, _) = step(m, ok("main"));
    let (m, _) = step(m, fail(""));
    assert_eq!(m.result().error.as_deref(), Some("git fetch failed"));
}

#[test]
fn clean_repo_fast_forwards_and_records_each_branch() {
    let (m, _) = pull(&repo(true), RepoSettings::default(), DirtyPolicy::Stash);
    let (m, _) = step(m, ok("main"));
    let (m, a) = step(m, ok(""));
    assert_eq!(args(&a), vec!["status", "--porcelain", "--untracked-files=no"]);
    let (m, a) = step(m, ok(""));
    assert_eq!(
        args(&a),
        vec!["for-each-ref", "--format=%(refname:short)|%(upstream:short)", "refs/heads"]
    );
    let (m, a) = step(m, ok("main|origin/main\r\nfeature|\nold|origin/old\n"));
    assert_eq!(args(&a), vec!["rev-parse", "--verify", "--quiet", "origin/main"]);
    let (m, a) = step(m, ok("abc123"));
    assert_eq!(args(&a), vec!["rev-list", "--left-right", "--count", "main...origin/main"]);
    let (m, a) = step(m, ok("0\t3\n"));
    assert_eq!(args(&a), vec!["merge", "--ff-only", "origin/main"]);
    // feature has no upstream: recorded at once; old's upstream is verified next.
    let (m, a) = step(m, ok(""));
    assert_eq!(args(&a), vec!["rev-parse", "--verify", "--quiet", "origin/old"]);
    let (m, a) = step(m, fail(""));
    assert!(matches!(a, PullAction::Finished));
    let r = m.into_result();
    assert_eq!(r.branches.len(), 3);
    assert_eq!(r.branches[0].branch, "main");
    assert_eq!(r.branches[0].status, BranchStatus::FastForwarded { commits: 3 });
    assert_eq!(r.branches[1].branch, "feature");
    assert_eq!(r.branches[1].status, BranchStatus::NoUpstream);
    assert_eq!(r.branches[2].status, BranchStatus::NoUpstream);
    assert_eq!(r.updated_count(), 1);
    assert!(!r.has_conflict());
    assert!(!r.had_local_changes);
}

#[test]
fn other_branches_move_with_branch_force_and_divergence_is_recorded() {
    let (m, _) = pull(&repo(true), RepoSettings::default(), DirtyPolicy::Stash);
    let (m, _) = step(m, ok("main"));
    let (m, _) = step(m, ok(""));
    let (m, _) = step(m, ok(""));
    let (m, _) = step(m, ok("dev|origin/dev\nmain|origin/main\ntopic|origin/topic"));
    let (m, _) = step(m, ok(""));
    let (m, a) = step(m, ok("0 2"));
    assert_eq!(args(&a), vec!["branch", "-f", "dev", "origin/dev"]);
    let (m, _) = step(m, fail("error"));
    let (m, _) = step(m, ok(""));
    let (m, a) = step(m, ok("2 5"));
    assert_eq!(args(&a), vec!["rev-parse", "--verify", "--quiet", "origin/topic"]);
    let (m, _) = step(m, ok(""));
    let (m, a) = step(m, ok("0 0"));
    assert!(matches!(a, PullAction::Finished));
    let r = m.into_result();
    // A failed advance counts as diverged; a diverged branch is never moved.
    assert_eq!(r.branches[0].status, BranchStatus::Diverged { ahead: 0, behind: 2 });
    assert_eq!(r.branches[1].status, BranchStatus::Diverged { ahead: 2, behind: 5 });
    assert_eq!(r.branches[2].status, BranchStatus::UpToDate);
    assert!(r.has_conflict());
    assert_eq!(r.updated_count(), 0);
}

#[test]
fn unreadable_counts_mean_no_upstream() {
    let (m, _) = pull(&repo(true), RepoSettings::default(), DirtyPolicy::Stash);
    let (m, _) = step(m, ok("main"));
    let (m, _) = step(m, ok(""));
    let (m, _) = step(m, ok(""));
    let (m, _) = step(m, ok("main|origin/main"));
    let (m, _) = step(m, ok(""));
    let (m, a) = step(m, ok("x 1"));
    assert!(matches!(a, PullAction::Finished));
    assert_eq!(m.result().branches[0].status, BranchStatus::NoUpstream);
}

#[test]
fn dirty_tree_is_stashed_and_restored() {
    let (m, _) = pull(&repo(true), RepoSettings::default(), DirtyPolicy::Stash);
    let (m, _) = step(m, ok("main"));
    let (m, _) = step(m, ok(""));
    let (m, a) = step(m, ok(" M src/lib.rs\n"));
    assert_eq!(args(&a), vec!["stash", "list"]);
    let (m, a) = step(m, ok("stash@{0}: old\n"));
    assert_eq!(args(&a), vec!["stash", "push", "-m", "repo-sync: auto-stash before update"]);
    let (m, a) = step(m, ok(""));
    assert_eq!(args(&a), vec!["stash", "list"]);
    let (m, a) = step(m, ok("stash@{0}: new\nstash@{1}: old\n"));
    assert_eq!(args(&a), vec!["for-each-ref", "--format=%(refname:short)|%(upstream:short)", "refs/heads"]);
    let (m, a) = step(m, ok(""));
    assert_eq!(args(&a), vec!["stash", "apply"]);
    let (m, a) = step(m, ok(""));
    assert_eq!(args(&a), vec!["stash", "drop"]);
    let (m, a) = step(m, fail(""));
    assert!(matches!(a, PullAction::Finished));
    let r = m.into_result();
    assert!(r.had_local_changes);
    assert!(!r.stash_conflict);
}

#[test]
fn conflicting_restore_keeps_the_stash_and_flags_the_repo() {
    let (m, _) = pull(&repo(true), RepoSettings::default(), DirtyPolicy::Stash);
    let (m, _) = step(m, ok("main"));
    let (m, _) = step(m, ok(""));
    let (m, _) = step(m, ok("M a"));
    let (m, _) = step(m, ok(""));
    let (m, _) = step(m, ok(""));
    let (m, _) = step(m, ok("stash@{0}: new"));
    let (m, a) = step(m, ok(""));
    assert_eq!(args(&a), vec!["stash", "apply"]);
    let (m, a) = step(m, fail("CONFLICT"));
    assert!(matches!(a, PullAction::Finished));
    let r = m.into_result();
    assert!(r.stash_conflict);
    assert!(r.has_conflict());
}

#[test]
fn failed_stash_is_not_restored() {
    let (m, _) = pull(&repo(true), RepoSettings::default(), DirtyPolicy::Stash);
    let (m, _) = step(m, ok("main"));
    let (m, _) = step(m, ok(""));
    let (m, _) = step(m, ok("M a"));
    let (m, _) = step(m, ok(""));
    let (m, a) = step(m, fail("cannot stash"));
    assert_eq!(args(&a), vec!["for-each-ref", "--format=%(refname:short)|%(upstream:short)", "refs/heads"]);
    let (m, a) = step(m, ok(""));
    assert!(matches!(a, PullAction::Finished));
    assert!(!m.result().had_local_changes);
}

#[test]
fn skip_policy_leaves_dirty_repos_alone() {
    let (m, _) = pull(&repo(true), RepoSettings::default(), DirtyPolicy::Skip);
    let (m, _) = step(m, ok("main"));
    let (m, _) = step(m, ok(""));
    let (m, a) = step(m, ok("M a"));
    assert!(matches!(a, PullAction::Finished));
    let r = m.into_result();
    assert_eq!(r.skipped.as_deref(), Some("uncommitted changes"));
    assert!(!r.had_local_changes);
}

#[test]
fn target_branch_is_created_tracking_then_original_is_restored() {
    let settings = RepoSettings {
        enabled: true,
        branches: vec![],
        target_branch: Some("develop".to_string()),
        fallback_branch: None,
    };
    let (m, _) = pull(&repo(true), settings, DirtyPolicy::Stash);
    let (m, _) = step(m, ok("main"));
    let (m, _) = step(m, ok(""));
    let (m, a) = step(m, ok(""));
    assert_eq!(args(&a), vec!["rev-parse", "--verify", "--quiet", "refs/heads/develop"]);
    let (m, a) = step(m, fail(""));
    assert_eq!(args(&a), vec!["checkout", "-b", "develop", "--track", "origin/develop"]);
    let (m, a) = step(m, ok(""));
    assert!(matches!(a, PullAction::Run(GitOp::ListBranches)));
    let (m, _) = step(m, ok("develop|origin/develop\nmain|origin/main"));
    let (m, _) = step(m, ok(""));
    let (m, a) = step(m, ok("0 1"));
    // develop is checked out now, so it moves by merge.
    assert_eq!(args(&a), vec!["merge", "--ff-only", "origin/develop"]);
    let (m, _) = step(m, ok(""));
    let (m, _) = step(m, ok(""));
    let (m, a) = step(m, ok("0 4"));
    assert_eq!(args(&a), vec!["branch", "-f", "main", "origin/main"]);
    let (m, a) = step(m, ok(""));
    assert_eq!(args(&a), vec!["checkout", "main"]);
    let (m, a) = step(m, ok(""));
    assert!(matches!(a, PullAction::Finished));
    assert_eq!(m.result().updated_count(), 2);
}

#[test]
fn failed_target_checkout_is_an_error_and_skips_branches() {
    let settings = RepoSettings {
        enabled: true,
        branches: vec![],
        target_branch: Some("develop".to_string()),
        fallback_branch: None,
    };
    let (m, _) = pull(&repo(true), settings, DirtyPolicy::Stash);
    let (m, _) = step(m, ok("main"));
    let (m, _) = step(m, ok(""));
    let (m, _) = step(m, ok(""));
    let (m, a) = step(m, ok("sha"));
    assert_eq!(args(&a), vec!["checkout", "develop"]);
    let (m, a) = step(m, fail("error"));
    assert!(matches!(a, PullAction::Finished));
    assert_eq!(m.result().error.as_deref(), Some("could not check out develop"));
}

#[test]
fn branch_list_and_fallback_are_honoured() {
    let settings = RepoSettings {
        enabled: true,
        branches: vec!["release".to_string()],
        target_branch: None,
        fallback_branch: Some("my-feature".to_string()),
    };
    let (m, _) = pull(&repo(true), settings, DirtyPolicy::Stash);
    let (m, _) = step(m, ok("main"));
    let (m, _) = step(m, ok(""));
    let (m, _) = step(m, ok(""));
    let (m, a) = step(m, ok("main|origin/main\nrelease|origin/release"));
    assert_eq!(args(&a), vec!["rev-parse", "--verify", "--quiet", "origin/release"]);
    let (m, _) = step(m, ok(""));
    let (m, _) = step(m, ok("0 0"));
    let r = m.result();
    assert_eq!(r.branches.len(), 1);
    assert_eq!(r.branches[0].branch, "release");
}

#[test]
fn landing_checkout_happens_after_the_branches() {
    let settings = RepoSettings {
        enabled: true,
        branches: vec![],
        target_branch: None,
        fallback_branch: Some("my-feature".to_string()),
    };
    let (m, _) = pull(&repo(true), settings, DirtyPolicy::Stash);
    let (m, _) = step(m, ok("main"));
    let (m, _) = step(m, ok(""));
    let (m, _) = step(m, ok(""));
    let (m, a) = step(m, ok(""));
    assert_eq!(args(&a), vec!["checkout", "my-feature"]);
    let (m, a) = step(m, fail(""));
    assert!(matches!(a, PullAction::Finished));
    assert_eq!(m.result().error.as_deref(), Some("could not check out my-feature"));
}

#[test]
fn detached_repo_is_put_back_on_its_commit() {
    let settings = RepoSettings {
        enabled: true,
        branches: vec![],
        target_branch: Some("develop".to_string()),
        fallback_branch: None,
    };
    let (m, _) = pull(&repo(true), settings, DirtyPolicy::Stash);
    let (m, a) = step(m, fail("fatal: ref HEAD is not a symbolic ref"));
    assert_eq!(args(&a), vec!["rev-parse", "HEAD"]);
    let (m, a) = step(m, ok("abc123\n"));
    assert_eq!(args(&a), vec!["fetch", "--all", "--prune"]);
    let (m, _) = step(m, ok(""));
    let (m, a) = step(m, ok(""));
    assert_eq!(args(&a), vec!["rev-parse", "--verify", "--quiet", "refs/heads/develop"]);
    let (m, a) = step(m, ok("sha"));
    assert_eq!(args(&a), vec!["checkout", "develop"]);
    let (m, a) = step(m, ok(""));
    assert!(matches!(a, PullAction::Run(GitOp::ListBranches)));
    let (m, a) = step(m, ok(""));
    assert_eq!(args(&a), vec!["checkout", "--detach", "abc123"]);
    let (m, a) = step(m, ok(""));
    assert!(matches!(a, PullAction::Finished));
    assert!(m.result().error.is_none());
}

#[test]
fn detached_repo_without_a_move_is_left_alone() {
    let (m, _) = pull(&repo(true), RepoSettings::default(), DirtyPolicy::Stash);
    let (m, _) = step(m, fail(""));
    let (m, _) = step(m, ok("abc123"));
    let (m, _) = step(m, ok(""));
    let (m, a) = step(m, ok(""));
    assert!(matches!(a, PullAction::Run(GitOp::ListBranches)));
    let (m, a) = step(m, ok(""));
    assert!(matches!(a, PullAction::Finished));
    assert!(m.result().error.is_none());
}
