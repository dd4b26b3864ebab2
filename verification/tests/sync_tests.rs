use repo_sync::config::{AppConfig, RepoSettings};
use repo_sync::git::GitReply;
use repo_sync::repos::RepoInfo;
use repo_sync::sync::{pull_all, SyncAction};

fn info(rel: &str, has_remote: bool) -> RepoInfo {
    RepoInfo {
        rel_path: rel.to_string(),
        abs_path: format!("/r/{}", rel),
        branch: "main".to_string(),
        has_remote,
    }
}

#[test]
fn run_announces_each_repo_and_skips_disabled_ones() {
    let mut cfg = AppConfig::with_root("/r".to_string());
    cfg.repo_enabled.insert("b".into(), false);
    let repos = vec![info("a", false), info("b", true), info("c", false)];
    let (run, a) = pull_all("/r", repos, &cfg);
    match a {
        SyncAction::Progress { index, total, rel_path } => {
            assert_eq!((index, total, rel_path.as_str()), (0, 3, "a"));
        },
        _ => panic!("expected progress"),
    }
    let (run, a) = run.step(None);
    match &a {
        SyncAction::Run { repo_path, op } => {
            assert_eq!(repo_path, "/r/a");
            assert_eq!(op.args(), vec!["symbolic-ref", "--short", "HEAD"]);
        },
        _ => panic!("expected a git operation"),
    }
    let reply = GitReply::from_raw(true, "main", "");
    let (run, a) = run.step(Some(&reply));
    assert!(matches!(a, SyncAction::Progress { index: 1, total: 3, .. }));
    // "b" is disabled: no git operation, straight to "c".
    let (run, a) = run.step(None);
    assert!(matches!(a, SyncAction::Progress { index: 2, total: 3, .. }));
    let (run, a) = run.step(None);
    assert!(matches!(a, SyncAction::Run { .. }));
    let (run, a) = run.step(Some(&GitReply::from_raw(false, "", "")));
    assert!(matches!(a, SyncAction::Finished));
    let report = run.finish();
    assert_eq!(report.root, "/r");
    assert_eq!(report.results.len(), 3);
    assert_eq!(report.results[0].skipped.as_deref(), Some("no origin remote"));
    assert_eq!(report.results[1].skipped.as_deref(), Some("disabled"));
    assert_eq!(report.results[1].original_branch, "main");
    assert_eq!(report.results[2].original_branch, "DETACHED");
    assert!(!report.started_at.is_empty());
    assert!(!report.finished_at.is_empty());
    assert_eq!(report.summary(), (0, 0, 3, 0, 0));
}

#[test]
fn empty_run_finishes_at_once() {
    let cfg = AppConfig::with_root("/r".to_string());
    let (run, a) = pull_all("/r", vec![], &cfg);
    assert!(matches!(a, SyncAction::Finished));
    assert!(run.finish().results.is_empty());
}

#[test]
fn settings_disable_wins_over_legacy_enable() {
    let mut cfg = AppConfig::with_root("/r".to_string());
    cfg.repo_enabled.insert("a".into(), true);
    let mut s = RepoSettings::default();
    s.enabled = false;
    cfg.repo_settings.insert("a".into(), s);
    let (run, _) = pull_all("/r", vec![info("a", true)], &cfg);
    let (run, a) = run.step(None);
    assert!(matches!(a, SyncAction::Finished));
    assert_eq!(run.finish().results[0].skipped.as_deref(), Some("disabled"));
}
