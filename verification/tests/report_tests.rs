use repo_sync::repos::{
    is_repo_marker, repo_info, sort_repos, BranchResult, BranchStatus, PullResult, RepoInfo,
    SyncReport,
};
use repo_sync::git::GitReply;
use repo_sync::reports::{
    date_stamp, expired_reports, is_date_stamp_text, list_reports, report_file_name,
    today_report_name,
};

fn repo(rel: &str) -> RepoInfo {
    RepoInfo { rel_path: rel.into(), abs_path: format!("/r/{}", rel), branch: "main".into(), has_remote: true }
}

fn result(original: &str, statuses: &[BranchStatus]) -> PullResult {
    PullResult {
        repo: repo("x"),
        original_branch: original.into(),
        branches: statuses
            .iter()
            .map(|s| BranchResult { branch: "b".into(), status: *s })
            .collect(),
        had_local_changes: false,
        stash_conflict: false,
        skipped: None,
        error: None,
    }
}

#[test]
fn summary_puts_each_repo_in_one_bucket() {
    let mut failed = result("main", &[BranchStatus::Diverged { ahead: 1, behind: 1 }]);
    failed.error = Some("boom".into());
    let mut skipped = result("main", &[]);
    skipped.skipped = Some("disabled".into());
    let conflict = result("main", &[BranchStatus::FastForwarded { commits: 2 }, BranchStatus::Diverged { ahead: 1, behind: 3 }]);
    let mut stash = result("main", &[]);
    stash.stash_conflict = true;
    let updated = result("main", &[BranchStatus::FastForwarded { commits: 2 }, BranchStatus::UpToDate]);
    let clean = result("main", &[BranchStatus::UpToDate, BranchStatus::NoUpstream]);
    let report = SyncReport {
        started_at: "s".into(),
        finished_at: "f".into(),
        root: "/r".into(),
        results: vec![failed, skipped, conflict, stash, updated, clean],
    };
    assert_eq!(report.summary(), (1, 1, 1, 1, 2));
    // The failed repo also diverged: it needs attention though it counts as failed.
    assert_eq!(report.conflict_count(), 3);
    assert!(!report.is_legacy());
    assert_eq!(report.results[4].updated_count(), 1);
    let copy = report.clone();
    assert_eq!(copy.results.len(), 6);
    assert_eq!(copy.summary(), report.summary());
}

#[test]
fn legacy_reports_have_no_starting_branch() {
    let legacy = SyncReport { results: vec![result("", &[]), result("", &[])], ..SyncReport::default() };
    assert!(legacy.is_legacy());
    assert!(!SyncReport::default().is_legacy());
    let mixed = SyncReport { results: vec![result("", &[]), result("main", &[])], ..SyncReport::default() };
    assert!(!mixed.is_legacy());
}

#[test]
fn report_names_are_listed_newest_first() {
    let names: Vec<String> = ["2024-01-02.json", "notes.txt", "2024-03-01.json", "2023-12-31.json", ".json"]
        .iter()
        .map(|s| s.to_string())
        .collect();
    assert_eq!(list_reports(names), vec!["2024-03-01", "2024-01-02", "2023-12-31", ""]);
    assert_eq!(report_file_name("2024-05-06"), "2024-05-06.json");
}

#[test]
fn old_reports_expire_and_other_files_stay() {
    let stems: Vec<String> = ["2024-03-01", "2024-01-02", "notes", "2023-12-31", "1999-xx-01"]
        .iter()
        .map(|s| s.to_string())
        .collect();
    assert_eq!(expired_reports(&stems, "2024-01-02"), vec!["2023-12-31"]);
    assert!(is_date_stamp_text("2024-01-02"));
    assert!(!is_date_stamp_text("2024-1-02x"));
    assert_eq!(date_stamp(2024, 1, 2), "2024-01-02");
    assert_eq!(date_stamp(987, 12, 31), "0987-12-31");
    assert_eq!(date_stamp(12345, 1, 1), "+12345-01-01");
    assert_eq!(date_stamp(-5, 1, 1), "-0005-01-01");
    let today = chrono::Local::now().format("%Y-%m-%d").to_string() + ".json";
    assert_eq!(today_report_name(), today);
}

#[test]
fn scanning_helpers() {
    assert!(is_repo_marker(".git", true));
    assert!(!is_repo_marker(".git", false));
    assert!(!is_repo_marker("git", true));
    let r = repo_info(
        "/r",
        "/r/a/b".into(),
        &GitReply::from_raw(true, "dev\n", ""),
        &GitReply::from_raw(false, "", "no remote"),
    );
    assert_eq!(r.rel_path, "a/b");
    assert_eq!(r.abs_path, "/r/a/b");
    assert_eq!(r.branch, "dev");
    assert!(!r.has_remote);
    let sorted = sort_repos(vec![repo("b"), repo("a/z"), repo("a")]);
    let names: Vec<&str> = sorted.iter().map(|r| r.rel_path.as_str()).collect();
    assert_eq!(names, vec!["a", "a/z", "b"]);
}

#[test]
fn pruning_keeps_the_last_keep_days_of_reports() {
    let today = chrono::Local::now().date_naive();
    let stamp = |d: chrono::NaiveDate| d.format("%Y-%m-%d").to_string();
    let day = |n: u64| stamp(today.checked_sub_days(chrono::Days::new(n)).unwrap());
    let stems: Vec<String> = vec![day(0), day(1), day(2), day(30), "notes".to_string(), day(400)];
    assert_eq!(repo_sync::reports::prune(1, &stems), vec![day(1), day(2), day(30), day(400)]);
    assert_eq!(repo_sync::reports::prune(0, &stems), vec![day(1), day(2), day(30), day(400)]);
    assert_eq!(repo_sync::reports::prune(3, &stems), vec![day(30), day(400)]);
    assert_eq!(repo_sync::reports::prune(90, &stems), vec![day(400)]);
    assert!(repo_sync::reports::prune(1000, &stems).is_empty());
}

#[test]
fn repos_nested_five_levels_deep_are_reached() {
    assert_eq!(repo_sync::repos::MAX_REPO_DEPTH, 5);
    // The `.git` marker of a repository five levels down sits on level six.
    assert_eq!(repo_sync::repos::MAX_SCAN_DEPTH, 6);
}

#[test]
fn relative_paths_drop_the_root() {
    assert_eq!(repo_sync::repos::relative_path("/home/me/code", "/home/me/code/svc/api"), "svc/api");
    assert_eq!(repo_sync::repos::relative_path("/home/me/code", "/home/me/code"), "");
    assert_eq!(repo_sync::repos::relative_path("/", "/srv/x"), "srv/x");
    // Only whole components count: a sibling folder is not under the root.
    assert_eq!(repo_sync::repos::relative_path("/home/me/code", "/home/me/code-old/x"), "/home/me/code-old/x");
}
