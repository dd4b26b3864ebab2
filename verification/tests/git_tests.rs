use repo_sync::git::{
    ahead_behind_from, branch_from, branch_list_from, dirty_from, fetch_error_from, invocation,
    stash_count_from, GitOp, GitReply,
};

#[test]
fn invocations_are_hardened() {
    let inv = invocation(&GitOp::Fetch);
    assert_eq!(inv.program, "git");
    assert_eq!(inv.args, vec!["-c", "core.fsmonitor=", "fetch", "--all", "--prune"]);
    assert_eq!(
        inv.env,
        vec![
            ("GIT_TERMINAL_PROMPT".to_string(), "0".to_string()),
            ("GIT_SSH_COMMAND".to_string(), "ssh -oBatchMode=yes".to_string())
        ]
    );
    assert_eq!(inv.timeout_secs, 180);
    let inv = invocation(&GitOp::AheadBehind("a".into(), "origin/a".into()));
    assert_eq!(inv.args[5], "a...origin/a");
}

#[test]
fn replies_are_trimmed_and_timeouts_named() {
    let r = GitReply::from_raw(true, "  main \n", "\t oops\n");
    assert_eq!(r.stdout, "main");
    assert_eq!(r.stderr, "oops");
    let t = GitReply::timed_out(&GitOp::Fetch);
    assert!(!t.ok);
    assert_eq!(t.stderr, "git fetch timed out after 180s");
    let f = GitReply::failure("No such file".to_string());
    assert_eq!(f.stderr, "No such file");
}

#[test]
fn branch_names_and_detached_head() {
    assert_eq!(branch_from(&GitReply::from_raw(true, "main\n", "")), "main");
    assert_eq!(branch_from(&GitReply::from_raw(false, "main", "")), "DETACHED");
    assert_eq!(branch_from(&GitReply::from_raw(true, " \n", "")), "DETACHED");
}

#[test]
fn tracked_changes_and_stash_counts() {
    assert!(dirty_from(&GitReply::from_raw(true, " M a.rs", "")));
    assert!(!dirty_from(&GitReply::from_raw(true, "\n  \n", "")));
    assert_eq!(stash_count_from(&GitReply::from_raw(true, "s0\n\n  \ns1\n", "")), 2);
    assert_eq!(stash_count_from(&GitReply::from_raw(false, "s0", "")), 0);
    assert_eq!(stash_count_from(&GitReply::from_raw(true, "", "")), 0);
}

#[test]
fn ahead_behind_parsing_matches_str_parse() {
    let p = |s: &str| ahead_behind_from(&GitReply::from_raw(true, s, ""));
    assert_eq!(p("3\t4"), Some((3, 4)));
    assert_eq!(p("  +3   7 extra"), Some((3, 7)));
    assert_eq!(p("3"), None);
    assert_eq!(p(""), None);
    assert_eq!(p("-1 2"), None);
    assert_eq!(p("4294967295 0"), Some((4294967295, 0)));
    assert_eq!(p("4294967296 0"), None);
    assert_eq!(p("+ 1"), None);
    assert_eq!(ahead_behind_from(&GitReply::from_raw(false, "1 2", "")), None);
}

#[test]
fn branch_listing_splits_at_first_bar() {
    let v = branch_list_from(&GitReply::from_raw(true, "main|origin/main\n|x\nfeat\nodd|a|b\r\n", ""));
    assert_eq!(
        v,
        vec![
            ("main".to_string(), "origin/main".to_string()),
            ("feat".to_string(), "".to_string()),
            ("odd".to_string(), "a|b".to_string())
        ]
    );
    assert!(branch_list_from(&GitReply::from_raw(false, "main|x", "")).is_empty());
}

#[test]
fn fetch_error_is_last_line() {
    assert_eq!(fetch_error_from(&GitReply::from_raw(false, "", "a\nb\r\n")), "b");
    assert_eq!(fetch_error_from(&GitReply::from_raw(false, "", "")), "git fetch failed");
}

#[test]
fn head_commit_is_read_and_restored() {
    assert_eq!(GitOp::HeadCommit.args(), vec!["rev-parse", "HEAD"]);
    assert_eq!(GitOp::CheckoutDetached("abc".into()).args(), vec!["checkout", "--detach", "abc"]);
    assert_eq!(repo_sync::git::commit_from(&GitReply::from_raw(true, "abc123\n", "")), "abc123");
    assert_eq!(repo_sync::git::commit_from(&GitReply::from_raw(false, "abc123", "bad")), "");
}
