use repo_sync::config::AppConfig;
use repo_sync::editors::{detect, editor_defs, open_in, EditorProbe, Platform};
use repo_sync::platform::LocalStamp;
use repo_sync::repos::{BranchResult, BranchStatus, PullResult, RepoInfo, SyncReport};
use repo_sync::scheduler::{
    catch_up_due, compose_last_run_label, fire_due, fire_time, last_run_label, next_target_ms,
    should_catch_up, sleep_before,
};
use repo_sync::state::AppState;
use repo_sync::tray::{
    attention_label, menu_layout, pause_label, status_label, tray_title, tray_tooltip, MenuEntry,
};

fn probe(cli: bool, bundle: bool, icon: Option<Vec<u8>>) -> EditorProbe {
    EditorProbe { cli_found: vec![cli], bundle_found: bundle, icon_png: icon }
}

#[test]
fn catch_up_after_a_day_or_when_unknown() {
    assert!(catch_up_due(None, (0, 0)));
    assert!(!catch_up_due(Some((0, 0)), (86_400, 0)));
    assert!(catch_up_due(Some((0, 0)), (86_400, 1)));
    // Within the same millisecond: a nanosecond past 24 hours counts.
    assert!(!catch_up_due(Some((0, 100)), (86_400, 100)));
    assert!(catch_up_due(Some((0, 100)), (86_400, 101)));
    assert!(catch_up_due(Some((10, 999_999_999)), (86_411, 0)));
    assert!(!catch_up_due(Some((10, 999_999_999)), (86_410, 999_999_999)));
    assert!(should_catch_up(&None, false));
    assert!(!should_catch_up(&None, true));
    assert!(should_catch_up(&Some("yesterday".to_string()), false));
    assert!(should_catch_up(&Some("2000-01-01T00:00:00+00:00".to_string()), false));
    let now = chrono::Local::now().to_rfc3339();
    assert!(!should_catch_up(&Some(now), false));
    assert!(fire_due(false, 10, 10));
    assert!(!fire_due(true, 10, 10));
    assert!(!fire_due(false, 9, 10));
}

#[test]
fn next_fire_time_and_naps() {
    assert_eq!(fire_time(8, 30), (8, 30));
    assert_eq!(fire_time(24, 0), (0, 0));
    assert_eq!(fire_time(8, 60), (0, 0));
    assert_eq!(next_target_ms(Some(1_000), 500), 1_000);
    assert_eq!(next_target_ms(Some(1_000), 1_000), 1_000 + 86_400_000);
    assert_eq!(next_target_ms(None, 7), 7 + 86_400_000);
    assert_eq!(sleep_before(10, 5), None);
    assert_eq!(sleep_before(5, 5), None);
    assert_eq!(sleep_before(0, 999), Some(1));
    assert_eq!(sleep_before(0, 2_500), Some(2));
    assert_eq!(sleep_before(0, 3_600_000), Some(300));
}

#[test]
fn last_run_labels() {
    assert_eq!(compose_last_run_label(&None, None, (2024, 1, 2)), "Never synced");
    assert_eq!(
        compose_last_run_label(&Some("garbage".into()), None, (2024, 1, 2)),
        "Last sync: garbage"
    );
    let l = LocalStamp { year: 2024, month: 1, day: 2, hour: 7, minute: 5 };
    assert_eq!(
        compose_last_run_label(&Some("t".into()), Some(l), (2024, 1, 2)),
        "Last sync: today 07:05"
    );
    assert_eq!(
        compose_last_run_label(&Some("t".into()), Some(l), (2024, 1, 3)),
        "Last sync: Jan 02 07:05"
    );
    assert_eq!(last_run_label(&None), "Never synced");
    assert_eq!(last_run_label(&Some("bad".into())), "Last sync: bad");
    let t = chrono::DateTime::parse_from_rfc3339("2001-03-04T05:06:00+00:00").unwrap();
    let local = t.with_timezone(&chrono::Local);
    let expected = format!("Last sync: {}", local.format("%b %d %H:%M"));
    assert_eq!(last_run_label(&Some("2001-03-04T05:06:00+00:00".into())), expected);
}

#[test]
fn detection_lists_installed_editors_then_reveal() {
    let defs = editor_defs();
    assert_eq!(defs.len(), 9);
    assert_eq!(defs[0].id, "vscode");
    let mut probes: Vec<EditorProbe> = (0..9).map(|_| probe(false, false, None)).collect();
    probes[1] = probe(true, false, None);
    probes[4] = probe(false, true, Some(vec![1, 2, 3]));
    let eds = detect(&probes, Platform::MacOs, None);
    let ids: Vec<&str> = eds.iter().map(|e| e.id.as_str()).collect();
    assert_eq!(ids, vec!["cursor", "zed", "reveal"]);
    assert_eq!(eds[1].icon.as_deref(), Some("data:image/png;base64,AQID"));
    assert_eq!(eds[0].icon, None);
    assert_eq!(eds[2].name, "Reveal in Finder");
    assert!(eds[2].is_reveal);
    let eds = detect(&vec![], Platform::Other, Some(vec![0]));
    assert_eq!(eds.len(), 1);
    assert_eq!(eds[0].name, "Open folder");
    assert_eq!(eds[0].icon, None);
    let eds = detect(&vec![], Platform::Windows, None);
    assert_eq!(eds[0].name, "Reveal in Explorer");
    // Off macOS an application bundle neither lists an editor nor gives it an icon.
    let eds = detect(&probes, Platform::Windows, None);
    let ids: Vec<&str> = eds.iter().map(|e| e.id.as_str()).collect();
    assert_eq!(ids, vec!["cursor", "reveal"]);
    probes[1] = probe(true, true, Some(vec![1, 2, 3]));
    let eds = detect(&probes, Platform::Other, None);
    assert_eq!(eds[0].id, "cursor");
    assert_eq!(eds[0].icon, None);
}

#[test]
fn opening_picks_cli_then_bundle() {
    let mut probes: Vec<EditorProbe> = (0..9).map(|_| probe(false, false, None)).collect();
    assert_eq!(
        open_in("zed", "/p", false, Platform::Other, &probes).unwrap_err(),
        "path does not exist: /p"
    );
    let l = open_in("reveal", "/p", true, Platform::Windows, &probes).unwrap();
    assert_eq!((l.program.as_str(), l.args.clone()), ("explorer", vec!["/p".to_string()]));
    assert_eq!(open_in("vim", "/p", true, Platform::Other, &probes).unwrap_err(), "unknown editor: vim");
    assert_eq!(open_in("zed", "/p", true, Platform::Other, &probes).unwrap_err(), "Zed is not available");
    probes[4] = probe(false, true, None);
    let l = open_in("zed", "/p", true, Platform::MacOs, &probes).unwrap();
    assert_eq!(l.program, "open");
    assert_eq!(l.args, vec!["-a", "Zed", "/p"]);
    probes[4] = probe(true, true, None);
    let l = open_in("zed", "/p", true, Platform::MacOs, &probes).unwrap();
    assert_eq!(l.program, "zed");
    assert_eq!(l.args, vec!["/p"]);
    assert_eq!(
        open_in("android-studio", "/p", true, Platform::Other, &probes).unwrap_err(),
        "Android Studio is not available"
    );
}

fn report_with_conflict() -> SyncReport {
    SyncReport {
        started_at: "s".into(),
        finished_at: "2024-01-01T08:00:00+00:00".into(),
        root: "/r".into(),
        results: vec![PullResult {
            repo: RepoInfo { rel_path: "a".into(), abs_path: "/r/a".into(), branch: "main".into(), has_remote: true },
            original_branch: "main".into(),
            branches: vec![BranchResult { branch: "main".into(), status: BranchStatus::Diverged { ahead: 1, behind: 2 } }],
            had_local_changes: false,
            stash_conflict: false,
            skipped: None,
            error: None,
        }],
    }
}

#[test]
fn tray_texts() {
    assert_eq!(status_label(&None), "● No sync run yet");
    assert_eq!(
        status_label(&Some(report_with_conflict())),
        "⚠ 0 updated · 0 ok · 0 skipped · 0 failed · 1 conflict"
    );
    assert_eq!(
        status_label(&Some(SyncReport::default())),
        "● 0 updated · 0 ok · 0 skipped · 0 failed · 0 conflict"
    );
    assert_eq!(attention_label(1), "⚠ 1 repo need attention…");
    assert_eq!(attention_label(3), "⚠ 3 repos need attention…");
    assert_eq!(pause_label(true), "Resume scheduled syncs");
    assert_eq!(pause_label(false), "Pause scheduled syncs");
    assert_eq!(tray_title(2, true), "!");
    assert_eq!(tray_title(0, true), "⏸");
    assert_eq!(tray_title(0, false), "");
    assert_eq!(tray_tooltip(2, false), "repo-sync — 2 repo(s) need attention");
    assert_eq!(tray_tooltip(0, true), "repo-sync — scheduled syncs paused");
    assert_eq!(tray_tooltip(0, false), "repo-sync");
}

#[test]
fn menu_shows_attention_item_only_with_conflicts() {
    let m = menu_layout("s".into(), "l".into(), 0, false);
    assert_eq!(m.len(), 8);
    let m = menu_layout("s".into(), "l".into(), 2, true);
    assert_eq!(m.len(), 9);
    match &m[3] {
        MenuEntry::Item { id, label, enabled, .. } => {
            assert_eq!(id, "open_window");
            assert_eq!(label, "⚠ 2 repos need attention…");
            assert!(*enabled);
        },
        _ => panic!("expected the attention item"),
    }
    match &m[5] {
        MenuEntry::Item { id, label, .. } => {
            assert_eq!(id, "toggle_pause");
            assert_eq!(label, "Resume scheduled syncs");
        },
        _ => panic!("expected the pause item"),
    }
    assert!(matches!(m[7], MenuEntry::Separator));
}

#[test]
fn state_guards_syncs_and_records_reports() {
    let mut st = AppState::new(AppConfig::with_root("/r".into()));
    assert!(st.begin_sync().is_ok());
    assert_eq!(st.begin_sync(), Err("sync already in progress".to_string()));
    st.end_sync();
    assert!(st.begin_sync().is_ok());
    st.record_report(report_with_conflict());
    assert_eq!(st.config.last_run.as_deref(), Some("2024-01-01T08:00:00+00:00"));
    assert_eq!(st.conflicts(), 1);
    assert!(st.toggle_pause());
    assert!(!st.toggle_pause());
    let mut bad = AppConfig::with_root("/x".into());
    bad.schedule_minute = 75;
    assert_eq!(st.set_config(bad, true), Err("schedule_minute must be 0-59, got 75".to_string()));
    assert_eq!(st.config.root, "/r");
    let good = AppConfig::with_root("/y".into());
    assert_eq!(st.set_config(good, true), Ok(()));
    assert_eq!(st.config.root, "/y");
    st.show_report(SyncReport::default());
    assert_eq!(st.conflicts(), 0);
}

#[test]
fn next_fire_is_worked_out_from_the_clock_readings() {
    let n = repo_sync::scheduler::next_target(8, 0);
    assert_eq!(n.at_ms, next_target_ms(n.today_ms, n.now_ms));
    assert!(n.at_ms > n.now_ms);
    // An impossible time of day fires at midnight.
    let m = repo_sync::scheduler::next_target(25, 0);
    assert_eq!(m.at_ms, next_target_ms(m.today_ms, m.now_ms));
}
