use repo_sync::config::{AppConfig, DirtyPolicy, RepoSettings};

#[test]
fn settings_for_prefers_new_map_then_legacy_then_default() {
    let mut cfg = AppConfig::default();

    // Nothing configured -> enabled, pull all branches, no branch switching.
    let d = cfg.settings_for("svc/api");
    assert!(d.enabled && d.branches.is_empty() && d.target_branch.is_none());

    // Legacy repo_enabled=false is honored when no new settings exist.
    cfg.repo_enabled.insert("svc/api".into(), false);
    assert!(!cfg.settings_for("svc/api").enabled);

    // New per-repo settings win over the legacy flag.
    cfg.repo_settings.insert(
        "svc/api".into(),
        RepoSettings {
            enabled: true,
            branches: vec!["develop".into()],
            target_branch: Some("develop".into()),
            fallback_branch: Some("my-feature".into()),
        },
    );
    let s = cfg.settings_for("svc/api");
    assert!(s.enabled);
    assert_eq!(s.branches, vec!["develop".to_string()]);
    assert_eq!(s.target_branch.as_deref(), Some("develop"));
    assert_eq!(s.fallback_branch.as_deref(), Some("my-feature"));
}

#[test]
fn defaults_match_documented_values() {
    let cfg = AppConfig::with_root("/tmp/repos".to_string());
    assert_eq!(cfg.root, "/tmp/repos");
    assert_eq!(cfg.schedule_hour, 8);
    assert_eq!(cfg.schedule_minute, 0);
    assert_eq!(cfg.on_dirty, DirtyPolicy::Stash);
    assert!(cfg.notify_on_finish);
    assert!(!cfg.paused);
    assert_eq!(cfg.keep_reports_days, 90);
    assert!(cfg.last_run.is_none());
    assert_eq!(DirtyPolicy::default(), DirtyPolicy::Stash);
    let d = RepoSettings::default();
    assert!(d.enabled && d.branches.is_empty() && d.fallback_branch.is_none());
}

#[test]
fn validate_reports_each_rule() {
    let mut cfg = AppConfig::with_root("/r".to_string());
    assert_eq!(cfg.validate(true), Ok(()));
    cfg.schedule_hour = 24;
    assert_eq!(cfg.validate(true), Err("schedule_hour must be 0-23, got 24".to_string()));
    cfg.schedule_hour = 23;
    cfg.schedule_minute = 60;
    assert_eq!(cfg.validate(true), Err("schedule_minute must be 0-59, got 60".to_string()));
    cfg.schedule_minute = 59;
    assert_eq!(cfg.validate(false), Err("root is not a directory: /r".to_string()));
    cfg.keep_reports_days = 0;
    assert_eq!(cfg.validate(true), Err("keep_reports_days must be at least 1".to_string()));
    // Rules are checked in order: the hour first.
    cfg.schedule_hour = 100;
    assert_eq!(cfg.validate(false), Err("schedule_hour must be 0-23, got 100".to_string()));
}

#[test]
fn migration_copies_legacy_flags_and_keeps_effective_settings() {
    let mut cfg = AppConfig::with_root("/r".to_string());
    cfg.repo_enabled.insert("a".into(), false);
    cfg.repo_enabled.insert("b".into(), true);
    cfg.repo_settings.insert(
        "b".into(),
        RepoSettings {
            enabled: false,
            branches: vec!["main".into()],
            target_branch: None,
            fallback_branch: None,
        },
    );
    let before_a = cfg.settings_for("a").enabled;
    let before_b = cfg.settings_for("b");
    cfg.migrate_legacy();
    assert!(cfg.repo_settings.contains_key("a"));
    assert_eq!(cfg.settings_for("a").enabled, before_a);
    assert!(!cfg.repo_settings.get("a").unwrap().enabled);
    let after_b = cfg.settings_for("b");
    assert_eq!(after_b.enabled, before_b.enabled);
    assert_eq!(after_b.branches, before_b.branches);
    assert!(!cfg.repo_settings.contains_key("c"));
}

#[test]
fn path_map_insert_replaces() {
    let mut cfg = AppConfig::with_root("/r".to_string());
    cfg.repo_enabled.insert("x".into(), true);
    cfg.repo_enabled.insert("x".into(), false);
    assert_eq!(cfg.repo_enabled.keys(), vec!["x".to_string()]);
    assert_eq!(cfg.repo_enabled.get("x"), Some(&false));
    let copy = cfg.clone();
    assert_eq!(copy.repo_enabled.get("x"), Some(&false));
    assert_eq!(copy.root, "/r");
}

#[test]
fn default_root_is_in_the_documents_folder() {
    let r = repo_sync::config::default_root();
    match dirs::document_dir() {
        Some(d) => assert_eq!(r, d.join("Programming-Codes").to_string_lossy()),
        None => assert_eq!(r, "."),
    }
    assert!(r == "." || r.ends_with("Programming-Codes"));
}
