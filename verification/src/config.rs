//! Application configuration: schedule, per-repo settings, the dirty-tree
//! policy and report retention, with validation and legacy migration.

use vstd::prelude::*;
use crate::path_map::PathMap;
use crate::text::{concat_text, decimal, decimal_text, views};

verus! {

/// Per-repo pull configuration.
#[derive(Debug)]
pub struct RepoSettings {
    /// Whether this repo is pulled at all.
    pub enabled: bool,
    /// Explicit list of branches to fast-forward. Empty = every local branch
    /// that has an upstream.
    pub branches: Vec<String>,
    /// Check this branch out before pulling (created as a tracking branch off
    /// origin if it doesn't exist locally). None = don't switch.
    pub target_branch: Option<String>,
    /// Check this branch out after pulling. None = return to whatever was
    /// checked out at start.
    pub fallback_branch: Option<String>,
}

pub struct RepoSettingsView {
    pub enabled: bool,
    pub branches: Seq<Seq<char>>,
    pub target_branch: Option<Seq<char>>,
    pub fallback_branch: Option<Seq<char>>,
}

impl View for RepoSettings {
    type V = RepoSettingsView;

    open spec fn view(&self) -> RepoSettingsView {
        RepoSettingsView {
            enabled: self.enabled,
            branches: views(self.branches@),
            target_branch: crate::repos::opt_view(self.target_branch),
            fallback_branch: crate::repos::opt_view(self.fallback_branch),
        }
    }
}

/// Settings of a repo nobody configured: enabled, every branch, no switching.
pub open spec fn default_settings(enabled: bool) -> RepoSettingsView {
    RepoSettingsView {
        enabled,
        branches: Seq::empty(),
        target_branch: None,
        fallback_branch: None,
    }
}

/// Copies a list of texts.
pub fn clone_texts(v: &Vec<String>) -> (r: Vec<String>)
    ensures
        views(r@) == views(v@),
{
    let mut r: Vec<String> = Vec::new();
    let mut i: usize = 0;
    while i < v.len()
        invariant
            i <= v.len(),
            r@.len() == i,
            forall|k: int| 0 <= k < i ==> #[trigger] r@[k]@ == v@[k]@,
        decreases v.len() - i,
    {
        r.push(v[i].clone());
        i = i + 1;
    }
    proof {
        assert(views(r@) =~= views(v@));
    }
    r
}

impl Clone for RepoSettings {
    fn clone(&self) -> (r: Self)
        ensures
            r@ == self@,
    {
        RepoSettings {
            enabled: self.enabled,
            branches: clone_texts(&self.branches),
            target_branch: crate::repos::clone_opt_text(&self.target_branch),
            fallback_branch: crate::repos::clone_opt_text(&self.fallback_branch),
        }
    }
}

impl Default for RepoSettings {
    fn default() -> (r: Self)
        ensures
            r@ == default_settings(true),
    {
        let r = RepoSettings {
            enabled: true,
            branches: Vec::new(),
            target_branch: None,
            fallback_branch: None,
        };
        proof {
            assert(views(r.branches@) =~= Seq::<Seq<char>>::empty());
        }
        r
    }
}

/// What to do with a repo that has uncommitted tracked changes at pull time.
#[derive(Debug, Clone, Copy, PartialEq, Eq, Structural)]
pub enum DirtyPolicy {
    /// Auto-stash, pull, then restore (default — never loses work).
    Stash,
    /// Leave repos with local changes untouched and record them as skipped.
    Skip,
}

impl Default for DirtyPolicy {
    fn default() -> (r: Self)
        ensures
            r == DirtyPolicy::Stash,
    {
        DirtyPolicy::Stash
    }
}

/// The application's configuration.
pub struct AppConfig {
    /// Absolute path to the root folder containing repo folders.
    pub root: String,
    /// Hour of day (0-23) to run the daily sync, local time.
    pub schedule_hour: u32,
    /// Minute (0-59).
    pub schedule_minute: u32,
    /// Legacy per-repo enable flag, keyed by repo path relative to `root`.
    pub repo_enabled: PathMap<bool>,
    /// Per-repo settings, keyed by repo path relative to `root`. Missing
    /// entries fall back to `repo_enabled`, then to defaults.
    pub repo_settings: PathMap<RepoSettings>,
    /// How to treat a repo with uncommitted tracked changes at pull time.
    pub on_dirty: DirtyPolicy,
    /// Timestamp of the last successful run, if any.
    pub last_run: Option<String>,
    /// Show a notification when the sync finishes.
    pub notify_on_finish: bool,
    /// When true, scheduled runs are skipped. Manual "Sync now" still works.
    pub paused: bool,
    /// Days of report history to keep on disk.
    pub keep_reports_days: u32,
}

/// Days of report history kept when nothing else is configured.
pub const DEFAULT_KEEP_REPORTS_DAYS: u32 = 90;

impl AppConfig {
    /// Effective settings for a repo: the per-repo map first, then the legacy
    /// enable flag, then defaults.
    pub open spec fn effective_settings(self, rel_path: Seq<char>) -> RepoSettingsView {
        match self.repo_settings.get_spec(rel_path) {
            Some(s) => s@,
            None => default_settings(
                match self.repo_enabled.get_spec(rel_path) {
                    Some(on) => on,
                    None => true,
                },
            ),
        }
    }

    /// The message of the first rule that the configuration breaks, if any.
    pub open spec fn violation(self, root_is_dir: bool) -> Option<Seq<char>> {
        if self.schedule_hour > 23 {
            Some("schedule_hour must be 0-23, got "@ + decimal(self.schedule_hour as nat))
        } else if self.schedule_minute > 59 {
            Some("schedule_minute must be 0-59, got "@ + decimal(self.schedule_minute as nat))
        } else if !root_is_dir {
            Some("root is not a directory: "@ + self.root@)
        } else if self.keep_reports_days == 0 {
            Some("keep_reports_days must be at least 1"@)
        } else {
            None
        }
    }

    /// Rejects configs that would put the scheduler or scanner in a bad state.
    /// `root_is_dir` tells whether `root` names a directory on disk.
    pub fn validate(&self, root_is_dir: bool) -> (r: Result<(), String>)
        ensures
            r is Ok <==> self.violation(root_is_dir) is None,
            r matches Err(e) ==> Some(e@) == self.violation(root_is_dir),
    {
        if self.schedule_hour > 23 {
            return Err(
                concat_text(
                    "schedule_hour must be 0-23, got ",
                    decimal_text(self.schedule_hour).as_str(),
                ),
            );
        }
        if self.schedule_minute > 59 {
            return Err(
                concat_text(
                    "schedule_minute must be 0-59, got ",
                    decimal_text(self.schedule_minute).as_str(),
                ),
            );
        }
        if !root_is_dir {
            return Err(concat_text("root is not a directory: ", self.root.as_str()));
        }
        if self.keep_reports_days == 0 {
            return Err(String::from_str("keep_reports_days must be at least 1"));
        }
        Ok(())
    }

    /// Effective settings for a repo, resolving the new per-repo map first, then
    /// the legacy `repo_enabled` flag, then defaults (enabled, pull all branches).
    pub fn settings_for(&self, rel_path: &str) -> (r: RepoSettings)
        ensures
            r@ == self.effective_settings(rel_path@),
    {
        if let Some(s) = self.repo_settings.get(rel_path) {
            return s.clone();
        }
        let enabled = match self.repo_enabled.get(rel_path) {
            Some(on) => *on,
            None => true,
        };
        let mut r = RepoSettings::default();
        r.enabled = enabled;
        r
    }

    /// A configuration for `root` with every other field at its default:
    /// 08:00 daily, nothing configured per repo, stash dirty trees, notify,
    /// not paused, 90 days of reports.
    pub fn with_root(root: String) -> (r: AppConfig)
        ensures
            r.root@ == root@,
            r.schedule_hour == 8,
            r.schedule_minute == 0,
            forall|k: Seq<char>| (#[trigger] r.repo_enabled.get_spec(k)) is None,
            forall|k: Seq<char>| (#[trigger] r.repo_settings.get_spec(k)) is None,
            r.on_dirty == DirtyPolicy::Stash,
            r.last_run is None,
            r.notify_on_finish,
            !r.paused,
            r.keep_reports_days == DEFAULT_KEEP_REPORTS_DAYS,
    {
        AppConfig {
            root,
            schedule_hour: 8,
            schedule_minute: 0,
            repo_enabled: PathMap::new(),
            repo_settings: PathMap::new(),
            on_dirty: DirtyPolicy::Stash,
            last_run: None,
            notify_on_finish: true,
            paused: false,
            keep_reports_days: DEFAULT_KEEP_REPORTS_DAYS,
        }
    }
}

impl AppConfig {
    /// `self` is `old` with every legacy enable flag copied into the per-repo
    /// settings of a repo that had none, and nothing else changed.
    pub open spec fn is_migration_of(self, old: AppConfig) -> bool {
        &&& forall|k: Seq<char>|
            (#[trigger] self.repo_settings.get_spec(k)) is Some <==> (old.repo_settings.get_spec(k) is Some
                || old.repo_enabled.get_spec(k) is Some)
        &&& forall|k: Seq<char>|
            old.repo_settings.get_spec(k) is Some ==> (#[trigger] self.repo_settings.get_spec(k))
                == old.repo_settings.get_spec(k)
        &&& forall|k: Seq<char>|
            old.repo_settings.get_spec(k) is None && old.repo_enabled.get_spec(k) is Some
                ==> (#[trigger] self.repo_settings.get_spec(k))->0@ == default_settings(
                old.repo_enabled.get_spec(k)->0,
            )
        &&& forall|k: Seq<char>| #[trigger] self.repo_enabled.get_spec(k) == old.repo_enabled.get_spec(k)
        &&& self.root@ == old.root@
        &&& self.schedule_hour == old.schedule_hour
        &&& self.schedule_minute == old.schedule_minute
        &&& self.on_dirty == old.on_dirty
        &&& crate::repos::opt_view(self.last_run) == crate::repos::opt_view(old.last_run)
        &&& self.notify_on_finish == old.notify_on_finish
        &&& self.paused == old.paused
        &&& self.keep_reports_days == old.keep_reports_days
    }

    /// Migrates legacy `repo_enabled` entries into `repo_settings`, so the
    /// per-repo model is populated on the first run after an upgrade.
    pub fn migrate_legacy(&mut self)
        ensures
            final(self).is_migration_of(*old(self)),
    {
        let ghost before = *self;
        let keys = self.repo_enabled.keys();
        let ghost ks = views(keys@);
        let mut i: usize = 0;
        while i < keys.len()
            invariant
                i <= keys@.len(),
                ks == views(keys@),
                ks.no_duplicates(),
                forall|k: Seq<char>| ks.contains(k) <==> (#[trigger] before.repo_enabled.get_spec(k)) is Some,
                forall|k: Seq<char>|
                    (#[trigger] self.repo_settings.get_spec(k)) is Some <==> (
                    before.repo_settings.get_spec(k) is Some || ks.take(i as int).contains(k)),
                forall|k: Seq<char>|
                    before.repo_settings.get_spec(k) is Some ==> (
                    #[trigger] self.repo_settings.get_spec(k)) == before.repo_settings.get_spec(k),
                forall|k: Seq<char>|
                    before.repo_settings.get_spec(k) is None && ks.take(i as int).contains(k)
                        ==> (#[trigger] self.repo_settings.get_spec(k))->0@ == default_settings(
                        before.repo_enabled.get_spec(k)->0,
                    ),
                self.repo_enabled == before.repo_enabled,
                self.root == before.root,
                self.schedule_hour == before.schedule_hour,
                self.schedule_minute == before.schedule_minute,
                self.on_dirty == before.on_dirty,
                self.last_run == before.last_run,
                self.notify_on_finish == before.notify_on_finish,
                self.paused == before.paused,
                self.keep_reports_days == before.keep_reports_days,
            decreases keys@.len() - i,
        {
            let key = &keys[i];
            let ghost k0 = key@;
            proof {
                assert(ks[i as int] == k0);
                assert(ks.take(i + 1) =~= ks.take(i as int).push(k0));
                assert(ks.contains(k0));
                assert(!ks.take(i as int).contains(k0)) by {
                    if ks.take(i as int).contains(k0) {
                        let j = choose|j: int| 0 <= j < i && #[trigger] ks.take(i as int)[j] == k0;
                        assert(ks[j] == ks[i as int]);
                    }
                }
            }
            if !self.repo_settings.contains_key(key.as_str()) {
                let on = match self.repo_enabled.get(key.as_str()) {
                    Some(v) => *v,
                    None => true,
                };
                let mut fresh = RepoSettings::default();
                fresh.enabled = on;
                let ghost mid = self.repo_settings;
                self.repo_settings.insert(key.clone(), fresh);
                proof {
                    assert forall|k: Seq<char>|
                        before.repo_settings.get_spec(k) is None && ks.take(i + 1).contains(k)
                            implies (#[trigger] self.repo_settings.get_spec(k))->0@
                            == default_settings(before.repo_enabled.get_spec(k)->0) by {
                        if k != k0 {
                            assert(ks.take(i as int).contains(k));
                        }
                    }
                }
            } else {
                proof {
                    assert forall|k: Seq<char>|
                        before.repo_settings.get_spec(k) is None && ks.take(i + 1).contains(k)
                            implies (#[trigger] self.repo_settings.get_spec(k))->0@
                            == default_settings(before.repo_enabled.get_spec(k)->0) by {
                        if k == k0 {
                            assert(ks.take(i as int).contains(k0) || before.repo_settings.get_spec(k0) is Some);
                        } else {
                            assert(ks.take(i as int).contains(k));
                        }
                    }
                }
            }
            proof {
                assert forall|k: Seq<char>|
                    ks.take(i + 1).contains(k) <==> (ks.take(i as int).contains(k) || k == k0) by {
                    if ks.take(i + 1).contains(k) {
                        let j = choose|j: int| 0 <= j < i + 1 && #[trigger] ks.take(i + 1)[j] == k;
                        if j < i {
                            assert(ks.take(i as int)[j] == k);
                        }
                    }
                    if ks.take(i as int).contains(k) {
                        let j = choose|j: int| 0 <= j < i && #[trigger] ks.take(i as int)[j] == k;
                        assert(ks.take(i + 1)[j] == k);
                    }
                    if k == k0 {
                        assert(ks.take(i + 1)[i as int] == k0);
                    }
                }
            }
            i = i + 1;
        }
        proof {
            assert(ks.take(i as int) =~= ks);
        }
    }
}

/// Migration keeps what every repo is pulled with: the effective settings of
/// each path are the same before and after.
pub proof fn lemma_migration_keeps_effective_settings(old: AppConfig, new: AppConfig)
    requires
        new.is_migration_of(old),
    ensures
        forall|k: Seq<char>| #[trigger] new.effective_settings(k) == old.effective_settings(k),
{
    assert forall|k: Seq<char>| #[trigger] new.effective_settings(k) == old.effective_settings(k) by {
        if old.repo_settings.get_spec(k) is None && old.repo_enabled.get_spec(k) is Some {
            assert(new.repo_settings.get_spec(k) is Some);
        }
    }
}

impl Clone for AppConfig {
    fn clone(&self) -> (r: Self)
        ensures
            r.root@ == self.root@,
            r.schedule_hour == self.schedule_hour,
            r.schedule_minute == self.schedule_minute,
            forall|k: Seq<char>| #[trigger] r.repo_enabled.get_spec(k) == self.repo_enabled.get_spec(k),
            forall|k: Seq<char>| #[trigger] r.effective_settings(k) == self.effective_settings(k),
            r.on_dirty == self.on_dirty,
            crate::repos::opt_view(r.last_run) == crate::repos::opt_view(self.last_run),
            r.notify_on_finish == self.notify_on_finish,
            r.paused == self.paused,
            r.keep_reports_days == self.keep_reports_days,
    {
        let r = AppConfig {
            root: self.root.clone(),
            schedule_hour: self.schedule_hour,
            schedule_minute: self.schedule_minute,
            repo_enabled: self.repo_enabled.clone(),
            repo_settings: self.repo_settings.clone(),
            on_dirty: self.on_dirty,
            last_run: crate::repos::clone_opt_text(&self.last_run),
            notify_on_finish: self.notify_on_finish,
            paused: self.paused,
            keep_reports_days: self.keep_reports_days,
        };
        proof {
            assert forall|k: Seq<char>| #[trigger] r.repo_enabled.get_spec(k) == self.repo_enabled.get_spec(k) by {
                match (r.repo_enabled.get_spec(k), self.repo_enabled.get_spec(k)) {
                    (Some(a), Some(b)) => {
                        assert(cloned::<bool>(b, a));
                    },
                    _ => {},
                }
            }
            assert forall|k: Seq<char>| #[trigger] r.effective_settings(k) == self.effective_settings(k) by {
                match (r.repo_settings.get_spec(k), self.repo_settings.get_spec(k)) {
                    (Some(a), Some(b)) => {
                        assert(cloned::<RepoSettings>(b, a));
                    },
                    _ => {},
                }
                assert(r.repo_enabled.get_spec(k) == self.repo_enabled.get_spec(k));
            }
        }
        r
    }
}

/// The default root: `Programming-Codes` in the user's documents folder, or
/// `.` when there is no documents folder. Which folder that is comes from the
/// environment; what is stated is that the root is `.` or a path that ends in
/// `Programming-Codes`.
pub fn default_root() -> (r: String)
    ensures
        r@ == "."@ || crate::text::has_suffix(r@, "Programming-Codes"@),
{
    match crate::platform::document_dir() {
        Some(d) => {
            proof {
                reveal_strlit("Programming-Codes");
                reveal_strlit(".");
                reveal_strlit("..");
                let name = "Programming-Codes"@;
                assert(name =~= seq![
                    'P', 'r', 'o', 'g', 'r', 'a', 'm', 'm', 'i', 'n', 'g', '-', 'C', 'o', 'd', 'e', 's',
                ]);
                assert(name.len() != "."@.len() && name.len() != ".."@.len());
                assert(crate::platform::is_plain_name(name));
            }
            crate::platform::join_path(d.as_str(), "Programming-Codes")
        },
        None => String::from_str("."),
    }
}

impl Default for AppConfig {
    fn default() -> (r: Self)
        ensures
            r.schedule_hour == 8,
            r.schedule_minute == 0,
            forall|k: Seq<char>| (#[trigger] r.repo_enabled.get_spec(k)) is None,
            forall|k: Seq<char>| (#[trigger] r.repo_settings.get_spec(k)) is None,
            r.on_dirty == DirtyPolicy::Stash,
            r.last_run is None,
            r.notify_on_finish,
            !r.paused,
            r.keep_reports_days == DEFAULT_KEEP_REPORTS_DAYS,
            r.root@ == "."@ || crate::text::has_suffix(r.root@, "Programming-Codes"@),
    {
        AppConfig::with_root(default_root())
    }
}

} // verus!
