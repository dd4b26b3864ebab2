//! The application state shared by the commands, the scheduler and the tray.

use vstd::prelude::*;
use crate::config::AppConfig;
use crate::repos::{count_conflicts, opt_view, SyncReport};

verus! {

pub struct AppState {
    pub config: AppConfig,
    /// Last completed sync report, for the tray menu and UI.
    pub last_report: Option<SyncReport>,
    /// True while a sync is currently running (prevents double-trigger).
    pub syncing: bool,
}

pub open spec fn sync_in_progress_message() -> Seq<char> {
    "sync already in progress"@
}

impl AppState {
    pub fn new(config: AppConfig) -> (r: Self)
        ensures
            r.config == config,
            r.last_report is None,
            !r.syncing,
    {
        AppState { config, last_report: None, syncing: false }
    }

    /// Takes the syncing flag: refused while a sync is running, so two syncs
    /// never run at once.
    pub fn begin_sync(&mut self) -> (r: Result<(), String>)
        ensures
            old(self).syncing ==> (r matches Err(e) && e@ == sync_in_progress_message()) && *final(self)
                == *old(self),
            !old(self).syncing ==> r is Ok && final(self).syncing && final(self).config == old(
                self,
            ).config && final(self).last_report == old(self).last_report,
    {
        if self.syncing {
            return Err(String::from_str("sync already in progress"));
        }
        self.syncing = true;
        Ok(())
    }

    /// Gives the syncing flag back, however the sync ended.
    pub fn end_sync(&mut self)
        ensures
            !final(self).syncing,
            final(self).config == old(self).config,
            final(self).last_report == old(self).last_report,
    {
        self.syncing = false;
    }

    /// Keeps `report` as the last one and records its end as the last run.
    pub fn record_report(&mut self, report: SyncReport)
        ensures
            final(self).last_report == Some(report),
            opt_view(final(self).config.last_run) == Some(report@.finished_at),
            final(self).config.root == old(self).config.root,
            final(self).config.schedule_hour == old(self).config.schedule_hour,
            final(self).config.schedule_minute == old(self).config.schedule_minute,
            final(self).config.repo_enabled == old(self).config.repo_enabled,
            final(self).config.repo_settings == old(self).config.repo_settings,
            final(self).config.on_dirty == old(self).config.on_dirty,
            final(self).config.notify_on_finish == old(self).config.notify_on_finish,
            final(self).config.paused == old(self).config.paused,
            final(self).config.keep_reports_days == old(self).config.keep_reports_days,
            final(self).syncing == old(self).syncing,
    {
        self.config.last_run = Some(report.finished_at.clone());
        self.last_report = Some(report);
    }

    /// Shows `report` as the last one without touching the configuration
    /// (used when a saved report is loaded at startup).
    pub fn show_report(&mut self, report: SyncReport)
        ensures
            final(self).last_report == Some(report),
            final(self).config == old(self).config,
            final(self).syncing == old(self).syncing,
    {
        self.last_report = Some(report);
    }

    /// `self` is `old` with scheduled syncs paused if they ran, resumed if
    /// they were paused, and nothing else changed.
    pub open spec fn is_toggle_of(self, old: AppState) -> bool {
        &&& self.config.paused == !old.config.paused
        &&& self.config.root == old.config.root
        &&& self.config.schedule_hour == old.config.schedule_hour
        &&& self.config.schedule_minute == old.config.schedule_minute
        &&& self.config.repo_enabled == old.config.repo_enabled
        &&& self.config.repo_settings == old.config.repo_settings
        &&& self.config.on_dirty == old.config.on_dirty
        &&& self.config.last_run == old.config.last_run
        &&& self.config.notify_on_finish == old.config.notify_on_finish
        &&& self.config.keep_reports_days == old.config.keep_reports_days
        &&& self.last_report == old.last_report
        &&& self.syncing == old.syncing
    }

    /// Flips whether scheduled syncs are paused; returns the new setting.
    pub fn toggle_pause(&mut self) -> (r: bool)
        ensures
            final(self).is_toggle_of(*old(self)),
            r == final(self).config.paused,
    {
        self.config.paused = !self.config.paused;
        self.config.paused
    }

    /// Replaces the configuration with `new_config` if it passes validation
    /// (`root_is_dir` tells whether its root is a directory); else keeps the
    /// old one and returns the validation message.
    pub fn set_config(&mut self, new_config: AppConfig, root_is_dir: bool) -> (r: Result<(), String>)
        ensures
            r is Ok <==> new_config.violation(root_is_dir) is None,
            r matches Err(e) ==> Some(e@) == new_config.violation(root_is_dir),
            r is Ok ==> final(self).config == new_config,
            r is Err ==> final(self).config == old(self).config,
            final(self).last_report == old(self).last_report,
            final(self).syncing == old(self).syncing,
    {
        match new_config.validate(root_is_dir) {
            Ok(()) => {
                self.config = new_config;
                Ok(())
            },
            Err(e) => Err(e),
        }
    }

    /// Number of repos of the last report that need attention (0 without one).
    pub open spec fn conflicts_spec(self) -> u32 {
        match self.last_report {
            Some(rep) => count_conflicts(rep@.results) as u32,
            None => 0,
        }
    }

    /// Number of repos of the last report that need attention (0 without one).
    pub fn conflicts(&self) -> (r: u32)
        ensures
            r == self.conflicts_spec(),
    {
        match &self.last_report {
            Some(rep) => rep.conflict_count(),
            None => 0,
        }
    }
}

/// Toggling the pause twice gives back the state it started from.
pub proof fn lemma_toggle_pause_undoes_itself(a: AppState, b: AppState, c: AppState)
    requires
        b.is_toggle_of(a),
        c.is_toggle_of(b),
    ensures
        c.config.paused == a.config.paused,
        c.config.schedule_hour == a.config.schedule_hour,
        c.config.schedule_minute == a.config.schedule_minute,
        c.config.root == a.config.root,
        c.config.last_run == a.config.last_run,
        c.last_report == a.last_report,
        c.syncing == a.syncing,
{
}

} // verus!
