//! What the tray shows: the status line, the attention item, the pause
//! item, the indicator next to the icon, its tooltip, and the menu layout.

use vstd::prelude::*;
use crate::platform::{rfc3339_instant, LocalStamp};
use crate::repos::{
    count_conflicts, count_outcome, is_failed_result, is_skipped_result, opt_view, Outcome, PullResultView,
    SyncReport,
};
use crate::scheduler::last_run_label_spec;
use crate::text::{concat_text, decimal, decimal_text};

verus! {

pub const ID_STATUS: &'static str = "status";

pub const ID_LAST_RUN: &'static str = "last_run";

pub const ID_SYNC: &'static str = "sync_now";

pub const ID_PAUSE: &'static str = "toggle_pause";

pub const ID_OPEN: &'static str = "open_window";

pub const ID_QUIT: &'static str = "quit";

/// The status line for the five summary counts.
pub open spec fn counts_label(u: nat, ok: nat, sk: nat, f: nat, c: nat) -> Seq<char> {
    (if c > 0 {
        "⚠"@
    } else {
        "●"@
    }) + " "@ + decimal(u) + " updated · "@ + decimal(ok) + " ok · "@ + decimal(sk) + " skipped · "@
        + decimal(f) + " failed · "@ + decimal(c) + " conflict"@
}

/// The status line of the tray menu.
pub open spec fn status_label_spec(report: Option<SyncReport>) -> Seq<char> {
    match report {
        None => "● No sync run yet"@,
        Some(r) => counts_label(
            count_outcome(r@.results, Outcome::Updated),
            count_outcome(r@.results, Outcome::Clean),
            count_outcome(r@.results, Outcome::Skipped),
            count_outcome(r@.results, Outcome::Failed),
            count_outcome(r@.results, Outcome::Conflict),
        ),
    }
}

fn counts_text(u: u32, ok: u32, sk: u32, f: u32, c: u32) -> (r: String)
    ensures
        r@ == counts_label(u as nat, ok as nat, sk as nat, f as nat, c as nat),
{
    let mark = if c > 0 {
        "⚠"
    } else {
        "●"
    };
    let s1 = concat_text(mark, " ");
    let s2 = concat_text(s1.as_str(), decimal_text(u).as_str());
    let s3 = concat_text(s2.as_str(), " updated · ");
    let s4 = concat_text(s3.as_str(), decimal_text(ok).as_str());
    let s5 = concat_text(s4.as_str(), " ok · ");
    let s6 = concat_text(s5.as_str(), decimal_text(sk).as_str());
    let s7 = concat_text(s6.as_str(), " skipped · ");
    let s8 = concat_text(s7.as_str(), decimal_text(f).as_str());
    let s9 = concat_text(s8.as_str(), " failed · ");
    let s10 = concat_text(s9.as_str(), decimal_text(c).as_str());
    concat_text(s10.as_str(), " conflict")
}

/// The status line: the summary of the last report, or that there is none.
pub fn status_label(report: &Option<SyncReport>) -> (r: String)
    requires
        report matches Some(rep) ==> rep.results@.len() <= u32::MAX,
    ensures
        r@ == status_label_spec(*report),
{
    match report {
        None => String::from_str("● No sync run yet"),
        Some(rep) => {
            let (u, ok, sk, f, c) = rep.summary();
            counts_text(u, ok, sk, f, c)
        },
    }
}

/// The status line of a report gives, each number before its word and in
/// this order, the repos updated, those clean ("ok"), those skipped, those
/// failed (with an error) and those that need attention ("conflict"); it is
/// marked "⚠" when any repo needs attention, "●" otherwise.
pub proof fn lemma_status_line_counts(rep: SyncReport)
    ensures
        ({
            let rs = rep@.results;
            let k = count_outcome(rs, Outcome::Conflict);
            status_label_spec(Some(rep)) == (if k > 0 {
                "⚠"@
            } else {
                "●"@
            }) + " "@ + decimal(count_outcome(rs, Outcome::Updated)) + " updated · "@ + decimal(
                count_outcome(rs, Outcome::Clean),
            ) + " ok · "@ + decimal(rs.filter(|x: PullResultView| is_skipped_result(x)).len())
                + " skipped · "@ + decimal(rs.filter(|x: PullResultView| is_failed_result(x)).len())
                + " failed · "@ + decimal(k) + " conflict"@
        }),
{
    crate::repos::lemma_failed_and_skipped_counts(rep@.results);
}

/// The menu item that opens the dashboard when repos need attention.
pub open spec fn attention_label_spec(n: u32) -> Seq<char> {
    "⚠ "@ + decimal(n as nat) + " repo"@ + (if n == 1 {
        ""@
    } else {
        "s"@
    }) + " need attention…"@
}

pub fn attention_label(n: u32) -> (r: String)
    ensures
        r@ == attention_label_spec(n),
{
    let a = concat_text("⚠ ", decimal_text(n).as_str());
    let b = concat_text(a.as_str(), " repo");
    let c = concat_text(
        b.as_str(),
        if n == 1 {
            ""
        } else {
            "s"
        },
    );
    concat_text(c.as_str(), " need attention…")
}

pub open spec fn pause_label_spec(paused: bool) -> Seq<char> {
    if paused {
        "Resume scheduled syncs"@
    } else {
        "Pause scheduled syncs"@
    }
}

/// The label of the pause item: what choosing it does.
pub fn pause_label(paused: bool) -> (r: &'static str)
    ensures
        r@ == pause_label_spec(paused),
{
    if paused {
        "Resume scheduled syncs"
    } else {
        "Pause scheduled syncs"
    }
}

pub open spec fn tray_title_spec(conflicts: u32, paused: bool) -> Seq<char> {
    if conflicts > 0 {
        "!"@
    } else if paused {
        "⏸"@
    } else {
        ""@
    }
}

/// The text next to the menu-bar icon: `!` when repos need attention, a
/// pause sign when paused, nothing otherwise.
pub fn tray_title(conflicts: u32, paused: bool) -> (r: &'static str)
    ensures
        r@ == tray_title_spec(conflicts, paused),
{
    if conflicts > 0 {
        "!"
    } else if paused {
        "⏸"
    } else {
        ""
    }
}

pub open spec fn tray_tooltip_spec(conflicts: u32, paused: bool) -> Seq<char> {
    if conflicts > 0 {
        "repo-sync — "@ + decimal(conflicts as nat) + " repo(s) need attention"@
    } else if paused {
        "repo-sync — scheduled syncs paused"@
    } else {
        "repo-sync"@
    }
}

/// The tooltip of the tray icon.
pub fn tray_tooltip(conflicts: u32, paused: bool) -> (r: String)
    ensures
        r@ == tray_tooltip_spec(conflicts, paused),
{
    if conflicts > 0 {
        let a = concat_text("repo-sync — ", decimal_text(conflicts).as_str());
        concat_text(a.as_str(), " repo(s) need attention")
    } else if paused {
        String::from_str("repo-sync — scheduled syncs paused")
    } else {
        String::from_str("repo-sync")
    }
}

/// One entry of the tray menu.
#[derive(Debug)]
pub enum MenuEntry {
    Item { id: String, label: String, enabled: bool, accelerator: Option<String> },
    Separator,
}

pub enum MenuEntryView {
    Item { id: Seq<char>, label: Seq<char>, enabled: bool, accelerator: Option<Seq<char>> },
    Separator,
}

impl View for MenuEntry {
    type V = MenuEntryView;

    open spec fn view(&self) -> MenuEntryView {
        match self {
            MenuEntry::Item { id, label, enabled, accelerator } => MenuEntryView::Item {
                id: id@,
                label: label@,
                enabled: *enabled,
                accelerator: crate::repos::opt_view(*accelerator),
            },
            MenuEntry::Separator => MenuEntryView::Separator,
        }
    }
}

pub open spec fn entry_views(v: Seq<MenuEntry>) -> Seq<MenuEntryView> {
    v.map_values(|e: MenuEntry| e@)
}

pub open spec fn item(
    id: Seq<char>,
    label: Seq<char>,
    enabled: bool,
    accelerator: Option<Seq<char>>,
) -> MenuEntryView {
    MenuEntryView::Item { id, label, enabled, accelerator }
}

/// The tray menu: status and last run (both inert), then, when repos need
/// attention, an item that opens the dashboard, then sync, pause, open and
/// quit.
pub open spec fn menu_layout_spec(
    status: Seq<char>,
    last_run: Seq<char>,
    conflicts: u32,
    paused: bool,
) -> Seq<MenuEntryView> {
    let head = seq![
        item(ID_STATUS@, status, false, None),
        item(ID_LAST_RUN@, last_run, false, None),
        MenuEntryView::Separator,
    ];
    let attention = if conflicts > 0 {
        seq![item(ID_OPEN@, attention_label_spec(conflicts), true, None)]
    } else {
        seq![]
    };
    let tail = seq![
        item(ID_SYNC@, "Sync now"@, true, Some("Cmd+R"@)),
        item(ID_PAUSE@, pause_label_spec(paused), true, None),
        item(ID_OPEN@, "Open dashboard…"@, true, None),
        MenuEntryView::Separator,
        item(ID_QUIT@, "Quit repo-sync"@, true, Some("Cmd+Q"@)),
    ];
    head + attention + tail
}

fn make_item(id: &str, label: String, enabled: bool, accelerator: Option<&str>) -> (r: MenuEntry)
    ensures
        r@ == item(
            id@,
            label@,
            enabled,
            match accelerator {
                Some(a) => Some(a@),
                None => None,
            },
        ),
{
    MenuEntry::Item {
        id: String::from_str(id),
        label,
        enabled,
        accelerator: match accelerator {
            Some(a) => Some(String::from_str(a)),
            None => None,
        },
    }
}

/// The tray menu for a status line, a last-run line, the number of repos
/// that need attention and the pause setting.
pub fn menu_layout(status: String, last_run: String, conflicts: u32, paused: bool) -> (r: Vec<
    MenuEntry,
>)
    ensures
        entry_views(r@) == menu_layout_spec(status@, last_run@, conflicts, paused),
{
    let ghost sv = status@;
    let ghost lv = last_run@;
    let mut r: Vec<MenuEntry> = Vec::new();
    r.push(make_item(ID_STATUS, status, false, None));
    r.push(make_item(ID_LAST_RUN, last_run, false, None));
    r.push(MenuEntry::Separator);
    if conflicts > 0 {
        r.push(make_item(ID_OPEN, attention_label(conflicts), true, None));
    }
    r.push(make_item(ID_SYNC, String::from_str("Sync now"), true, Some("Cmd+R")));
    r.push(make_item(ID_PAUSE, String::from_str(pause_label(paused)), true, None));
    r.push(make_item(ID_OPEN, String::from_str("Open dashboard…"), true, None));
    r.push(MenuEntry::Separator);
    r.push(make_item(ID_QUIT, String::from_str("Quit repo-sync"), true, Some("Cmd+Q")));
    proof {
        assert(entry_views(r@) =~= menu_layout_spec(sv, lv, conflicts, paused));
    }
    r
}

/// The tray menu for the current state. The last-run line reads the clock
/// and the time zone, so what is stated of it is that it is the label of the
/// last run for some local time of that run (none when it could not be read)
/// and some date today.
pub fn menu_entries(state: &crate::state::AppState) -> (r: Vec<MenuEntry>)
    requires
        state.last_report matches Some(rep) ==> rep.results@.len() <= u32::MAX,
    ensures
        exists|stamp: Option<LocalStamp>, today: (i32, u32, u32)|
            entry_views(r@) == menu_layout_spec(
                status_label_spec(state.last_report),
                #[trigger] last_run_label_spec(opt_view(state.config.last_run), stamp, today),
                state.conflicts_spec(),
                state.config.paused,
            ) && (state.config.last_run matches Some(ts) && rfc3339_instant(ts@) is None ==> stamp is None),
{
    let status = status_label(&state.last_report);
    let last = crate::scheduler::last_run_label(&state.config.last_run);
    let ghost lv = last@;
    let conflicts = state.conflicts();
    let r = menu_layout(status, last, conflicts, state.config.paused);
    proof {
        assert(entry_views(r@) == menu_layout_spec(
            status_label_spec(state.last_report),
            lv,
            state.conflicts_spec(),
            state.config.paused,
        ));
    }
    r
}

} // verus!
