//! Scheduling decisions: whether a catch-up sync is due at startup, when the
//! next daily sync fires, how long to nap meanwhile, and the tray's
//! "Last sync" label.

use vstd::prelude::*;
use crate::platform::{rfc3339_instant, LocalStamp};
use crate::text::{concat_text, pad2, pad2_text};

verus! {

/// Milliseconds in a day.
pub const DAY_MILLIS: i64 = 86_400_000;

/// Longest nap between looks at the clock, so a changed schedule is noticed.
pub const MAX_SLEEP_SECS: u64 = 300;

/// Seconds to wait after startup before a catch-up sync.
pub const STARTUP_DELAY_SECS: u64 = 10;

/// Seconds to wait after a scheduled sync before looking at the clock again.
pub const AFTER_RUN_SECS: u64 = 60;

/// Seconds in a day.
pub const DAY_SECS: i64 = 86_400;

/// Nanoseconds in a second.
pub const SECOND_NANOS: i64 = 1_000_000_000;

/// The time from instant `t` to instant `now`, each given as whole seconds
/// since the Unix epoch and nanoseconds past that second, in nanoseconds.
pub open spec fn nanos_between(t: (i64, u32), now: (i64, u32)) -> int {
    (now.0 - t.0) * SECOND_NANOS + (now.1 - t.1)
}

/// Whether a catch-up sync is due: there is no usable last-run time, or it is
/// more than 24 hours before `now`.
pub open spec fn catch_up_due_spec(last_run: Option<(i64, u32)>, now: (i64, u32)) -> bool {
    match last_run {
        None => true,
        Some(t) => nanos_between(t, now) > DAY_SECS * SECOND_NANOS,
    }
}

pub fn catch_up_due(last_run: Option<(i64, u32)>, now: (i64, u32)) -> (r: bool)
    ensures
        r == catch_up_due_spec(last_run, now),
{
    match last_run {
        None => true,
        Some(t) => {
            let secs: i128 = (now.0 as i128) - (t.0 as i128);
            let nanos: i128 = (now.1 as i128) - (t.1 as i128);
            secs * (SECOND_NANOS as i128) + nanos > (DAY_SECS as i128) * (SECOND_NANOS as i128)
        },
    }
}

/// Whether to sync at startup: not while scheduled syncs are paused; else
/// when never synced, when the last-run time is unreadable, or when the last
/// run is more than 24 hours ago (by the clock, to the nanosecond).
pub fn should_catch_up(last_run: &Option<String>, paused: bool) -> (r: bool)
    ensures
        paused ==> !r,
        !paused && last_run is None ==> r,
        !paused ==> (last_run matches Some(ts) ==> (rfc3339_instant(ts@) is None ==> r)),
{
    if paused {
        return false;
    }
    match last_run {
        None => true,
        Some(ts) => {
            let parsed = crate::platform::parse_rfc3339(ts.as_str());
            let now = crate::platform::now_instant();
            catch_up_due(parsed, now)
        },
    }
}

/// The time of day a schedule fires at: `hour:minute`, or midnight when that
/// is no valid time of day.
pub open spec fn fire_time_spec(hour: u32, minute: u32) -> (u32, u32) {
    if hour <= 23 && minute <= 59 {
        (hour, minute)
    } else {
        (0, 0)
    }
}

pub fn fire_time(hour: u32, minute: u32) -> (r: (u32, u32))
    ensures
        r == fire_time_spec(hour, minute),
{
    if hour <= 23 && minute <= 59 {
        (hour, minute)
    } else {
        (0, 0)
    }
}

/// The next fire instant from today's fire instant (now, when the local time
/// cannot be pinned down) and now: today's if still ahead, else a day later.
pub open spec fn next_target_spec(target_today_ms: Option<i64>, now_ms: i64) -> int {
    let t = match target_today_ms {
        Some(t) => t,
        None => now_ms,
    };
    if t <= now_ms {
        t + DAY_MILLIS
    } else {
        t as int
    }
}

pub fn next_target_ms(target_today_ms: Option<i64>, now_ms: i64) -> (r: i64)
    requires
        match target_today_ms {
            Some(t) => t <= i64::MAX - DAY_MILLIS,
            None => now_ms <= i64::MAX - DAY_MILLIS,
        },
    ensures
        r == next_target_spec(target_today_ms, now_ms),
{
    let t = match target_today_ms {
        Some(t) => t,
        None => now_ms,
    };
    if t <= now_ms {
        t + DAY_MILLIS
    } else {
        t
    }
}

/// The next fire instant from the clock's readings: `next_target_spec` of
/// them, or `i64::MAX` when a day later no longer fits in an `i64`.
pub open spec fn next_fire_spec(today_ms: Option<i64>, now_ms: i64) -> int {
    let base = match today_ms {
        Some(t) => t,
        None => now_ms,
    };
    if base <= i64::MAX - DAY_MILLIS {
        next_target_spec(today_ms, now_ms)
    } else {
        i64::MAX as int
    }
}

/// When the daily sync fires next, with the readings of the clock it was
/// worked out from.
#[derive(Debug, Clone, Copy)]
pub struct NextFire {
    /// The fire instant, in milliseconds since the epoch.
    pub at_ms: i64,
    /// The time it was worked out at, in milliseconds since the epoch.
    pub now_ms: i64,
    /// Today's fire time (`fire_time` of the schedule, local time) as an
    /// instant; `None` when that local time cannot be pinned down.
    pub today_ms: Option<i64>,
    /// The local time of day of `today_ms`, as hour and minute.
    pub today_time: Option<(u32, u32)>,
}

/// The next time the daily sync fires for a schedule of `hour:minute` local
/// time. Reads the clock and the time zone, and hands back what it read: the
/// fire instant is `next_fire_spec` of those readings, and today's fire
/// instant, when the local time can be pinned down, is at the scheduled hour
/// and minute on the local clock (midnight for a time of day that does not
/// exist).
pub fn next_target(hour: u32, minute: u32) -> (r: NextFire)
    ensures
        r.at_ms == next_fire_spec(r.today_ms, r.now_ms),
        r.today_ms is Some <==> r.today_time is Some,
        r.today_time matches Some(t) ==> (hour <= 23 && minute <= 59 ==> t == (hour, minute)),
        r.today_time matches Some(t) ==> (!(hour <= 23 && minute <= 59) ==> t == (0u32, 0u32)),
{
    let (today, now) = crate::platform::now_date_and_millis();
    let (h, m) = fire_time(hour, minute);
    let (target, time) = match crate::platform::local_instant_millis(today, h, m) {
        Some((t, th, tm)) => (Some(t), Some((th, tm))),
        None => (None, None),
    };
    let bounded = match target {
        Some(t) => t <= i64::MAX - DAY_MILLIS,
        None => now <= i64::MAX - DAY_MILLIS,
    };
    let at_ms = if bounded {
        next_target_ms(target, now)
    } else {
        i64::MAX
    };
    NextFire { at_ms, now_ms: now, today_ms: target, today_time: time }
}

/// How long to sleep before looking again: `None` once `now_ms` has reached
/// `target_ms`; else the whole seconds left, at least 1 and at most
/// `MAX_SLEEP_SECS`.
pub open spec fn sleep_before_spec(now_ms: i64, target_ms: i64) -> Option<u64> {
    if now_ms >= target_ms {
        None
    } else {
        let left = (target_ms - now_ms) / 1000;
        Some(
            if left < 1 {
                1
            } else if left > MAX_SLEEP_SECS {
                MAX_SLEEP_SECS
            } else {
                left as u64
            },
        )
    }
}

pub fn sleep_before(now_ms: i64, target_ms: i64) -> (r: Option<u64>)
    ensures
        r == sleep_before_spec(now_ms, target_ms),
{
    if now_ms >= target_ms {
        None
    } else {
        let left: i128 = ((target_ms as i128) - (now_ms as i128)) / 1000;
        Some(
            if left < 1 {
                1
            } else if left > MAX_SLEEP_SECS as i128 {
                MAX_SLEEP_SECS
            } else {
                left as u64
            },
        )
    }
}

/// Whether the scheduled sync runs now: the target time has come and
/// scheduled syncs are not paused (a manual sync is not affected).
pub fn fire_due(paused: bool, now_ms: i64, target_ms: i64) -> (r: bool)
    ensures
        r == (!paused && now_ms >= target_ms),
{
    !paused && now_ms >= target_ms
}

/// English month abbreviation (chrono's `%b`).
pub open spec fn month_abbrev(m: u32) -> Seq<char> {
    if m == 1 {
        "Jan"@
    } else if m == 2 {
        "Feb"@
    } else if m == 3 {
        "Mar"@
    } else if m == 4 {
        "Apr"@
    } else if m == 5 {
        "May"@
    } else if m == 6 {
        "Jun"@
    } else if m == 7 {
        "Jul"@
    } else if m == 8 {
        "Aug"@
    } else if m == 9 {
        "Sep"@
    } else if m == 10 {
        "Oct"@
    } else if m == 11 {
        "Nov"@
    } else {
        "Dec"@
    }
}

fn month_abbrev_text(m: u32) -> (r: &'static str)
    ensures
        r@ == month_abbrev(m),
{
    if m == 1 {
        "Jan"
    } else if m == 2 {
        "Feb"
    } else if m == 3 {
        "Mar"
    } else if m == 4 {
        "Apr"
    } else if m == 5 {
        "May"
    } else if m == 6 {
        "Jun"
    } else if m == 7 {
        "Jul"
    } else if m == 8 {
        "Aug"
    } else if m == 9 {
        "Sep"
    } else if m == 10 {
        "Oct"
    } else if m == 11 {
        "Nov"
    } else {
        "Dec"
    }
}

/// The tray's "Last sync" label: for a time on `today` its hour and minute,
/// for an earlier one `%b %d %H:%M`; the raw text when it could not be read.
pub open spec fn last_run_label_spec(
    last_run: Option<Seq<char>>,
    stamp: Option<LocalStamp>,
    today: (i32, u32, u32),
) -> Seq<char> {
    match last_run {
        None => "Never synced"@,
        Some(ts) => match stamp {
            None => "Last sync: "@ + ts,
            Some(l) => if (l.year, l.month, l.day) == today {
                "Last sync: today "@ + pad2(l.hour as nat) + ":"@ + pad2(l.minute as nat)
            } else {
                "Last sync: "@ + month_abbrev(l.month) + " "@ + pad2(l.day as nat) + " "@ + pad2(
                    l.hour as nat,
                ) + ":"@ + pad2(l.minute as nat)
            },
        },
    }
}

/// Composes the label from the last-run text, its local time (if it could be
/// read) and today's local date.
pub fn compose_last_run_label(
    last_run: &Option<String>,
    stamp: Option<LocalStamp>,
    today: (i32, u32, u32),
) -> (r: String)
    requires
        stamp matches Some(l) ==> l.day <= 99 && l.hour <= 99 && l.minute <= 99,
    ensures
        r@ == last_run_label_spec(crate::repos::opt_view(*last_run), stamp, today),
{
    match last_run {
        None => String::from_str("Never synced"),
        Some(ts) => match stamp {
            None => concat_text("Last sync: ", ts.as_str()),
            Some(l) => {
                let hm = concat_text(
                    concat_text(pad2_text(l.hour).as_str(), ":").as_str(),
                    pad2_text(l.minute).as_str(),
                );
                if l.year == today.0 && l.month == today.1 && l.day == today.2 {
                    let r = concat_text("Last sync: today ", hm.as_str());
                    proof {
                        assert(r@ =~= last_run_label_spec(crate::repos::opt_view(*last_run), stamp, today));
                    }
                    r
                } else {
                    let a = concat_text("Last sync: ", month_abbrev_text(l.month));
                    let b = concat_text(a.as_str(), " ");
                    let c = concat_text(b.as_str(), pad2_text(l.day).as_str());
                    let d = concat_text(c.as_str(), " ");
                    let r = concat_text(d.as_str(), hm.as_str());
                    proof {
                        assert(r@ =~= last_run_label_spec(crate::repos::opt_view(*last_run), stamp, today));
                    }
                    r
                }
            },
        },
    }
}

/// Helper for the tray "Last sync: …" label. Reads the clock and time zone,
/// so what is stated is that the label is `last_run_label_spec` for some local
/// time of the last run (none when it could not be read) and some date today.
pub fn last_run_label(last_run: &Option<String>) -> (r: String)
    ensures
        last_run is None ==> r@ == "Never synced"@,
        last_run matches Some(ts) ==> (rfc3339_instant(ts@) is None ==> r@ == "Last sync: "@ + ts@),
        exists|stamp: Option<LocalStamp>, today: (i32, u32, u32)|
            r@ == #[trigger] last_run_label_spec(crate::repos::opt_view(*last_run), stamp, today) && (
            last_run matches Some(ts) && rfc3339_instant(ts@) is None ==> stamp is None),
{
    let stamp = match last_run {
        None => None,
        Some(ts) => match crate::platform::parse_rfc3339(ts.as_str()) {
            Some((secs, nanos)) => crate::platform::local_stamp(secs, nanos),
            None => None,
        },
    };
    let (today, _) = crate::platform::now_date_and_millis();
    let (y, m, d) = crate::platform::date_parts(today);
    compose_last_run_label(last_run, stamp, (y, m, d))
}

} // verus!
