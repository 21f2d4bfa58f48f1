//! Disks that stay parked outside a wake window.
//!
//! A task that touches such a disk is held back while the window is closed, and while the disk is
//! not really mounted: a bare directory in its place would read as an empty tree.

use crate::clock::{
    as_days, at_the_ends, local_times, moments_of, told_day, chrono_day, chrono_local_text, chrono_time, earlier, in_calendar,
    in_leap_second, is_consistent, is_earlier, local_text, may_be_day_of, may_be_times_of,
    named_weekday, parse_naive_date, parse_naive_time, parse_weekday, resolves,
    second_in_calendar, start_format, times_in, weekday, weekday_of, Moment, Zone, FIRST_DAY,
    LAST_DAY,
};
use crate::config::host::{parent, parent_of};
use crate::config::types::{
    StandbyPoolConfig, StandbyPoolConfigModel, WakeSchedule, WakeScheduleModel,
};
use crate::local::{asked, found_in, LocalDay, LocalTime};
use crate::paths::{at_or_under, path_starts_with};
use crate::scheduler::{first_after, first_candidate, lemma_first_after_index};
use crate::seqs::{first_where, lemma_first_where, lemma_first_where_is};
use crate::text::{opt_view, same, views};
use vstd::prelude::*;

verus! {

/// Why a task cannot run now.
#[derive(Debug)]
pub enum Gate {
    /// The disks are parked.
    Asleep { pool: String, reason: String },
    /// The disks should be awake but are not mounted.
    NotMounted { pool: String, reason: String },
}

/// The model of a `Gate`.
pub enum GateModel {
    Asleep { pool: Seq<char>, reason: Seq<char> },
    NotMounted { pool: Seq<char>, reason: Seq<char> },
}

impl View for Gate {
    type V = GateModel;

    open spec fn view(&self) -> GateModel {
        match self {
            Gate::Asleep { pool, reason } => GateModel::Asleep { pool: pool@, reason: reason@ },
            Gate::NotMounted { pool, reason } => GateModel::NotMounted {
                pool: pool@,
                reason: reason@,
            },
        }
    }
}

/// The reason of a gate.
pub open spec fn gate_reason(g: GateModel) -> Seq<char> {
    match g {
        GateModel::Asleep { pool, reason } => reason,
        GateModel::NotMounted { pool, reason } => reason,
    }
}

/// The pool of a gate.
pub open spec fn gate_pool(g: GateModel) -> Seq<char> {
    match g {
        GateModel::Asleep { pool, reason } => pool,
        GateModel::NotMounted { pool, reason } => pool,
    }
}

impl Gate {
    /// The reason, as it is shown.
    pub fn status_reason(&self) -> (r: String)
        ensures
            r@ == gate_reason(self@),
    {
        match self {
            Gate::Asleep { pool, reason } => reason.clone(),
            Gate::NotMounted { pool, reason } => reason.clone(),
        }
    }

    /// The pool that holds the task back.
    pub fn pool(&self) -> (r: String)
        ensures
            r@ == gate_pool(self@),
    {
        match self {
            Gate::Asleep { pool, reason } => pool.clone(),
            Gate::NotMounted { pool, reason } => pool.clone(),
        }
    }
}

/// Whether a path lies on the disks of a pool.
pub open spec fn covers(p: StandbyPoolConfigModel, path: Seq<char>) -> bool {
    exists|i: int| 0 <= i < p.mount_roots.len() && at_or_under(path, #[trigger] p.mount_roots[i])
}

/// Whether a path lies on the disks of a pool.
pub fn pool_covers_path(pool: &StandbyPoolConfig, path: &str) -> (r: bool)
    ensures
        r == covers(pool@, path@),
{
    for i in 0..pool.mount_roots.len()
        invariant
            forall|j: int| 0 <= j < i ==> !at_or_under(path@, #[trigger] pool@.mount_roots[j]),
    {
        if path_starts_with(path, pool.mount_roots[i].as_str()) {
            proof {
                assert(at_or_under(path@, pool@.mount_roots[i as int]));
            }
            return true;
        }
    }
    false
}

/// A schedule as it is calculated with.
#[derive(Debug, Clone, Copy, PartialEq, Eq, Structural)]
pub struct WakePlan {
    /// The day that weeks are counted from.
    pub anchor: i64,
    /// The weekday, zero for Monday.
    pub weekday: u32,
    /// The time of day: seconds since midnight, and nanoseconds.
    pub secs: u32,
    pub nanos: u32,
    /// The window opens in every so many weeks.
    pub every: i64,
}

/// Why a schedule cannot be calculated with.
#[derive(Debug, Clone, Copy, PartialEq, Eq, Structural)]
pub enum WakeError {
    /// The anchor date cannot be read.
    Anchor,
    /// The weekday cannot be read.
    Weekday,
    /// The time of day cannot be read.
    Time,
    /// A local time does not exist.
    Unresolved,
    /// The calendar ends.
    OutOfRange,
    /// No window opens within the weeks that were looked at.
    NotFound,
}

/// The time of day that a text gives, with or without seconds.
pub open spec fn wake_time(t: Seq<char>) -> Option<(u32, u32)> {
    match chrono_time(t, "%H:%M"@) {
        Some(v) => Some(v),
        None => chrono_time(t, "%H:%M:%S"@),
    }
}

/// A schedule as it is calculated with.
pub open spec fn plan_of(w: WakeScheduleModel) -> Result<WakePlan, WakeError> {
    match chrono_day(w.anchor_date, "%Y-%m-%d"@) {
        None => Err(WakeError::Anchor),
        Some(anchor) => match named_weekday(w.weekday) {
            None => Err(WakeError::Weekday),
            Some(weekday) => match wake_time(w.time) {
                None => Err(WakeError::Time),
                Some(t) => Ok(
                    WakePlan {
                        anchor,
                        weekday,
                        secs: t.0,
                        nanos: t.1,
                        every: if w.every_weeks == 0 {
                            1
                        } else {
                            w.every_weeks as i64
                        },
                    },
                ),
            },
        },
    }
}

/// A schedule as it is calculated with.
pub fn read_wake_schedule(w: &WakeSchedule) -> (r: Result<WakePlan, WakeError>)
    ensures
        r == plan_of(w@),
        r is Ok ==> FIRST_DAY <= r->Ok_0.anchor <= LAST_DAY && r->Ok_0.weekday < 7 && 1
            <= r->Ok_0.every <= u32::MAX && r->Ok_0.secs < 86400,
{
    let anchor = match parse_naive_date(w.anchor_date.as_str(), "%Y-%m-%d") {
        Some(d) => d,
        None => {
            return Err(WakeError::Anchor);
        },
    };
    let weekday: u32 = match parse_weekday(w.weekday.as_str()) {
        Some(d) => d,
        None => {
            return Err(WakeError::Weekday);
        },
    };
    let time = match parse_naive_time(w.time.as_str(), "%H:%M") {
        Some(t) => t,
        None => match parse_naive_time(w.time.as_str(), "%H:%M:%S") {
            Some(t) => t,
            None => {
                return Err(WakeError::Time);
            },
        },
    };
    let every: i64 = if w.every_weeks == 0 {
        1
    } else {
        w.every_weeks as i64
    };
    Ok(WakePlan { anchor, weekday, secs: time.0, nanos: time.1, every })
}

/// Whether a window opens on a day: it has the weekday, and its week, counted from the anchor, is
/// one of every so many.
pub open spec fn opens_on(plan: WakePlan, day: int) -> bool {
    weekday_of(day) == plan.weekday && ((day - plan.anchor) / 7) % (plan.every as int) == 0
}

/// Whether a window opens on a day.
pub fn opens_on_day(plan: &WakePlan, day: i64) -> (r: bool)
    requires
        FIRST_DAY <= day <= LAST_DAY,
        FIRST_DAY <= plan.anchor <= LAST_DAY,
        plan.every >= 1,
    ensures
        r == opens_on(*plan, day as int),
{
    if weekday(day) != plan.weekday {
        return false;
    }
    let days: i64 = day - plan.anchor;
    let week: i64 = if days >= 0 {
        days / 7
    } else {
        -((6 - days) / 7)
    };
    proof {
        assert(week == (day - plan.anchor) / 7);
    }
    let rest: i64 = if week >= 0 {
        week % plan.every
    } else {
        let m: i64 = (-week) % plan.every;
        if m == 0 {
            0
        } else {
            plan.every - m
        }
    };
    proof {
        lemma_remainder(week as int, plan.every as int);
    }
    rest == 0
}

/// The remainder of a negative number, by that of its opposite.
proof fn lemma_remainder(week: int, every: int)
    requires
        every >= 1,
    ensures
        (week % every == 0) == ((-week) % every == 0),
{
    if week % every == 0 {
        vstd::arithmetic::div_mod::lemma_fundamental_div_mod(week, every);
        let q = week / every;
        assert(-week == every * (-q)) by (nonlinear_arith)
            requires
                week == every * q,
        ;
        vstd::arithmetic::div_mod::lemma_mod_multiples_basic(-q, every);
        assert((-q) * every == every * (-q)) by (nonlinear_arith);
    }
    if (-week) % every == 0 {
        vstd::arithmetic::div_mod::lemma_fundamental_div_mod(-week, every);
        let q = (-week) / every;
        assert(week == every * (-q)) by (nonlinear_arith)
            requires
                -week == every * q,
        ;
        vstd::arithmetic::div_mod::lemma_mod_multiples_basic(-q, every);
        assert((-q) * every == every * (-q)) by (nonlinear_arith);
    }
}

/// How many days are looked at in search of a window.
pub open spec fn horizon(plan: WakePlan) -> int {
    plan.every * 7 + 8
}

/// The days on which a window opens among the `n` days from `day` on, within the calendar.
pub open spec fn days_ahead(plan: WakePlan, day: int, n: int) -> Seq<int>
    decreases n,
{
    if n <= 0 || day + n - 1 > LAST_DAY {
        if n <= 0 {
            Seq::empty()
        } else {
            days_ahead(plan, day, n - 1)
        }
    } else if opens_on(plan, day + n - 1) {
        days_ahead(plan, day, n - 1).push(day + n - 1)
    } else {
        days_ahead(plan, day, n - 1)
    }
}

/// The days on which a window opens among the `n` days from `day` backwards, within the calendar,
/// the latest first.
pub open spec fn days_back(plan: WakePlan, day: int, n: int) -> Seq<int>
    decreases n,
{
    if n <= 0 || day - n + 1 < FIRST_DAY {
        if n <= 0 {
            Seq::empty()
        } else {
            days_back(plan, day, n - 1)
        }
    } else if opens_on(plan, day - n + 1) {
        days_back(plan, day, n - 1).push(day - n + 1)
    } else {
        days_back(plan, day, n - 1)
    }
}

/// The days on which a window opens, from a day on.
pub fn wake_days_ahead(plan: &WakePlan, day: i64) -> (out: Vec<i64>)
    requires
        FIRST_DAY <= day <= LAST_DAY,
        FIRST_DAY <= plan.anchor <= LAST_DAY,
        1 <= plan.every <= u32::MAX,
    ensures
        as_days(out@) == days_ahead(*plan, day as int, horizon(*plan)),
        forall|i: int| 0 <= i < out.len() ==> day <= (#[trigger] out@[i]) <= LAST_DAY,
{
    let total: i64 = plan.every * 7 + 8;
    let mut out: Vec<i64> = Vec::new();
    let mut n: i64 = 0;
    proof {
        assert(as_days(out@) =~= days_ahead(*plan, day as int, 0));
    }
    while n < total && day + n <= LAST_DAY
        invariant
            total == horizon(*plan),
            0 <= n <= total,
            FIRST_DAY <= day <= LAST_DAY,
            day + n <= LAST_DAY + 1,
            total <= 30064771080,
            FIRST_DAY <= plan.anchor <= LAST_DAY,
            plan.every >= 1,
            as_days(out@) == days_ahead(*plan, day as int, n as int),
            forall|i: int| 0 <= i < out.len() ==> day <= (#[trigger] out@[i]) <= LAST_DAY,
        decreases total - n,
    {
        let ghost was = as_days(out@);
        if opens_on_day(plan, day + n) {
            out.push(day + n);
            proof {
                assert(as_days(out@) =~= was.push(day + n));
            }
        }
        n = n + 1;
    }
    proof {
        lemma_nothing_beyond(*plan, day as int, n as int, total as int);
    }
    out
}

/// Beyond the calendar there are no days.
proof fn lemma_nothing_beyond(plan: WakePlan, day: int, n: int, total: int)
    requires
        0 <= n <= total,
        n < total ==> day + n > LAST_DAY,
    ensures
        days_ahead(plan, day, total) == days_ahead(plan, day, n),
    decreases total,
{
    if n < total {
        lemma_nothing_beyond(plan, day, n, total - 1);
    }
}

/// The days on which a window opens, from a day backwards.
pub fn wake_days_back(plan: &WakePlan, day: i64) -> (out: Vec<i64>)
    requires
        FIRST_DAY <= day <= LAST_DAY,
        FIRST_DAY <= plan.anchor <= LAST_DAY,
        1 <= plan.every <= u32::MAX,
    ensures
        as_days(out@) == days_back(*plan, day as int, horizon(*plan)),
        forall|i: int| 0 <= i < out.len() ==> FIRST_DAY <= (#[trigger] out@[i]) <= day,
{
    let total: i64 = plan.every * 7 + 8;
    let mut out: Vec<i64> = Vec::new();
    let mut n: i64 = 0;
    proof {
        assert(as_days(out@) =~= days_back(*plan, day as int, 0));
    }
    while n < total && day - n >= FIRST_DAY
        invariant
            total == horizon(*plan),
            0 <= n <= total,
            FIRST_DAY <= day <= LAST_DAY,
            day - n >= FIRST_DAY - 1,
            total <= 30064771080,
            FIRST_DAY <= plan.anchor <= LAST_DAY,
            plan.every >= 1,
            as_days(out@) == days_back(*plan, day as int, n as int),
            forall|i: int| 0 <= i < out.len() ==> FIRST_DAY <= (#[trigger] out@[i]) <= day,
        decreases total - n,
    {
        let ghost was = as_days(out@);
        if opens_on_day(plan, day - n) {
            out.push(day - n);
            proof {
                assert(as_days(out@) =~= was.push(day - n));
            }
        }
        n = n + 1;
    }
    proof {
        lemma_nothing_before(*plan, day as int, n as int, total as int);
    }
    out
}

/// Before the calendar there are no days.
proof fn lemma_nothing_before(plan: WakePlan, day: int, n: int, total: int)
    requires
        0 <= n <= total,
        n < total ==> day - n < FIRST_DAY,
    ensures
        days_back(plan, day, total) == days_back(plan, day, n),
    decreases total,
{
    if n < total {
        lemma_nothing_before(plan, day, n, total - 1);
    }
}

/// Whether a window that opened at a moment has ended after so many seconds. One that opened in a
/// leap second ends as if it had opened in the second behind it.
pub open spec fn window_over(start: Moment, now: Moment, secs: int) -> bool {
    let nanos = if in_leap_second(start) {
        start.nanos - 1000000000
    } else {
        start.nanos as int
    };
    now.secs > start.secs + secs || (now.secs == start.secs + secs && now.nanos >= nanos)
}

/// Whether a window that opened at one of the candidates, given from the latest back, is open: the
/// latest one that is not in the future decides.
pub open spec fn window_open(
    now: Moment,
    window_secs: int,
    candidates: Seq<Option<Moment>>,
    i: int,
) -> Result<bool, ()>
    decreases candidates.len() - i,
{
    if i < 0 || i >= candidates.len() {
        Ok(false)
    } else {
        match candidates[i] {
            None => Err(()),
            Some(m) => if earlier(now, m) {
                window_open(now, window_secs, candidates, i + 1)
            } else {
                Ok(!window_over(m, now, window_secs))
            },
        }
    }
}

/// The length of a window in seconds; at least a minute.
pub open spec fn window_secs(minutes: u64) -> int {
    if minutes == 0 {
        60
    } else {
        minutes * 60
    }
}

/// Whether a window is open, given the moments at which windows opened, from the latest back.
pub fn window_verdict(now: Moment, max_window_minutes: u64, candidates: &Vec<Option<Moment>>) -> (r:
    Result<bool, ()>)
    ensures
        r == window_open(now, window_secs(max_window_minutes), candidates@, 0),
{
    let minutes: u64 = if max_window_minutes == 0 {
        1
    } else {
        max_window_minutes
    };
    for i in 0..candidates.len()
        invariant
            minutes == (if max_window_minutes == 0 {
                1
            } else {
                max_window_minutes
            }),
            window_open(now, window_secs(max_window_minutes), candidates@, 0) == window_open(
                now,
                window_secs(max_window_minutes),
                candidates@,
                i as int,
            ),
    {
        match candidates[i] {
            None => {
                return Err(());
            },
            Some(m) => {
                if !is_earlier(now, m) {
                    let end: i128 = (m.secs as i128) + (minutes as i128) * 60;
                    let nanos: u32 = if m.nanos >= 1000000000 {
                        m.nanos - 1000000000
                    } else {
                        m.nanos
                    };
                    let over = (now.secs as i128) > end || ((now.secs as i128) == end && now.nanos
                        >= nanos);
                    return Ok(!over);
                }
            },
        }
    }
    Ok(false)
}

/// What a window is said to be, given the moments at which windows opened.
pub open spec fn window_from(now: Moment, window_secs: int, starts: Seq<Option<Moment>>) -> Result<
    bool,
    WakeError,
> {
    match window_open(now, window_secs, starts, 0) {
        Ok(open) => Ok(open),
        Err(_) => Err(WakeError::Unresolved),
    }
}

/// Whether an answer is what a local day of the moment, and the moments at which the days up to it
/// have the time of the schedule, give. A local day outside the calendar gives an error.
pub open spec fn window_answer(
    r: Result<bool, WakeError>,
    now: Moment,
    plan: WakePlan,
    window_secs: int,
    day: int,
    starts: Seq<Option<Moment>>,
) -> bool {
    &&& may_be_day_of(day, now.secs as int)
    &&& if FIRST_DAY <= day <= LAST_DAY {
        &&& may_be_times_of(
            starts,
            days_back(plan, day, horizon(plan)),
            plan.secs as int,
            plan.nanos as int,
        )
        &&& r == window_from(now, window_secs, starts)
    } else {
        r == Err::<bool, WakeError>(WakeError::OutOfRange)
    }
}

/// Whether an answer is what the machine's answers give: the local day of the moment, and the moments
/// at which the days up to it on which windows open have the time of the schedule.
pub open spec fn window_told(
    r: Result<bool, WakeError>,
    now: Moment,
    plan: WakePlan,
    window_secs: int,
    day: LocalDay,
    times: Seq<LocalTime>,
) -> bool {
    &&& day.moment() == now
    &&& FIRST_DAY <= day.number() <= LAST_DAY
    &&& asked(
        times,
        days_back(plan, day.number(), horizon(plan)),
        plan.secs as int,
        plan.nanos as int,
    )
    &&& window_answer(r, now, plan, window_secs, day.number(), found_in(times))
}

/// Whether an answer is the one that a schedule gives in the machine's time zone. A schedule that
/// cannot be read gives its error; so does a moment outside the calendar.
pub open spec fn possible_window(
    r: Result<bool, WakeError>,
    now: Moment,
    wake: WakeScheduleModel,
) -> bool {
    match plan_of(wake) {
        Err(e) => r == Err::<bool, WakeError>(e),
        Ok(plan) => if !in_calendar(now) {
            r == Err::<bool, WakeError>(WakeError::OutOfRange)
        } else {
            ||| exists|day: LocalDay, times: Seq<LocalTime>|
                window_told(r, now, plan, window_secs(wake.max_window_minutes), day, times)
            ||| at_the_ends(now) && r == Err::<bool, WakeError>(WakeError::OutOfRange)
        },
    }
}

/// Whether a moment lies in an open window: one that opened at the scheduled local time, not in the
/// future, and less than the length of a window ago. Which moment a local time is, and whether it
/// exists, depends on the machine's time zone.
pub fn is_within_wake_window(now: Moment, wake: &WakeSchedule) -> (r: Result<bool, WakeError>)
    ensures
        possible_window(r, now, wake@),
{
    let plan = match read_wake_schedule(wake) {
        Ok(p) => p,
        Err(e) => {
            return Err(e);
        },
    };
    let day = match told_day(now) {
        Some(d) => d,
        None => {
            return Err(WakeError::OutOfRange);
        },
    };
    let days = wake_days_back(&plan, day.day());
    let times = local_times(&days, plan.secs, plan.nanos);
    let r = match window_verdict(now, wake.max_window_minutes, &moments_of(&times)) {
        Ok(open) => Ok(open),
        Err(_) => Err(WakeError::Unresolved),
    };
    proof {
        let secs = window_secs(wake@.max_window_minutes);
        assert(window_told(r, now, plan, secs, day, times@));
    }
    r
}

/// The days up to a day on which a window opens: none is later, none earlier than the horizon, and
/// each of them is one on which a window opens.
proof fn lemma_days_back(plan: WakePlan, day: int, n: int)
    ensures
        forall|i: int|
            #![trigger days_back(plan, day, n)[i]]
            0 <= i < days_back(plan, day, n).len() ==> opens_on(plan, days_back(plan, day, n)[i])
                && day - n < days_back(plan, day, n)[i] <= day,
    decreases n,
{
    if n > 0 {
        lemma_days_back(plan, day, n - 1);
        let before = days_back(plan, day, n - 1);
        let days = days_back(plan, day, n);
        assert forall|i: int| 0 <= i < days.len() implies opens_on(plan, #[trigger] days[i])
            && day - n < days[i] <= day by {
            if i < before.len() {
                assert(days[i] == before[i]);
            }
        }
    }
}

/// A window is open only where one opened, at the scheduled time of a day on which the schedule
/// opens windows, not in the future, and less than the length of a window ago.
pub proof fn open_windows_have_opened(
    now: Moment,
    plan: WakePlan,
    window_secs: int,
    day: int,
    starts: Seq<Option<Moment>>,
) -> (k: int)
    requires
        window_answer(Ok(true), now, plan, window_secs, day, starts),
    ensures
        0 <= k < starts.len(),
        starts[k] is Some,
        !earlier(now, starts[k]->0),
        !window_over(starts[k]->0, now, window_secs),
        opens_on(plan, days_back(plan, day, horizon(plan))[k]),
        starts[k]->0.nanos == plan.nanos,
{
    lemma_days_back(plan, day, horizon(plan));
    lemma_open_at(now, window_secs, starts, 0)
}

/// The place of the window that is open.
proof fn lemma_open_at(now: Moment, secs: int, starts: Seq<Option<Moment>>, i: int) -> (k: int)
    requires
        0 <= i,
        window_open(now, secs, starts, i) == Ok::<bool, ()>(true),
    ensures
        i <= k < starts.len(),
        starts[k] is Some,
        !earlier(now, starts[k]->0),
        !window_over(starts[k]->0, now, secs),
    decreases starts.len() - i,
{
    if earlier(now, starts[i]->0) {
        lemma_open_at(now, secs, starts, i + 1)
    } else {
        i
    }
}

/// The next moment at which a window opens, given the moments at which windows open from a day on.
/// Where there is none, the calendar may have ended before the horizon.
pub open spec fn start_from(
    after: Moment,
    plan: WakePlan,
    day: int,
    starts: Seq<Option<Moment>>,
) -> Result<Moment, WakeError> {
    match first_after(after, starts, 0) {
        Ok(Some(m)) => Ok(m),
        Ok(None) => if day + horizon(plan) > LAST_DAY {
            Err(WakeError::OutOfRange)
        } else {
            Err(WakeError::NotFound)
        },
        Err(_) => Err(WakeError::Unresolved),
    }
}

/// The next moment at which a window opens, given the moments at which windows open from a day on.
pub fn wake_start_among(
    after: Moment,
    plan: &WakePlan,
    day: i64,
    starts: &Vec<Option<Moment>>,
) -> (r: Result<Moment, WakeError>)
    requires
        FIRST_DAY <= day <= LAST_DAY,
        1 <= plan.every <= u32::MAX,
    ensures
        r == start_from(after, *plan, day as int, starts@),
{
    match first_candidate(after, starts) {
        Ok(Some(m)) => Ok(m),
        Ok(None) => {
            if day + plan.every * 7 + 8 > LAST_DAY {
                Err(WakeError::OutOfRange)
            } else {
                Err(WakeError::NotFound)
            }
        },
        Err(_) => Err(WakeError::Unresolved),
    }
}

/// Whether a moment is what a local day, and the moments at which the days from it on have the time
/// of the schedule, give. A local day outside the calendar gives an error.
pub open spec fn start_answer(
    r: Result<Moment, WakeError>,
    after: Moment,
    plan: WakePlan,
    day: int,
    starts: Seq<Option<Moment>>,
) -> bool {
    &&& may_be_day_of(day, after.secs as int)
    &&& if FIRST_DAY <= day <= LAST_DAY {
        &&& may_be_times_of(
            starts,
            days_ahead(plan, day, horizon(plan)),
            plan.secs as int,
            plan.nanos as int,
        )
        &&& r == start_from(after, plan, day, starts)
    } else {
        r == Err::<Moment, WakeError>(WakeError::OutOfRange)
    }
}

/// Whether a moment is what the machine's answers give: the local day of the moment before, and the
/// moments at which the days from it on on which windows open have the time of the schedule.
pub open spec fn start_told(
    r: Result<Moment, WakeError>,
    after: Moment,
    plan: WakePlan,
    day: LocalDay,
    times: Seq<LocalTime>,
) -> bool {
    &&& day.moment() == after
    &&& FIRST_DAY <= day.number() <= LAST_DAY
    &&& asked(
        times,
        days_ahead(plan, day.number(), horizon(plan)),
        plan.secs as int,
        plan.nanos as int,
    )
    &&& start_answer(r, after, plan, day.number(), found_in(times))
}

/// Whether a moment is the next one at which a schedule opens a window in the machine's time zone. A
/// schedule that cannot be read gives its error; so does a moment outside the calendar.
pub open spec fn possible_start(
    r: Result<Moment, WakeError>,
    after: Moment,
    wake: WakeScheduleModel,
) -> bool {
    match plan_of(wake) {
        Err(e) => r == Err::<Moment, WakeError>(e),
        Ok(plan) => if !in_calendar(after) {
            r == Err::<Moment, WakeError>(WakeError::OutOfRange)
        } else {
            ||| exists|day: LocalDay, times: Seq<LocalTime>|
                start_told(r, after, plan, day, times)
            ||| at_the_ends(after) && r == Err::<Moment, WakeError>(WakeError::OutOfRange)
        },
    }
}

/// The next moment at which a window opens after another one. Which moment a local time is, and
/// whether it exists, depends on the machine's time zone.
pub fn next_wake_start_after(after: Moment, wake: &WakeSchedule) -> (r: Result<Moment, WakeError>)
    ensures
        possible_start(r, after, wake@),
{
    let plan = match read_wake_schedule(wake) {
        Ok(p) => p,
        Err(e) => {
            return Err(e);
        },
    };
    let day = match told_day(after) {
        Some(d) => d,
        None => {
            return Err(WakeError::OutOfRange);
        },
    };
    let days = wake_days_ahead(&plan, day.day());
    let times = local_times(&days, plan.secs, plan.nanos);
    let r = wake_start_among(after, &plan, day.day(), &moments_of(&times));
    proof {
        assert(start_told(r, after, plan, day, times@));
    }
    r
}

/// The days from a day on on which a window opens: none is earlier, none as late as the horizon, and
/// each of them is one on which a window opens.
proof fn lemma_days_ahead(plan: WakePlan, day: int, n: int)
    ensures
        forall|i: int|
            #![trigger days_ahead(plan, day, n)[i]]
            0 <= i < days_ahead(plan, day, n).len() ==> opens_on(plan, days_ahead(plan, day, n)[i])
                && day <= days_ahead(plan, day, n)[i] < day + n,
    decreases n,
{
    if n > 0 {
        lemma_days_ahead(plan, day, n - 1);
        let before = days_ahead(plan, day, n - 1);
        let days = days_ahead(plan, day, n);
        assert forall|i: int| 0 <= i < days.len() implies opens_on(plan, #[trigger] days[i])
            && day <= days[i] < day + n by {
            if i < before.len() {
                assert(days[i] == before[i]);
            }
        }
    }
}

/// The next moment at which a window opens comes after the given one, at the scheduled time of a day
/// on which the schedule opens windows.
pub proof fn window_starts_come_after(
    m: Moment,
    after: Moment,
    plan: WakePlan,
    day: int,
    starts: Seq<Option<Moment>>,
) -> (k: int)
    requires
        start_answer(Ok(m), after, plan, day, starts),
    ensures
        0 <= k < starts.len(),
        starts[k] == Some(m),
        earlier(after, m),
        opens_on(plan, days_ahead(plan, day, horizon(plan))[k]),
        m.nanos == plan.nanos,
        forall|j: int|
            0 <= j < k ==> (#[trigger] starts[j]) is Some && !earlier(after, starts[j]->0),
{
    lemma_days_ahead(plan, day, horizon(plan));
    lemma_found_at(after, starts, 0)
}

/// The place of the first candidate after a moment.
proof fn lemma_found_at(after: Moment, starts: Seq<Option<Moment>>, i: int) -> (k: int)
    requires
        0 <= i,
        first_after(after, starts, i) matches Ok(Some(_)),
    ensures
        i <= k < starts.len(),
        first_after(after, starts, i) == Ok::<Option<Moment>, ()>(starts[k]),
        starts[k] is Some,
        earlier(after, starts[k]->0),
        forall|j: int|
            i <= j < k ==> (#[trigger] starts[j]) is Some && !earlier(after, starts[j]->0),
    decreases starts.len() - i,
{
    if earlier(after, starts[i]->0) {
        i
    } else {
        lemma_found_at(after, starts, i + 1)
    }
}

/// Of the days from a day on, all on which a window opens are found, the earlier ones first.
proof fn lemma_days_ahead_complete(plan: WakePlan, day: int, n: int, d: int)
    requires
        day <= d < day + n,
        d <= LAST_DAY,
        opens_on(plan, d),
    ensures
        days_ahead(plan, day, n).contains(d),
    decreases n,
{
    let before = days_ahead(plan, day, n - 1);
    let days = days_ahead(plan, day, n);
    if d == day + n - 1 {
        assert(days[days.len() - 1] == d);
    } else {
        lemma_days_ahead_complete(plan, day, n - 1, d);
        let k = choose|k: int| 0 <= k < before.len() && before[k] == d;
        assert(days[k] == d);
    }
}

/// The days that are found come in order.
proof fn lemma_days_ahead_sorted(plan: WakePlan, day: int, n: int)
    ensures
        forall|i: int, j: int|
            0 <= i < j < days_ahead(plan, day, n).len() ==> (#[trigger] days_ahead(plan, day, n)[i])
                < (#[trigger] days_ahead(plan, day, n)[j]),
    decreases n,
{
    if n > 0 {
        let before = days_ahead(plan, day, n - 1);
        let days = days_ahead(plan, day, n);
        lemma_days_ahead_sorted(plan, day, n - 1);
        lemma_days_ahead(plan, day, n - 1);
        assert forall|i: int, j: int| 0 <= i < j < days.len() implies (#[trigger] days[i]) < (
        #[trigger] days[j]) by {
            assert(days[i] == before[i]);
            if j < before.len() {
                assert(days[j] == before[j]);
            }
        }
    }
}

/// After every day a window opens within so many weeks as lie between two windows.
pub proof fn windows_keep_coming(plan: WakePlan, day: int) -> (d: int)
    requires
        plan.every >= 1,
        plan.weekday < 7,
    ensures
        day < d <= day + plan.every * 7,
        opens_on(plan, d),
{
    let every = plan.every as int;
    let anchor = plan.anchor as int;
    let first = anchor + (plan.weekday - weekday_of(anchor)) % 7;
    let period = every * 7;
    let q = (day - first) / period;
    vstd::arithmetic::div_mod::lemma_fundamental_div_mod(day - first, period);
    vstd::arithmetic::div_mod::lemma_mod_bound(day - first, period);
    let d = first + period * (q + 1);
    assert(period * (q + 1) == period * q + period) by (nonlinear_arith);
    let weeks = every * (q + 1);
    assert(period * (q + 1) == 7 * weeks) by (nonlinear_arith)
        requires
            period == every * 7,
            weeks == every * (q + 1),
    ;
    assert((d - anchor) / 7 == weeks);
    vstd::arithmetic::div_mod::lemma_mod_multiples_basic(q + 1, every);
    assert(weeks == (q + 1) * every) by (nonlinear_arith)
        requires
            weeks == every * (q + 1),
    ;
    assert(weekday_of(d) == plan.weekday);
    d
}

/// In a consistent time zone the next window is found, as long as one is left in the calendar and
/// the zone has the time of the schedule on every day up to it: it opens after the given moment, at
/// the scheduled time of a day on which the schedule opens windows, and no other window opens
/// between the two.
pub proof fn next_window_is_the_next_occurrence(
    r: Result<Moment, WakeError>,
    after: Moment,
    plan: WakePlan,
    zone: Zone,
    left: int,
    other: int,
) -> (found: int)
    requires
        plan.every >= 1,
        plan.weekday < 7,
        is_consistent(zone, plan.secs as int, plan.nanos as int),
        FIRST_DAY <= (zone.day)(after) <= LAST_DAY,
        left <= LAST_DAY,
        opens_on(plan, left),
        (zone.at)(left, plan.secs as int, plan.nanos as int) is Some,
        earlier(after, (zone.at)(left, plan.secs as int, plan.nanos as int)->0),
        resolves(zone, plan.secs as int, plan.nanos as int, (zone.day)(after), left),
        (zone.at)(other, plan.secs as int, plan.nanos as int) is Some,
        start_answer(
            r,
            after,
            plan,
            (zone.day)(after),
            times_in(
                zone,
                days_ahead(plan, (zone.day)(after), horizon(plan)),
                plan.secs as int,
                plan.nanos as int,
            ),
        ),
    ensures
        opens_on(plan, found),
        (zone.at)(found, plan.secs as int, plan.nanos as int) is Some,
        r == Ok::<Moment, WakeError>((zone.at)(found, plan.secs as int, plan.nanos as int)->0),
        earlier(after, (zone.at)(found, plan.secs as int, plan.nanos as int)->0),
        opens_on(plan, other) && earlier(
            after,
            (zone.at)(other, plan.secs as int, plan.nanos as int)->0,
        ) ==> !earlier(
            (zone.at)(other, plan.secs as int, plan.nanos as int)->0,
            (zone.at)(found, plan.secs as int, plan.nanos as int)->0,
        ),
{
    let secs = plan.secs as int;
    let nanos = plan.nanos as int;
    let day = (zone.day)(after);
    let n = horizon(plan);
    let days = days_ahead(plan, day, n);
    let times = times_in(zone, days, secs, nanos);
    lemma_days_ahead(plan, day, n);
    lemma_days_ahead_sorted(plan, day, n);
    let coming = windows_keep_coming(plan, day);
    let e = (zone.at)(left, secs, nanos)->0;
    assert((zone.day)(e) == left);
    assert((zone.day)(after) <= (zone.day)(e));
    // A day on which a window opens after the moment, no later than what is left.
    let next = if left < coming {
        left
    } else {
        coming
    };
    let c = (zone.at)(next, secs, nanos);
    assert(c is Some);
    assert((zone.day)(c->0) == next);
    assert(earlier(after, c->0)) by {
        if !earlier(after, c->0) {
            assert(c->0 == after || earlier(c->0, after));
        }
    }
    lemma_days_ahead_complete(plan, day, n, next);
    let w = choose|w: int| 0 <= w < days.len() && days[w] == next;
    assert(times[w] == c);
    assert forall|j: int| 0 <= j <= w implies (#[trigger] times[j]) is Some by {
        if j < w {
            assert(days[j] < days[w]);
        }
        assert((zone.at)(days[j], secs, nanos) is Some);
    }
    let k = lemma_first_after_index(after, times, 0, w);
    let found = days[k];
    assert(times[k] == (zone.at)(found, secs, nanos));
    let b = (zone.at)(found, secs, nanos)->0;
    let m = (zone.at)(other, secs, nanos)->0;
    assert((zone.day)(b) == found && (zone.day)(m) == other);
    if opens_on(plan, other) && earlier(after, m) && earlier(m, b) {
        assert((zone.day)(after) <= (zone.day)(m));
        assert((zone.day)(m) <= (zone.day)(b));
        lemma_days_ahead_complete(plan, day, n, other);
        let j = choose|j: int| 0 <= j < days.len() && days[j] == other;
        assert(times[j] == Some(m));
        if j > k {
            assert(days[k] < days[j]);
        }
    }
    found
}

/// What is known of the device that a path lies on.
#[derive(Debug)]
pub struct DeviceFact {
    pub path: String,
    /// The number of the device, or why it is not known.
    pub device: Result<u64, String>,
}

/// The model of a `DeviceFact`.
pub struct DeviceModel {
    pub path: Seq<char>,
    pub device: Result<u64, Seq<char>>,
}

impl View for DeviceFact {
    type V = DeviceModel;

    open spec fn view(&self) -> DeviceModel {
        DeviceModel {
            path: self.path@,
            device: match self.device {
                Ok(d) => Ok(d),
                Err(e) => Err(e@),
            },
        }
    }
}

/// The test for what is known of a path.
pub open spec fn about(path: Seq<char>) -> spec_fn(DeviceModel) -> bool {
    |f: DeviceModel| f.path == path
}

/// The device that a path lies on, or why that is not known.
pub open spec fn device_at(facts: Seq<DeviceModel>, path: Seq<char>) -> Result<u64, Seq<char>> {
    let k = first_where(facts, about(path));
    match if k < facts.len() {
        facts[k].device
    } else {
        Err("not examined"@)
    } {
        Ok(d) => Ok(d),
        Err(e) => Err("stat "@ + path + ": "@ + e),
    }
}

/// The device that a path lies on, or why that is not known.
fn device_of(facts: &Vec<DeviceFact>, path: &str) -> (r: Result<u64, String>)
    ensures
        (match r {
            Ok(d) => Ok::<u64, Seq<char>>(d),
            Err(e) => Err(e@),
        }) == device_at(views(facts@), path@),
{
    let ghost fs = views(facts@);
    let ghost test = about(path@);
    let mut text = "stat ".to_string();
    text.append(path);
    text.append(": ");
    for i in 0..facts.len()
        invariant
            fs == views(facts@),
            test == about(path@),
            text@ == "stat "@ + path@ + ": "@,
            forall|j: int| 0 <= j < i ==> !test(#[trigger] fs[j]),
    {
        proof {
            assert(fs[i as int] == facts@[i as int]@);
        }
        if same(facts[i].path.as_str(), path) {
            proof {
                lemma_first_where_is(fs, test, i as int);
            }
            match &facts[i].device {
                Ok(d) => {
                    return Ok(*d);
                },
                Err(e) => {
                    text.append(e.as_str());
                    return Err(text);
                },
            }
        }
    }
    proof {
        lemma_first_where_is(fs, test, fs.len() as int);
    }
    text.append("not examined");
    Err(text)
}

/// Whether a path is a mount point: it lies on another device than the directory above it. The root
/// is one in any case.
pub open spec fn mount_point(facts: Seq<DeviceModel>, root: Seq<char>) -> Result<bool, Seq<char>> {
    match parent(root) {
        None => Ok(true),
        Some(up) => match device_at(facts, root) {
            Err(e) => Err(e),
            Ok(here) => match device_at(facts, up) {
                Err(e) => Err(e),
                Ok(above) => Ok(here != above),
            },
        },
    }
}

/// Whether a path is a mount point.
fn is_mount_point(facts: &Vec<DeviceFact>, root: &str) -> (r: Result<bool, String>)
    ensures
        (match r {
            Ok(b) => Ok::<bool, Seq<char>>(b),
            Err(e) => Err(e@),
        }) == mount_point(views(facts@), root@),
{
    let up = match parent_of(root) {
        None => {
            return Ok(true);
        },
        Some(up) => up,
    };
    let here: u64 = match device_of(facts, root) {
        Ok(d) => d,
        Err(e) => {
            return Err(e);
        },
    };
    let above: u64 = match device_of(facts, up.as_str()) {
        Ok(d) => d,
        Err(e) => {
            return Err(e);
        },
    };
    Ok(here != above)
}

/// Why the first root of a pool, from index `i` on, that is not mounted, is not.
pub open spec fn mount_fault(
    roots: Seq<Seq<char>>,
    facts: Seq<DeviceModel>,
    i: int,
) -> Option<Seq<char>>
    decreases roots.len() - i,
{
    if i < 0 || i >= roots.len() {
        None
    } else {
        match mount_point(facts, roots[i]) {
            Err(e) => Some(e),
            Ok(mounted) => if mounted {
                mount_fault(roots, facts, i + 1)
            } else {
                Some(roots[i] + " is not a mount point (pool not imported?)"@)
            },
        }
    }
}

/// Refuses a pool unless each of its roots is a mount point.
pub fn verify_pool_mounted(pool: &StandbyPoolConfig, facts: &Vec<DeviceFact>) -> (r: Result<(), String>)
    ensures
        (match r {
            Ok(_) => None::<Seq<char>>,
            Err(e) => Some(e@),
        }) == mount_fault(pool@.mount_roots, views(facts@), 0),
{
    let ghost roots = pool@.mount_roots;
    let ghost fs = views(facts@);
    for i in 0..pool.mount_roots.len()
        invariant
            roots == views(pool.mount_roots@),
            fs == views(facts@),
            mount_fault(roots, fs, 0) == mount_fault(roots, fs, i as int),
    {
        proof {
            assert(roots[i as int] == pool.mount_roots@[i as int]@);
        }
        match is_mount_point(facts, pool.mount_roots[i].as_str()) {
            Err(e) => {
                return Err(e);
            },
            Ok(mounted) => {
                if !mounted {
                    let mut e = pool.mount_roots[i].clone();
                    e.append(" is not a mount point (pool not imported?)");
                    return Err(e);
                }
            },
        }
    }
    Ok(())
}

/// Whether a task with the given roots touches the disks of a pool.
pub open spec fn touches(p: StandbyPoolConfigModel, roots: Seq<Seq<char>>) -> bool {
    exists|i: int| 0 <= i < roots.len() && covers(p, #[trigger] roots[i])
}

/// Whether a task with the given roots touches the disks of a pool.
pub fn touches_pool(pool: &StandbyPoolConfig, roots: &Vec<String>) -> (r: bool)
    ensures
        r == touches(pool@, views(roots@)),
{
    for i in 0..roots.len()
        invariant
            forall|j: int| 0 <= j < i ==> !covers(pool@, #[trigger] views(roots@)[j]),
    {
        if pool_covers_path(pool, roots[i].as_str()) {
            proof {
                assert(covers(pool@, views(roots@)[i as int]));
            }
            return true;
        }
    }
    false
}

/// What holds a task back that touches a pool: a closed window, or a root that is not mounted.
/// `next` is the text of the moment at which the window opens next.
pub open spec fn pool_gate(
    p: StandbyPoolConfigModel,
    open: bool,
    next: Seq<char>,
    facts: Seq<DeviceModel>,
) -> Option<GateModel> {
    if !open {
        Some(
            GateModel::Asleep {
                pool: p.name,
                reason: "disk "@ + p.name + " in standby until "@ + next,
            },
        )
    } else {
        match mount_fault(p.mount_roots, facts, 0) {
            Some(e) => Some(
                GateModel::NotMounted {
                    pool: p.name,
                    reason: "disk "@ + p.name + " not mounted: "@ + e,
                },
            ),
            None => None,
        }
    }
}

/// What holds a task back that touches a pool.
pub fn gate_for_pool(pool: &StandbyPoolConfig, open: bool, next: &str, facts: &Vec<DeviceFact>) -> (r:
    Option<Gate>)
    ensures
        opt_view(r) == pool_gate(pool@, open, next@, views(facts@)),
{
    if !open {
        let mut reason = "disk ".to_string();
        reason.append(pool.name.as_str());
        reason.append(" in standby until ");
        reason.append(next);
        return Some(Gate::Asleep { pool: pool.name.clone(), reason });
    }
    match verify_pool_mounted(pool, facts) {
        Ok(_) => None,
        Err(e) => {
            let mut reason = "disk ".to_string();
            reason.append(pool.name.as_str());
            reason.append(" not mounted: ");
            reason.append(e.as_str());
            Some(Gate::NotMounted { pool: pool.name.clone(), reason })
        },
    }
}

/// The test for pools that are in force and that a task touches.
pub open spec fn holds_back(roots: Seq<Seq<char>>) -> spec_fn(StandbyPoolConfigModel) -> bool {
    |p: StandbyPoolConfigModel| p.enabled && touches(p, roots)
}

/// What a pool that a task touches was found to be: whether its window is open, and what is said of
/// the next one.
pub struct PoolAnswer {
    pub open: Result<bool, WakeError>,
    pub next: Seq<char>,
}

/// Whether a text says when a window opens: its start in local time, or a question mark where it
/// cannot be found.
pub open spec fn says_start(text: Seq<char>, start: Result<Moment, WakeError>) -> bool {
    match start {
        Err(_) => text == "?"@,
        Ok(m) => exists|offset: i32|
            -86400 < offset < 86400 && text == #[trigger] chrono_local_text(
                m.secs,
                offset,
                start_format(),
            ),
    }
}

/// Whether an answer is one that a pool gives in some time zone. Where its window is closed, it says
/// when the next one opens.
pub open spec fn possible_answer(a: PoolAnswer, now: Moment, wake: WakeScheduleModel) -> bool {
    &&& possible_window(a.open, now, wake)
    &&& a.open == Ok::<bool, WakeError>(false) ==> exists|start: Result<Moment, WakeError>|
        #[trigger] possible_start(start, now, wake) && says_start(a.next, start)
}

/// What holds a task back among the pools from the `i`-th on, given what was found of each: the
/// first error, or what the first pool gives that holds it back.
pub open spec fn first_gate(
    pools: Seq<StandbyPoolConfigModel>,
    roots: Seq<Seq<char>>,
    answers: Seq<PoolAnswer>,
    facts: Seq<DeviceModel>,
    i: int,
) -> Result<Option<GateModel>, WakeError>
    decreases answers.len() - i,
{
    if i < 0 || i >= answers.len() {
        Ok(None)
    } else if !holds_back(roots)(pools[i]) {
        first_gate(pools, roots, answers, facts, i + 1)
    } else {
        match answers[i].open {
            Err(e) => Err(e),
            Ok(open) => match pool_gate(pools[i], open, answers[i].next, facts) {
                Some(g) => Ok(Some(g)),
                None => first_gate(pools, roots, answers, facts, i + 1),
            },
        }
    }
}

/// Whether a task is held back as the answers of the pools say. Each pool is asked, up to the first
/// one that fails or holds the task back.
pub open spec fn gate_answer(
    r: Result<Option<GateModel>, WakeError>,
    pools: Seq<StandbyPoolConfigModel>,
    roots: Seq<Seq<char>>,
    now: Moment,
    facts: Seq<DeviceModel>,
    answers: Seq<PoolAnswer>,
) -> bool {
    &&& answers.len() <= pools.len()
    &&& r == Ok::<Option<GateModel>, WakeError>(None) ==> answers.len() == pools.len()
    &&& forall|i: int|
        0 <= i < answers.len() && holds_back(roots)(#[trigger] pools[i]) ==> possible_answer(
            answers[i],
            now,
            pools[i].wake,
        )
    &&& r == first_gate(pools, roots, answers, facts, 0)
}

/// Whether a gate is the one that the pools give in some time zone.
pub open spec fn possible_gate(
    r: Result<Option<GateModel>, WakeError>,
    pools: Seq<StandbyPoolConfigModel>,
    roots: Seq<Seq<char>>,
    now: Moment,
    facts: Seq<DeviceModel>,
) -> bool {
    exists|answers: Seq<PoolAnswer>| gate_answer(r, pools, roots, now, facts, answers)
}

/// The model of a gate that may have failed.
pub open spec fn gate_view(r: Result<Option<Gate>, WakeError>) -> Result<
    Option<GateModel>,
    WakeError,
> {
    match r {
        Ok(g) => Ok(opt_view(g)),
        Err(e) => Err(e),
    }
}

/// A pool that a task does not touch, or that has no gate, is passed over.
pub open spec fn passed_over(
    pool: StandbyPoolConfigModel,
    roots: Seq<Seq<char>>,
    answer: PoolAnswer,
    facts: Seq<DeviceModel>,
) -> bool {
    holds_back(roots)(pool) ==> answer.open is Ok && pool_gate(
        pool,
        answer.open->Ok_0,
        answer.next,
        facts,
    ) is None
}

/// Pools that are passed over do not count.
proof fn lemma_passed_over(
    pools: Seq<StandbyPoolConfigModel>,
    roots: Seq<Seq<char>>,
    answers: Seq<PoolAnswer>,
    facts: Seq<DeviceModel>,
    i: int,
)
    requires
        0 <= i <= answers.len() <= pools.len(),
        forall|j: int|
            0 <= j < i ==> passed_over(#[trigger] pools[j], roots, answers[j], facts),
    ensures
        first_gate(pools, roots, answers, facts, 0) == first_gate(pools, roots, answers, facts, i),
    decreases i,
{
    if i > 0 {
        lemma_passed_over(pools, roots, answers, facts, i - 1);
        assert(passed_over(pools[i - 1], roots, answers[i - 1], facts));
    }
}

/// The start of a window lies in the calendar.
proof fn lemma_starts_in_calendar(
    start: Result<Moment, WakeError>,
    now: Moment,
    wake: WakeScheduleModel,
)
    requires
        possible_start(start, now, wake),
        start is Ok,
    ensures
        second_in_calendar(start->Ok_0.secs as int),
{
    let plan = plan_of(wake)->Ok_0;
    let (day, times) = choose|day: LocalDay, times: Seq<LocalTime>|
        start_told(start, now, plan, day, times);
    let starts = found_in(times);
    let k = lemma_found_at(now, starts, 0);
    assert(starts[k] is Some);
}

/// What a pool is found to be: whether its window is open, and what is said of the next one.
fn ask_pool(pool: &StandbyPoolConfig, now: Moment) -> (r: (Result<bool, WakeError>, String))
    ensures
        possible_answer((PoolAnswer { open: r.0, next: r.1@ }), now, pool.wake@),
{
    let open = is_within_wake_window(now, &pool.wake);
    let mut next = "?".to_string();
    match open {
        Ok(false) => {
            let start = next_wake_start_after(now, &pool.wake);
            proof {
                if start is Ok {
                    lemma_starts_in_calendar(start, now, pool.wake@);
                }
            }
            match start {
                Ok(m) => {
                    match local_text(m.secs, "%a %Y-%m-%d %H:%M") {
                        Some((offset, text)) => {
                            next = text;
                            proof {
                                assert(next@ == chrono_local_text(m.secs, offset, start_format()));
                            }
                        },
                        None => {},
                    }
                },
                Err(_) => {},
            }
            proof {
                assert(possible_start(start, now, pool.wake@) && says_start(next@, start));
            }
        },
        _ => {},
    }
    (open, next)
}

/// What holds back a task with the given roots: the first pool in force that it touches and whose
/// window is closed or whose disks are not mounted. Whether a window is open depends on the
/// machine's time zone.
pub fn gate_for_roots(
    pools: &Vec<StandbyPoolConfig>,
    roots: &Vec<String>,
    now: Moment,
    facts: &Vec<DeviceFact>,
) -> (r: Result<Option<Gate>, WakeError>)
    ensures
        possible_gate(gate_view(r), views(pools@), views(roots@), now, views(facts@)),
{
    let ghost ps = views(pools@);
    let ghost rs = views(roots@);
    let ghost fs = views(facts@);
    let ghost mut answers: Seq<PoolAnswer> = Seq::empty();
    for i in 0..pools.len()
        invariant
            ps == views(pools@),
            rs == views(roots@),
            fs == views(facts@),
            answers.len() == i,
            forall|j: int|
                0 <= j < i ==> passed_over(#[trigger] ps[j], rs, answers[j], fs),
            forall|j: int|
                0 <= j < i && holds_back(rs)(#[trigger] ps[j]) ==> possible_answer(
                    answers[j],
                    now,
                    ps[j].wake,
                ),
    {
        let pool = &pools[i];
        let ghost before = answers;
        proof {
            assert(ps[i as int] == pool@);
        }
        if pool.enabled && touches_pool(pool, roots) {
            let (open, next) = ask_pool(pool, now);
            proof {
                assert(holds_back(rs)(ps[i as int]));
                answers = answers.push(PoolAnswer { open, next: next@ });
                assert forall|j: int| 0 <= j < i implies passed_over(
                    #[trigger] ps[j],
                    rs,
                    answers[j],
                    fs,
                ) by {
                    assert(passed_over(ps[j], rs, before[j], fs));
                }
                lemma_passed_over(ps, rs, answers, fs, i as int);
                assert(first_gate(ps, rs, answers, fs, i + 1) == Ok::<
                    Option<GateModel>,
                    WakeError,
                >(None));
            }
            let is_open = match open {
                Ok(o) => o,
                Err(e) => {
                    let r: Result<Option<Gate>, WakeError> = Err(e);
                    proof {
                        assert(gate_answer(gate_view(r), ps, rs, now, fs, answers));
                    }
                    return r;
                },
            };
            match gate_for_pool(pool, is_open, next.as_str(), facts) {
                Some(gate) => {
                    let r: Result<Option<Gate>, WakeError> = Ok(Some(gate));
                    proof {
                        assert(gate_answer(gate_view(r), ps, rs, now, fs, answers));
                    }
                    return r;
                },
                None => {},
            }
        } else {
            proof {
                assert(!holds_back(rs)(ps[i as int]));
                answers = answers.push(PoolAnswer { open: Ok(true), next: Seq::empty() });
                assert forall|j: int| 0 <= j < i implies passed_over(
                    #[trigger] ps[j],
                    rs,
                    answers[j],
                    fs,
                ) by {
                    assert(passed_over(ps[j], rs, before[j], fs));
                }
            }
        }
    }
    let r: Result<Option<Gate>, WakeError> = Ok(None);
    proof {
        lemma_passed_over(ps, rs, answers, fs, ps.len() as int);
        assert(gate_answer(gate_view(r), ps, rs, now, fs, answers));
    }
    r
}

/// Only a pool in force that a task touches holds it back; a task that touches none is never held
/// back, and one that is let through touches no pool whose disks are not mounted.
pub proof fn only_touched_pools_hold_back(
    r: Result<Option<GateModel>, WakeError>,
    pools: Seq<StandbyPoolConfigModel>,
    roots: Seq<Seq<char>>,
    now: Moment,
    facts: Seq<DeviceModel>,
)
    requires
        possible_gate(r, pools, roots, now, facts),
    ensures
        (forall|i: int| 0 <= i < pools.len() ==> !holds_back(roots)(#[trigger] pools[i])) ==> r
            == Ok::<Option<GateModel>, WakeError>(None),
        r matches Ok(Some(g)) ==> exists|i: int|
            0 <= i < pools.len() && holds_back(roots)(#[trigger] pools[i]) && gate_pool(g)
                == pools[i].name,
        r == Ok::<Option<GateModel>, WakeError>(None) ==> forall|i: int|
            0 <= i < pools.len() && holds_back(roots)(#[trigger] pools[i]) ==> mount_fault(
                pools[i].mount_roots,
                facts,
                0,
            ) is None && possible_window(Ok(true), now, pools[i].wake),
{
    let answers = choose|answers: Seq<PoolAnswer>|
        gate_answer(r, pools, roots, now, facts, answers);
    lemma_gate_source(pools, roots, answers, facts, 0);
}

/// Where a gate comes from.
proof fn lemma_gate_source(
    pools: Seq<StandbyPoolConfigModel>,
    roots: Seq<Seq<char>>,
    answers: Seq<PoolAnswer>,
    facts: Seq<DeviceModel>,
    i: int,
)
    requires
        0 <= i <= answers.len() <= pools.len(),
    ensures
        (forall|j: int| i <= j < answers.len() ==> !holds_back(roots)(#[trigger] pools[j]))
            ==> first_gate(pools, roots, answers, facts, i) == Ok::<Option<GateModel>, WakeError>(
            None,
        ),
        first_gate(pools, roots, answers, facts, i) matches Ok(Some(g)) ==> exists|j: int|
            i <= j < answers.len() && holds_back(roots)(#[trigger] pools[j]) && gate_pool(g)
                == pools[j].name,
        first_gate(pools, roots, answers, facts, i) == Ok::<Option<GateModel>, WakeError>(None)
            ==> forall|j: int|
            i <= j < answers.len() && holds_back(roots)(#[trigger] pools[j]) ==> mount_fault(
                pools[j].mount_roots,
                facts,
                0,
            ) is None && answers[j].open == Ok::<bool, WakeError>(true),
    decreases answers.len() - i,
{
    if i < answers.len() {
        lemma_gate_source(pools, roots, answers, facts, i + 1);
    }
}

/// Whether a pool was last seen awake.
#[derive(Debug)]
pub struct PoolState {
    pub name: String,
    pub awake: bool,
}

/// The model of a `PoolState`.
pub struct PoolStateModel {
    pub name: Seq<char>,
    pub awake: bool,
}

impl View for PoolState {
    type V = PoolStateModel;

    open spec fn view(&self) -> PoolStateModel {
        PoolStateModel { name: self.name@, awake: self.awake }
    }
}

/// Which pools are awake, as far as that was seen.
#[derive(Debug)]
pub struct StandbyManager {
    pub pools: Vec<PoolState>,
}

/// The test for the state of a pool.
pub open spec fn of_pool(name: Seq<char>) -> spec_fn(PoolStateModel) -> bool {
    |s: PoolStateModel| s.name == name
}

/// Whether a pool is awake, where that was seen.
pub open spec fn seen_awake(states: Seq<PoolStateModel>, name: Seq<char>) -> Option<bool> {
    let k = first_where(states, of_pool(name));
    if k < states.len() {
        Some(states[k].awake)
    } else {
        None
    }
}

/// What is done with a pool at a tick.
#[derive(Debug, Clone, Copy, PartialEq, Eq, Structural)]
pub enum PoolAction {
    /// Nothing.
    Stay,
    /// Its window has opened.
    Wake,
    /// Its window has closed and nothing works on it: its disks are parked.
    Park,
}

/// What is done with a pool: its disks are parked once, when its window has closed, and not before
/// work on them has ended.
pub open spec fn pool_action(open: bool, was: bool, busy: bool) -> PoolAction {
    if open && !was {
        PoolAction::Wake
    } else if !open && was && !busy {
        PoolAction::Park
    } else {
        PoolAction::Stay
    }
}

/// The states after a pool was seen in one.
pub open spec fn with_state(states: Seq<PoolStateModel>, name: Seq<char>, awake: bool) -> Seq<
    PoolStateModel,
> {
    let k = first_where(states, of_pool(name));
    if k < states.len() {
        states.update(k, PoolStateModel { name, awake })
    } else {
        states.push(PoolStateModel { name, awake })
    }
}

impl StandbyManager {
    /// The states that were seen.
    pub open spec fn states(&self) -> Seq<PoolStateModel> {
        views(self.pools@)
    }

    /// No pool was seen yet.
    pub fn new() -> (r: StandbyManager)
        ensures
            r.states().len() == 0,
    {
        StandbyManager { pools: Vec::new() }
    }

    /// The index of the state of a pool, or the number of states.
    fn find(&self, name: &str) -> (r: usize)
        ensures
            r == first_where(self.states(), of_pool(name@)),
            r <= self.pools.len(),
    {
        let ghost ss = self.states();
        let ghost test = of_pool(name@);
        for i in 0..self.pools.len()
            invariant
                ss == views(self.pools@),
                test == of_pool(name@),
                forall|j: int| 0 <= j < i ==> !test(#[trigger] ss[j]),
        {
            proof {
                assert(ss[i as int] == self.pools@[i as int]@);
            }
            if same(self.pools[i].name.as_str(), name) {
                proof {
                    lemma_first_where_is(ss, test, i as int);
                }
                return i;
            }
        }
        proof {
            lemma_first_where_is(ss, test, ss.len() as int);
        }
        self.pools.len()
    }

    /// Whether a pool is awake; one that was never seen counts as awake, so that it never holds
    /// anything back.
    pub fn is_awake(&self, name: &str) -> (r: bool)
        ensures
            r == (match seen_awake(self.states(), name@) {
                Some(awake) => awake,
                None => true,
            }),
    {
        let k = self.find(name);
        if k < self.pools.len() {
            proof {
                assert(self.states()[k as int] == self.pools@[k as int]@);
            }
            self.pools[k].awake
        } else {
            true
        }
    }

    /// Records the state of a pool.
    fn set(&mut self, name: &str, awake: bool)
        ensures
            final(self).states() == with_state(old(self).states(), name@, awake),
    {
        let ghost ss = self.states();
        let k = self.find(name);
        let state = PoolState { name: name.to_string(), awake };
        let ghost sv = state@;
        if k < self.pools.len() {
            self.pools.set(k, state);
            proof {
                assert(self.states() =~= ss.update(k as int, sv));
            }
        } else {
            self.pools.push(state);
            proof {
                assert(self.states() =~= ss.push(sv));
            }
        }
    }

    /// Takes whether the window of a pool is open and whether work is being done on it, and says
    /// what is to be done. A pool that was never seen counts as asleep here.
    pub fn step(&mut self, name: &str, open: bool, busy: bool) -> (r: PoolAction)
        ensures
            ({
                let was = seen_awake(old(self).states(), name@) == Some(true);
                &&& r == pool_action(open, was, busy)
                &&& final(self).states() == (match r {
                    PoolAction::Wake => with_state(old(self).states(), name@, true),
                    PoolAction::Park => with_state(old(self).states(), name@, false),
                    PoolAction::Stay => old(self).states(),
                })
            }),
    {
        let k = self.find(name);
        let was = k < self.pools.len() && self.pools[k].awake;
        proof {
            if k < self.pools.len() {
                assert(self.states()[k as int] == self.pools@[k as int]@);
            }
        }
        if open && !was {
            self.set(name, true);
            PoolAction::Wake
        } else if !open && was && !busy {
            self.set(name, false);
            PoolAction::Park
        } else {
            PoolAction::Stay
        }
    }
}

/// Whether a window counts as open: one whose schedule cannot be calculated with is closed.
pub open spec fn counts_as_open(windows: Seq<Result<bool, WakeError>>, i: int) -> bool {
    0 <= i < windows.len() && windows[i] == Ok::<bool, WakeError>(true)
}

/// The states of the pools, and what is done with each of the first `n`, once all of these were
/// tended: nothing is done with a pool that is switched off.
pub open spec fn tended(
    states: Seq<PoolStateModel>,
    pools: Seq<StandbyPoolConfigModel>,
    windows: Seq<Result<bool, WakeError>>,
    busy: Seq<bool>,
    n: int,
) -> (Seq<PoolStateModel>, Seq<PoolAction>)
    decreases n,
{
    if n <= 0 {
        (states, Seq::empty())
    } else {
        let (before, actions) = tended(states, pools, windows, busy, n - 1);
        let pool = pools[n - 1];
        let was = seen_awake(before, pool.name) == Some(true);
        let action = if pool.enabled {
            pool_action(
                counts_as_open(windows, n - 1),
                was,
                0 <= n - 1 < busy.len() && busy[n - 1],
            )
        } else {
            PoolAction::Stay
        };
        (
            match action {
                PoolAction::Wake => with_state(before, pool.name, true),
                PoolAction::Park => with_state(before, pool.name, false),
                PoolAction::Stay => before,
            },
            actions.push(action),
        )
    }
}

/// Whether windows are those of the pools in force in some time zone.
pub open spec fn possible_windows(
    windows: Seq<Result<bool, WakeError>>,
    pools: Seq<StandbyPoolConfigModel>,
    now: Moment,
) -> bool {
    &&& windows.len() == pools.len()
    &&& forall|i: int|
        0 <= i < pools.len() && (#[trigger] pools[i]).enabled ==> possible_window(
            windows[i],
            now,
            pools[i].wake,
        )
}

/// Whether pools were tended as their windows say in some time zone.
pub open spec fn possibly_tended(
    before: Seq<PoolStateModel>,
    pools: Seq<StandbyPoolConfigModel>,
    now: Moment,
    busy: Seq<bool>,
    after: Seq<PoolStateModel>,
    actions: Seq<PoolAction>,
) -> bool {
    exists|windows: Seq<Result<bool, WakeError>>| #[trigger]
        possible_windows(windows, pools, now) && (after, actions) == tended(
            before,
            pools,
            windows,
            busy,
            pools.len() as int,
        )
}

impl StandbyManager {
    /// Takes what was found of the window of each pool and whether work is being done on it, and
    /// says for each pool what is to be done. A missing flag is unset.
    pub fn tend(
        &mut self,
        pools: &Vec<StandbyPoolConfig>,
        windows: &Vec<Result<bool, WakeError>>,
        busy: &Vec<bool>,
    ) -> (actions: Vec<PoolAction>)
        ensures
            (final(self).states(), actions@) == tended(
                old(self).states(),
                views(pools@),
                windows@,
                busy@,
                pools.len() as int,
            ),
    {
        let mut actions: Vec<PoolAction> = Vec::new();
        let ghost ps = views(pools@);
        for i in 0..pools.len()
            invariant
                ps == views(pools@),
                (self.states(), actions@) == tended(
                    old(self).states(),
                    ps,
                    windows@,
                    busy@,
                    i as int,
                ),
        {
            proof {
                assert(ps[i as int] == pools@[i as int]@);
            }
            let action = if pools[i].enabled {
                let open = i < windows.len() && (match windows[i] {
                    Ok(open) => open,
                    Err(_) => false,
                });
                let at_work = i < busy.len() && busy[i];
                self.step(pools[i].name.as_str(), open, at_work)
            } else {
                PoolAction::Stay
            };
            actions.push(action);
        }
        actions
    }
}

/// Tends the pools at a moment: finds out which windows are open, and says for each pool what is to
/// be done. Whether a window is open depends on the machine's time zone.
pub fn tick(
    manager: &mut StandbyManager,
    pools: &Vec<StandbyPoolConfig>,
    now: Moment,
    busy: &Vec<bool>,
) -> (actions: Vec<PoolAction>)
    ensures
        possibly_tended(
            old(manager).states(),
            views(pools@),
            now,
            busy@,
            final(manager).states(),
            actions@,
        ),
{
    let ghost ps = views(pools@);
    let mut windows: Vec<Result<bool, WakeError>> = Vec::new();
    for i in 0..pools.len()
        invariant
            ps == views(pools@),
            windows.len() == i,
            forall|j: int|
                0 <= j < i && (#[trigger] ps[j]).enabled ==> possible_window(
                    windows@[j],
                    now,
                    ps[j].wake,
                ),
    {
        proof {
            assert(ps[i as int] == pools@[i as int]@);
        }
        let window = if pools[i].enabled {
            is_within_wake_window(now, &pools[i].wake)
        } else {
            Ok(false)
        };
        windows.push(window);
    }
    proof {
        assert(possible_windows(windows@, ps, now));
    }
    manager.tend(pools, &windows, busy)
}

/// Whether a pool is awake, as it is shown.
pub fn pool_is_awake(manager: &StandbyManager, name: &str) -> (r: bool)
    ensures
        r == (match seen_awake(manager.states(), name@) {
            Some(awake) => awake,
            None => true,
        }),
{
    manager.is_awake(name)
}

/// The devices that are spun down when a pool is parked: all of them, where that is asked for.
pub fn devices_to_spin_down(pool: &StandbyPoolConfig) -> (out: Vec<String>)
    ensures
        views(out@) == (if pool@.active_spindown {
            pool@.devices
        } else {
            Seq::empty()
        }),
{
    if pool.active_spindown {
        crate::config::types::clone_strings(&pool.devices)
    } else {
        let none: Vec<String> = Vec::new();
        proof {
            assert(views(none@) =~= Seq::<Seq<char>>::empty());
        }
        none
    }
}

/// What was recorded of a pool is what is seen of it, and parking happens once: a pool that was
/// parked stays as it is until its window opens again.
pub proof fn parking_happens_once(states: Seq<PoolStateModel>, name: Seq<char>, busy: bool)
    ensures
        seen_awake(with_state(states, name, false), name) == Some(false),
        seen_awake(with_state(states, name, true), name) == Some(true),
        pool_action(false, false, busy) == PoolAction::Stay,
{
    let k = first_where(states, of_pool(name));
    lemma_first_where(states, of_pool(name));
    let down = with_state(states, name, false);
    let up = with_state(states, name, true);
    assert forall|j: int| 0 <= j < k implies !of_pool(name)(#[trigger] down[j]) by {
        assert(down[j] == states[j]);
    }
    assert forall|j: int| 0 <= j < k implies !of_pool(name)(#[trigger] up[j]) by {
        assert(up[j] == states[j]);
    }
    lemma_first_where_is(down, of_pool(name), k);
    lemma_first_where_is(up, of_pool(name), k);
}

/// Windows open every so many weeks: after a day on which one opens, the next such day is that many
/// weeks later. Where the day from which weeks are counted has the weekday, one opens on it.
pub proof fn windows_open_every_so_many_weeks(plan: WakePlan, day: int, other: int)
    requires
        plan.every >= 1,
        plan.weekday < 7,
    ensures
        (plan.anchor - 1) % 7 == plan.weekday ==> opens_on(plan, plan.anchor as int),
        opens_on(plan, day) ==> opens_on(plan, day + 7 * plan.every),
        opens_on(plan, day) && day < other < day + 7 * plan.every ==> !opens_on(plan, other),
{
    let every = plan.every as int;
    let w = (day - plan.anchor) / 7;
    if opens_on(plan, day) {
        assert((day + 7 * every - plan.anchor) / 7 == w + every) by (nonlinear_arith)
            requires
                w == (day - plan.anchor) / 7,
        ;
        vstd::arithmetic::div_mod::lemma_mod_add_multiples_vanish(w, every);
        assert(weekday_of(day + 7 * every) == weekday_of(day));
        if day < other < day + 7 * every && opens_on(plan, other) {
            let v = (other - plan.anchor) / 7;
            assert((other - day) % 7 == 0);
            let k = (other - day) / 7;
            assert(other == day + 7 * k);
            assert(v == w + k);
            assert(0 < k < every) by (nonlinear_arith)
                requires
                    other == day + 7 * k,
                    day < other < day + 7 * every,
            ;
            lemma_no_multiple_between(w, k, every);
        }
    }
    assert(0int / 7 == 0);
    assert(0int % every == 0) by {
        vstd::arithmetic::div_mod::lemma_small_mod(0, plan.every as nat);
    }
}

/// Less than a period behind a multiple of it there is no other one.
proof fn lemma_no_multiple_between(w: int, k: int, every: int)
    requires
        every >= 1,
        w % every == 0,
        0 < k < every,
    ensures
        (w + k) % every != 0,
{
    vstd::arithmetic::div_mod::lemma_fundamental_div_mod(w, every);
    let q = w / every;
    assert(w + k == q * every + k) by (nonlinear_arith)
        requires
            w == every * q,
    ;
    vstd::arithmetic::div_mod::lemma_fundamental_div_mod_converse(w + k, every, q, k);
}

/// A window is open exactly when, of the moments at which windows opened, the latest one that is not
/// in the future is less than the length of a window ago; a window lasts a minute at least.
pub proof fn windows_are_open_for_their_length(
    now: Moment,
    minutes: u64,
    starts: Seq<Option<Moment>>,
    k: int,
)
    requires
        0 <= k < starts.len(),
        forall|j: int| 0 <= j <= k ==> (#[trigger] starts[j]) is Some,
        forall|j: int| 0 <= j < k ==> earlier(now, (#[trigger] starts[j])->0),
        !earlier(now, starts[k]->0),
        starts[k]->0.nanos < 1000000000,
    ensures
        ({
            let length = if minutes < 1 {
                60
            } else {
                minutes * 60
            };
            let start = starts[k]->0;
            window_from(now, window_secs(minutes), starts) == Ok::<bool, WakeError>(
                now.secs < start.secs + length || (now.secs == start.secs + length && now.nanos
                    < start.nanos),
            )
        }),
{
    lemma_window_at(now, window_secs(minutes), starts, 0, k);
}

proof fn lemma_window_at(now: Moment, secs: int, starts: Seq<Option<Moment>>, i: int, k: int)
    requires
        0 <= i <= k < starts.len(),
        forall|j: int| i <= j <= k ==> (#[trigger] starts[j]) is Some,
        forall|j: int| i <= j < k ==> earlier(now, (#[trigger] starts[j])->0),
        !earlier(now, starts[k]->0),
    ensures
        window_open(now, secs, starts, i) == Ok::<bool, ()>(!window_over(starts[k]->0, now, secs)),
    decreases k - i,
{
    if i < k {
        assert(earlier(now, starts[i]->0));
        lemma_window_at(now, secs, starts, i + 1, k);
    }
}

/// What is said of a device that is known first, for a path.
pub open spec fn is_on(facts: Seq<DeviceModel>, path: Seq<char>, device: u64) -> bool {
    exists|i: int|
        0 <= i < facts.len() && (#[trigger] facts[i]).path == path && facts[i].device == Ok::<
            u64,
            Seq<char>,
        >(device) && forall|j: int| 0 <= j < i ==> (#[trigger] facts[j]).path != path
}

/// A pool counts as mounted exactly when each of its roots is the root of the file system, or is
/// known to be on another device than the directory above it.
pub proof fn mounted_pools_have_devices_of_their_own(
    roots: Seq<Seq<char>>,
    facts: Seq<DeviceModel>,
)
    ensures
        (mount_fault(roots, facts, 0) is None) == forall|i: int|
            0 <= i < roots.len() ==> {
                ||| parent(#[trigger] roots[i]) is None
                ||| exists|a: u64, b: u64|
                    a != b && #[trigger] is_on(facts, roots[i], a) && #[trigger] is_on(
                        facts,
                        parent(roots[i])->0,
                        b,
                    )
            },
{
    lemma_mounts(roots, facts, 0);
}

proof fn lemma_on(facts: Seq<DeviceModel>, path: Seq<char>, device: u64)
    ensures
        (device_at(facts, path) == Ok::<u64, Seq<char>>(device)) == is_on(facts, path, device),
{
    let test = about(path);
    let k = first_where(facts, test);
    lemma_first_where(facts, test);
    if k < facts.len() {
        assert(test(facts[k]));
        assert forall|j: int| 0 <= j < k implies (#[trigger] facts[j]).path != path by {
            assert(!test(facts[j]));
        }
    }
    if is_on(facts, path, device) {
        let i = choose|i: int|
            0 <= i < facts.len() && (#[trigger] facts[i]).path == path && facts[i].device == Ok::<
                u64,
                Seq<char>,
            >(device) && forall|j: int| 0 <= j < i ==> (#[trigger] facts[j]).path != path;
        lemma_first_where_is(facts, test, i);
    }
}

proof fn lemma_mount(facts: Seq<DeviceModel>, root: Seq<char>)
    ensures
        (mount_point(facts, root) == Ok::<bool, Seq<char>>(true)) == (parent(root) is None || exists|
            a: u64,
            b: u64,
        |
            a != b && #[trigger] is_on(facts, root, a) && #[trigger] is_on(
                facts,
                parent(root)->0,
                b,
            )),
{
    if parent(root) is Some {
        let up = parent(root)->0;
        if device_at(facts, root) is Ok && device_at(facts, up) is Ok {
            lemma_on(facts, root, device_at(facts, root)->Ok_0);
            lemma_on(facts, up, device_at(facts, up)->Ok_0);
        }
        if exists|a: u64, b: u64|
            a != b && #[trigger] is_on(facts, root, a) && #[trigger] is_on(facts, up, b) {
            let (a, b) = choose|a: u64, b: u64|
                a != b && #[trigger] is_on(facts, root, a) && #[trigger] is_on(facts, up, b);
            lemma_on(facts, root, a);
            lemma_on(facts, up, b);
        }
    }
}

proof fn lemma_mounts(roots: Seq<Seq<char>>, facts: Seq<DeviceModel>, from: int)
    requires
        0 <= from,
    ensures
        (mount_fault(roots, facts, from) is None) == forall|i: int|
            from <= i < roots.len() ==> {
                ||| parent(#[trigger] roots[i]) is None
                ||| exists|a: u64, b: u64|
                    a != b && #[trigger] is_on(facts, roots[i], a) && #[trigger] is_on(
                        facts,
                        parent(roots[i])->0,
                        b,
                    )
            },
    decreases roots.len() - from,
{
    if from < roots.len() {
        lemma_mounts(roots, facts, from + 1);
        lemma_mount(facts, roots[from]);
    }
}

/// The first pool in force that a task touches and whose window is closed, or that cannot be asked,
/// holds it back, where all earlier ones that it touches are open and mounted.
pub proof fn closed_pools_hold_tasks_back(
    pools: Seq<StandbyPoolConfigModel>,
    roots: Seq<Seq<char>>,
    answers: Seq<PoolAnswer>,
    facts: Seq<DeviceModel>,
    i: int,
)
    requires
        0 <= i < answers.len() <= pools.len(),
        pools[i].enabled,
        exists|a: int, b: int|
            #![trigger roots[a], pools[i].mount_roots[b]]
            0 <= a < roots.len() && 0 <= b < pools[i].mount_roots.len() && at_or_under(
                roots[a],
                pools[i].mount_roots[b],
            ),
        forall|j: int|
            0 <= j < i && holds_back(roots)(#[trigger] pools[j]) ==> answers[j].open == Ok::<
                bool,
                WakeError,
            >(true) && mount_fault(pools[j].mount_roots, facts, 0) is None,
    ensures
        ({
            let r = first_gate(pools, roots, answers, facts, 0);
            match answers[i].open {
                Err(e) => r == Err::<Option<GateModel>, WakeError>(e),
                Ok(false) => r matches Ok(Some(GateModel::Asleep { pool, reason })) && pool
                    == pools[i].name,
                Ok(true) => mount_fault(pools[i].mount_roots, facts, 0) is Some ==> (r matches Ok(
                    Some(GateModel::NotMounted { pool, reason }),
                ) && pool == pools[i].name),
            }
        }),
{
    let (a, b) = choose|a: int, b: int|
        #![trigger roots[a], pools[i].mount_roots[b]]
        0 <= a < roots.len() && 0 <= b < pools[i].mount_roots.len() && at_or_under(
            roots[a],
            pools[i].mount_roots[b],
        );
    assert(covers(pools[i], roots[a]));
    assert(touches(pools[i], roots));
    assert(holds_back(roots)(pools[i]));
    assert forall|j: int| 0 <= j < i implies passed_over(
        #[trigger] pools[j],
        roots,
        answers[j],
        facts,
    ) by {}
    lemma_passed_over(pools, roots, answers, facts, i);
}

proof fn lemma_other_pools_stay(
    states: Seq<PoolStateModel>,
    name: Seq<char>,
    awake: bool,
    other: Seq<char>,
)
    requires
        name != other,
    ensures
        seen_awake(with_state(states, name, awake), other) == seen_awake(states, other),
{
    let after = with_state(states, name, awake);
    let test = of_pool(other);
    let k = first_where(states, test);
    lemma_first_where(states, test);
    lemma_first_where(states, of_pool(name));
    assert forall|j: int| 0 <= j < k implies !test(#[trigger] after[j]) by {
        assert(!test(states[j]));
    }
    if k < states.len() {
        assert(after[k] == states[k]);
        lemma_first_where_is(after, test, k);
    } else {
        assert forall|j: int| 0 <= j < after.len() implies !test(#[trigger] after[j]) by {
            if j < states.len() {
                assert(!test(states[j]));
            }
        }
        lemma_first_where_is(after, test, after.len() as int);
    }
}

/// A pool whose window has opened is woken, and one whose window has closed is parked as soon as no
/// work is done on it; it is known to be awake then just where its window is open or work is left.
/// Nothing happens to a pool that is switched off.
pub proof fn pools_are_tended_by_their_windows(
    states: Seq<PoolStateModel>,
    pools: Seq<StandbyPoolConfigModel>,
    windows: Seq<Result<bool, WakeError>>,
    busy: Seq<bool>,
    n: int,
    i: int,
)
    requires
        0 <= n <= pools.len(),
        pools.len() == windows.len(),
        pools.len() == busy.len(),
        0 <= i < pools.len(),
        forall|a: int, b: int|
            0 <= a < b < pools.len() ==> (#[trigger] pools[a]).name != (#[trigger] pools[b]).name,
    ensures
        ({
            let (after, actions) = tended(states, pools, windows, busy, n);
            let name = pools[i].name;
            let was = seen_awake(states, name) == Some(true);
            let open = windows[i] == Ok::<bool, WakeError>(true);
            &&& actions.len() == n
            &&& i >= n || !pools[i].enabled ==> seen_awake(after, name) == seen_awake(states, name)
            &&& i < n && !pools[i].enabled ==> actions[i] is Stay
            &&& i < n && pools[i].enabled ==> {
                &&& actions[i] is Wake <==> open && !was
                &&& actions[i] is Park <==> !open && was && !busy[i]
                &&& seen_awake(after, name) == Some(true) <==> open || (was && busy[i])
            }
        }),
    decreases n,
{
    if n > 0 {
        pools_are_tended_by_their_windows(states, pools, windows, busy, n - 1, i);
        pools_are_tended_by_their_windows(states, pools, windows, busy, n - 1, n - 1);
        let before = tended(states, pools, windows, busy, n - 1).0;
        let pool = pools[n - 1];
        let name = pools[i].name;
        parking_happens_once(before, pool.name, false);
        if i != n - 1 {
            if i < n - 1 {
                assert(pools[i].name != pools[n - 1].name);
            } else {
                assert(pools[n - 1].name != pools[i].name);
            }
            lemma_other_pools_stay(before, pool.name, true, name);
            lemma_other_pools_stay(before, pool.name, false, name);
        }
    }
}

} // verus!
